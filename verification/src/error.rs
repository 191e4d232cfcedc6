//! The errors that parsing and validation report.
use vstd::prelude::*;
use crate::types::ProtocolVersion;

verus! {

/// Why a piece of text was refused as invalid input.
#[derive(Debug, Clone, Copy, PartialEq, Eq, Structural, Hash)]
pub enum Cause {
    /// The text is empty where a value was expected.
    Empty,
    /// A character that is not a decimal digit stands in a decimal integer.
    NotADigit,
    /// The decimal integer does not fit in 64 bits.
    Overflow,
    /// The text is neither `YES` nor `NO`.
    NotYesOrNo,
    /// A segment of an attribute list holds no `=`.
    MissingEquals,
    /// A segment of an attribute list begins with `=`.
    EmptyKey,
    /// A quoted string is opened and never closed.
    UnterminatedQuote,
    /// A `"` stands where it neither opens nor closes the whole value.
    MisplacedQuote,
    /// An attribute name occurs twice in one attribute list.
    DuplicateAttribute,
    /// Text follows where the tag allows none.
    TrailingCharacters,
    /// The `:` that introduces the value of a tag is missing.
    MissingColon,
    /// The number is no rank of a protocol version.
    UnknownVersion,
    /// The value is none of the literals that the attribute allows.
    UnknownLiteral,
    /// The text is no hexadecimal sequence of the required width.
    NotHexadecimal,
    /// The fraction of a decimal number is empty or longer than nine digits.
    BadFraction,
    /// A bare token stands where a quoted string is required.
    MissingQuotes,
    /// A quoted string stands where a bare token is required.
    UnexpectedQuotes,
    /// A text holds a carriage return, a line feed or a `"` where none may stand.
    ForbiddenCharacter,
    /// The line is a tag that this crate does not know, or no tag at all.
    UnknownTag,
}

/// An error of parsing or validation.
#[derive(Debug, Clone, PartialEq, Eq)]
pub enum Error {
    /// A piece of text is malformed; `context` is the offending text.
    InvalidInput { context: String, cause: Cause },
    /// A line does not begin with the prefix of the tag tried on it.
    UnmatchedPrefix { expected: String, actual: String },
    /// An attribute that the tag requires is absent.
    MissingAttribute { name: String },
    /// An attribute is present that the tag does not allow.
    UnexpectedAttribute { name: String },
    /// The declared version is lower than the version that the tags require.
    VersionMismatch { declared: ProtocolVersion, required: ProtocolVersion },
    /// A tag that may occur once occurs again; `name` is its prefix.
    DuplicateTag { name: String },
}

/// The mathematical value of an [`Error`]: the same variants, with each
/// text as a sequence of characters.
pub enum ErrorView {
    InvalidInput { context: Seq<char>, cause: Cause },
    UnmatchedPrefix { expected: Seq<char>, actual: Seq<char> },
    MissingAttribute { name: Seq<char> },
    UnexpectedAttribute { name: Seq<char> },
    VersionMismatch { declared: ProtocolVersion, required: ProtocolVersion },
    DuplicateTag { name: Seq<char> },
}

impl View for Error {
    type V = ErrorView;

    open spec fn view(&self) -> ErrorView {
        match self {
            Error::InvalidInput { context, cause } => ErrorView::InvalidInput {
                context: context@,
                cause: *cause,
            },
            Error::UnmatchedPrefix { expected, actual } => ErrorView::UnmatchedPrefix {
                expected: expected@,
                actual: actual@,
            },
            Error::MissingAttribute { name } => ErrorView::MissingAttribute { name: name@ },
            Error::UnexpectedAttribute { name } => ErrorView::UnexpectedAttribute { name: name@ },
            Error::VersionMismatch { declared, required } => ErrorView::VersionMismatch {
                declared: *declared,
                required: *required,
            },
            Error::DuplicateTag { name } => ErrorView::DuplicateTag { name: name@ },
        }
    }
}

/// The error for a malformed piece of text.
pub open spec fn invalid(context: Seq<char>, cause: Cause) -> ErrorView {
    ErrorView::InvalidInput { context, cause }
}

impl Error {
    /// Builds the error for a malformed piece of text.
    pub fn invalid_input(context: String, cause: Cause) -> (e: Error)
        ensures
            e@ == invalid(context@, cause),
    {
        Error::InvalidInput { context, cause }
    }

    /// Returns the cause of an `InvalidInput` error, and `None` for any
    /// other error.
    pub fn cause(&self) -> (r: Option<Cause>)
        ensures
            r == (match self@ {
                ErrorView::InvalidInput { cause, .. } => Some(cause),
                _ => None,
            }),
    {
        match self {
            Error::InvalidInput { cause, .. } => Some(*cause),
            _ => None,
        }
    }
}

} // verus!

//! The ways in which the segments of a playlist may be encrypted.
use vstd::prelude::*;
use crate::error::{invalid, Cause, Error, ErrorView};
use crate::text::{same_text, string_of, to_chars};
use crate::utils::plain;

verus! {

/// How the segments that follow a key tag are encrypted.
#[derive(Debug, Clone, Copy, PartialEq, Eq, Structural, Hash)]
pub enum EncryptionMethod {
    /// The segments are not encrypted; written `NONE`.
    Plain,
    /// Each segment is encrypted as a whole with AES-128; written
    /// `AES-128`.
    Aes128,
    /// The samples in each segment are encrypted; written `SAMPLE-AES`.
    SampleAes,
}

impl EncryptionMethod {
    /// The literal that stands for the method in a playlist.
    pub open spec fn spec_text(self) -> Seq<char> {
        match self {
            EncryptionMethod::Plain => "NONE"@,
            EncryptionMethod::Aes128 => "AES-128"@,
            EncryptionMethod::SampleAes => "SAMPLE-AES"@,
        }
    }

    /// What a literal means: the method that it stands for, letter for
    /// letter; any other text is refused, with the text as context.
    pub open spec fn spec_parse(s: Seq<char>) -> Result<EncryptionMethod, ErrorView> {
        if s == "NONE"@ {
            Ok(EncryptionMethod::Plain)
        } else if s == "AES-128"@ {
            Ok(EncryptionMethod::Aes128)
        } else if s == "SAMPLE-AES"@ {
            Ok(EncryptionMethod::SampleAes)
        } else {
            Err(invalid(s, Cause::UnknownLiteral))
        }
    }

    /// Returns the literal that stands for the method.
    pub fn as_str(self) -> (s: &'static str)
        ensures
            s@ == self.spec_text(),
    {
        match self {
            EncryptionMethod::Plain => "NONE",
            EncryptionMethod::Aes128 => "AES-128",
            EncryptionMethod::SampleAes => "SAMPLE-AES",
        }
    }

    /// Reads the characters of `v` as the literal of a method.
    pub fn parse_chars(v: &Vec<char>) -> (r: Result<EncryptionMethod, Error>)
        ensures
            plain(r) == Self::spec_parse(v@),
    {
        let none = to_chars("NONE");
        let aes = to_chars("AES-128");
        let sample = to_chars("SAMPLE-AES");
        if same_text(v, &none) {
            Ok(EncryptionMethod::Plain)
        } else if same_text(v, &aes) {
            Ok(EncryptionMethod::Aes128)
        } else if same_text(v, &sample) {
            Ok(EncryptionMethod::SampleAes)
        } else {
            Err(Error::invalid_input(string_of(v), Cause::UnknownLiteral))
        }
    }

    /// Reads a text as the literal of a method.
    pub fn parse(input: &str) -> (r: Result<EncryptionMethod, Error>)
        ensures
            plain(r) == Self::spec_parse(input@),
    {
        let v = to_chars(input);
        Self::parse_chars(&v)
    }

    /// The literal of a method reads back as the method, and holds no
    /// character that would end a bare token.
    pub proof fn lemma_round_trip(self)
        ensures
            Self::spec_parse(self.spec_text()) == Ok::<EncryptionMethod, ErrorView>(self),
            forall|i: int|
                0 <= i < self.spec_text().len() ==> {
                    let c = #[trigger] self.spec_text()[i];
                    c != ',' && c != '"'
                },
    {
        reveal_strlit("NONE");
        reveal_strlit("AES-128");
        reveal_strlit("SAMPLE-AES");
        assert("NONE"@.len() == 4);
        assert("AES-128"@.len() == 7);
    }
}

} // verus!

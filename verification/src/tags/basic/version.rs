//! The tag that declares the protocol version of a playlist.
use vstd::prelude::*;
use crate::error::{invalid, Cause, Error, ErrorView};
use crate::text::{string_of, string_of_range, to_chars};
use crate::types::ProtocolVersion;
use crate::utils::{
    decimal_digits, lemma_parse_u64_of_digits, lemma_tag_value_of_text, parse_u64_in,
    push_number_tag, spec_parse_u64, spec_tag_value, spec_value_text, tag_value_in, viewed,
};

verus! {

/// The tag `#EXT-X-VERSION:<n>`: the playlist declares that it keeps to
/// the protocol version of rank `n`.
#[derive(Debug, Clone, Copy, PartialEq, Eq, Hash)]
pub struct ExtXVersion {
    version: ProtocolVersion,
}

impl View for ExtXVersion {
    type V = ProtocolVersion;

    /// The version that the tag declares.
    closed spec fn view(&self) -> ProtocolVersion {
        self.version
    }
}

impl ExtXVersion {
    /// The text that a line of this tag begins with.
    pub const PREFIX: &'static str = "#EXT-X-VERSION";

    /// The text of the tag that declares `version`: the prefix, a `:` and
    /// the rank of the version in decimal digits.
    pub open spec fn spec_text(version: ProtocolVersion) -> Seq<char> {
        spec_value_text(Self::PREFIX@, decimal_digits(version.spec_rank()))
    }

    /// What the value of the tag means: the version whose rank the value
    /// is in decimal digits. A value that is no decimal integer of 64
    /// bits is refused as the scalar codec refuses it, and a number that
    /// is no rank is refused with the value as context.
    pub open spec fn spec_parse_value(value: Seq<char>) -> Result<ProtocolVersion, ErrorView> {
        match spec_parse_u64(value) {
            Ok(n) => match ProtocolVersion::spec_from_rank(n as nat) {
                Some(version) => Ok(version),
                None => Err(invalid(value, Cause::UnknownVersion)),
            },
            Err(e) => Err(e),
        }
    }

    /// What a line gives when read as this tag.
    pub open spec fn spec_parse(input: Seq<char>) -> Result<ProtocolVersion, ErrorView> {
        match spec_tag_value(input, Self::PREFIX@) {
            Ok(value) => Self::spec_parse_value(value),
            Err(e) => Err(e),
        }
    }

    /// Makes the tag that declares `version`.
    pub fn new(version: ProtocolVersion) -> (t: ExtXVersion)
        ensures
            t@ == version,
    {
        ExtXVersion { version }
    }

    /// Returns the version that the tag declares.
    pub fn version(&self) -> (v: ProtocolVersion)
        ensures
            v == self@,
    {
        self.version
    }

    /// Returns the protocol compatibility version that this tag requires:
    /// the lowest, whatever version it declares. The declaration is held
    /// against what the other tags require when a playlist is assembled.
    pub fn requires_version(&self) -> (v: ProtocolVersion)
        ensures
            v == ProtocolVersion::V1,
    {
        ProtocolVersion::V1
    }

    /// Reads the line `v` as this tag.
    pub fn parse_in(v: &Vec<char>) -> (r: Result<ExtXVersion, Error>)
        ensures
            viewed(r) == Self::spec_parse(v@),
    {
        let at = tag_value_in(v, Self::PREFIX)?;
        let n = parse_u64_in(v, at, v.len())?;
        match ProtocolVersion::from_rank(n) {
            Some(version) => Ok(ExtXVersion { version }),
            None => Err(
                Error::invalid_input(string_of_range(v, at, v.len()), Cause::UnknownVersion),
            ),
        }
    }

    /// Reads a line as this tag.
    pub fn parse(input: &str) -> (r: Result<ExtXVersion, Error>)
        ensures
            viewed(r) == Self::spec_parse(input@),
    {
        let v = to_chars(input);
        Self::parse_in(&v)
    }

    /// Appends the text of the tag to `out`.
    pub fn push_text(&self, out: &mut Vec<char>)
        ensures
            final(out)@ == old(out)@ + Self::spec_text(self@),
    {
        push_number_tag(out, Self::PREFIX, self.version.rank() as u64);
    }

    /// Returns the text of the tag.
    pub fn to_string(&self) -> (s: String)
        ensures
            s@ == Self::spec_text(self@),
    {
        let mut out: Vec<char> = Vec::new();
        self.push_text(&mut out);
        string_of(&out)
    }

    /// Reading the text of the tag gives its version back.
    pub proof fn lemma_round_trip(version: ProtocolVersion)
        ensures
            Self::spec_parse(Self::spec_text(version)) == Ok::<ProtocolVersion, ErrorView>(version),
    {
        let rank = version.spec_rank();
        lemma_tag_value_of_text(Self::PREFIX@, decimal_digits(rank));
        lemma_parse_u64_of_digits(rank as u64);
        ProtocolVersion::lemma_rank_names_version(version, version);
    }
}

impl std::str::FromStr for ExtXVersion {
    type Err = Error;

    fn from_str(input: &str) -> (r: Result<ExtXVersion, Error>)
        ensures
            viewed(r) == ExtXVersion::spec_parse(input@),
    {
        ExtXVersion::parse(input)
    }
}

} // verus!

//! The tag that bounds the duration of the segments of a media playlist.
use vstd::prelude::*;
use crate::error::{Error, ErrorView};
use crate::text::{string_of, to_chars};
use crate::types::ProtocolVersion;
use crate::utils::{
    decimal_digits, lemma_number_tag_round_trip, number_tag_in, push_number_tag, spec_number_tag,
    spec_value_text, viewed,
};

verus! {

/// The tag `#EXT-X-TARGETDURATION:<n>`: the longest duration that a segment of the
/// playlist may have, in whole seconds.
#[derive(Debug, Clone, Copy, PartialEq, Eq, Hash)]
pub struct ExtXTargetDuration {
    duration: u64,
}

impl View for ExtXTargetDuration {
    type V = u64;

    /// The number that the tag carries.
    closed spec fn view(&self) -> u64 {
        self.duration
    }
}

impl ExtXTargetDuration {
    /// The text that a line of this tag begins with.
    pub const PREFIX: &'static str = "#EXT-X-TARGETDURATION";

    /// The text of the tag that carries `n`: the prefix, a `:` and the
    /// decimal digits of `n`.
    pub open spec fn spec_text(n: u64) -> Seq<char> {
        spec_value_text(Self::PREFIX@, decimal_digits(n as nat))
    }

    /// What a line gives when read as this tag: the number after the
    /// prefix and the `:`, or the error of the first of these steps that
    /// fails.
    pub open spec fn spec_parse(input: Seq<char>) -> Result<u64, ErrorView> {
        spec_number_tag(input, Self::PREFIX@)
    }

    /// Makes the tag that carries `duration`.
    pub fn new(duration: u64) -> (t: ExtXTargetDuration)
        ensures
            t@ == duration,
    {
        ExtXTargetDuration { duration }
    }

    /// Returns the number that the tag carries.
    pub fn duration(&self) -> (n: u64)
        ensures
            n == self@,
    {
        self.duration
    }

    /// Returns the protocol compatibility version that this tag requires:
    /// the lowest.
    pub fn requires_version(&self) -> (v: ProtocolVersion)
        ensures
            v == ProtocolVersion::V1,
    {
        ProtocolVersion::V1
    }

    /// Reads the line `v` as this tag.
    pub fn parse_in(v: &Vec<char>) -> (r: Result<ExtXTargetDuration, Error>)
        ensures
            viewed(r) == Self::spec_parse(v@),
    {
        match number_tag_in(v, Self::PREFIX) {
            Ok(n) => Ok(ExtXTargetDuration { duration: n }),
            Err(e) => Err(e),
        }
    }

    /// Reads a line as this tag.
    pub fn parse(input: &str) -> (r: Result<ExtXTargetDuration, Error>)
        ensures
            viewed(r) == Self::spec_parse(input@),
    {
        let v = to_chars(input);
        Self::parse_in(&v)
    }

    /// Appends the text of the tag to `out`.
    pub fn push_text(&self, out: &mut Vec<char>)
        ensures
            final(out)@ == old(out)@ + Self::spec_text(self@),
    {
        push_number_tag(out, Self::PREFIX, self.duration);
    }

    /// Returns the text of the tag.
    pub fn to_string(&self) -> (s: String)
        ensures
            s@ == Self::spec_text(self@),
    {
        let mut out: Vec<char> = Vec::new();
        self.push_text(&mut out);
        string_of(&out)
    }

    /// Reading the text of the tag gives its number back.
    pub proof fn lemma_round_trip(n: u64)
        ensures
            Self::spec_parse(Self::spec_text(n)) == Ok::<u64, ErrorView>(n),
    {
        lemma_number_tag_round_trip(Self::PREFIX@, n);
    }
}

impl std::str::FromStr for ExtXTargetDuration {
    type Err = Error;

    fn from_str(input: &str) -> (r: Result<ExtXTargetDuration, Error>)
        ensures
            viewed(r) == ExtXTargetDuration::spec_parse(input@),
    {
        ExtXTargetDuration::parse(input)
    }
}

} // verus!

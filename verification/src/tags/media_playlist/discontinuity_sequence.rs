//! The tag that numbers the first discontinuity of a media playlist.
use vstd::prelude::*;
use crate::error::{Error, ErrorView};
use crate::text::{string_of, to_chars};
use crate::types::ProtocolVersion;
use crate::utils::{
    decimal_digits, lemma_number_tag_round_trip, number_tag_in, push_number_tag, spec_number_tag,
    spec_value_text, viewed,
};

verus! {

/// The tag `#EXT-X-DISCONTINUITY-SEQUENCE:<n>`: the discontinuity sequence number
/// of the first segment of the playlist.
#[derive(Debug, Clone, Copy, PartialEq, Eq, Hash)]
pub struct ExtXDiscontinuitySequence {
    seq_num: u64,
}

impl View for ExtXDiscontinuitySequence {
    type V = u64;

    /// The number that the tag carries.
    closed spec fn view(&self) -> u64 {
        self.seq_num
    }
}

impl ExtXDiscontinuitySequence {
    /// The text that a line of this tag begins with.
    pub const PREFIX: &'static str = "#EXT-X-DISCONTINUITY-SEQUENCE";

    /// The text of the tag that carries `n`: the prefix, a `:` and the
    /// decimal digits of `n`.
    pub open spec fn spec_text(n: u64) -> Seq<char> {
        spec_value_text(Self::PREFIX@, decimal_digits(n as nat))
    }

    /// What a line gives when read as this tag: the number after the
    /// prefix and the `:`, or the error of the first of these steps that
    /// fails.
    pub open spec fn spec_parse(input: Seq<char>) -> Result<u64, ErrorView> {
        spec_number_tag(input, Self::PREFIX@)
    }

    /// Makes the tag that carries `seq_num`.
    pub fn new(seq_num: u64) -> (t: ExtXDiscontinuitySequence)
        ensures
            t@ == seq_num,
    {
        ExtXDiscontinuitySequence { seq_num }
    }

    /// Returns the number that the tag carries.
    pub fn seq_num(&self) -> (n: u64)
        ensures
            n == self@,
    {
        self.seq_num
    }

    /// Returns the protocol compatibility version that this tag requires:
    /// the lowest.
    pub fn requires_version(&self) -> (v: ProtocolVersion)
        ensures
            v == ProtocolVersion::V1,
    {
        ProtocolVersion::V1
    }

    /// Reads the line `v` as this tag.
    pub fn parse_in(v: &Vec<char>) -> (r: Result<ExtXDiscontinuitySequence, Error>)
        ensures
            viewed(r) == Self::spec_parse(v@),
    {
        match number_tag_in(v, Self::PREFIX) {
            Ok(n) => Ok(ExtXDiscontinuitySequence { seq_num: n }),
            Err(e) => Err(e),
        }
    }

    /// Reads a line as this tag.
    pub fn parse(input: &str) -> (r: Result<ExtXDiscontinuitySequence, Error>)
        ensures
            viewed(r) == Self::spec_parse(input@),
    {
        let v = to_chars(input);
        Self::parse_in(&v)
    }

    /// Appends the text of the tag to `out`.
    pub fn push_text(&self, out: &mut Vec<char>)
        ensures
            final(out)@ == old(out)@ + Self::spec_text(self@),
    {
        push_number_tag(out, Self::PREFIX, self.seq_num);
    }

    /// Returns the text of the tag.
    pub fn to_string(&self) -> (s: String)
        ensures
            s@ == Self::spec_text(self@),
    {
        let mut out: Vec<char> = Vec::new();
        self.push_text(&mut out);
        string_of(&out)
    }

    /// Reading the text of the tag gives its number back.
    pub proof fn lemma_round_trip(n: u64)
        ensures
            Self::spec_parse(Self::spec_text(n)) == Ok::<u64, ErrorView>(n),
    {
        lemma_number_tag_round_trip(Self::PREFIX@, n);
    }
}

impl std::str::FromStr for ExtXDiscontinuitySequence {
    type Err = Error;

    fn from_str(input: &str) -> (r: Result<ExtXDiscontinuitySequence, Error>)
        ensures
            viewed(r) == ExtXDiscontinuitySequence::spec_parse(input@),
    {
        ExtXDiscontinuitySequence::parse(input)
    }
}

} // verus!

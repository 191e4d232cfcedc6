//! The tag that marks a playlist of I-frames.
use vstd::prelude::*;
use crate::error::{Error, ErrorView};
use crate::text::{push_str, string_of, to_chars};
use crate::types::ProtocolVersion;
use crate::utils::{bare_tag_in, lemma_bare_tag_of_text, spec_bare_tag};

verus! {

/// The tag `#EXT-X-I-FRAMES-ONLY`: each segment of the playlist
/// describes a single I-frame. It carries no value; its
/// whole text is its prefix.
#[derive(Debug, Clone, Copy, PartialEq, Eq, Structural, Hash)]
pub struct ExtXIFramesOnly;

impl ExtXIFramesOnly {
    /// The text that a line of this tag begins with.
    pub const PREFIX: &'static str = "#EXT-X-I-FRAMES-ONLY";

    /// The text of the tag: its prefix.
    pub open spec fn spec_text() -> Seq<char> {
        Self::PREFIX@
    }

    /// What a line gives when read as this tag: the tag where the line is
    /// exactly the prefix; an `UnmatchedPrefix` error where it does not
    /// begin with the prefix; and an `InvalidInput` error that carries
    /// the trailing text where anything follows the prefix.
    pub open spec fn spec_parse(input: Seq<char>) -> Result<(), ErrorView> {
        spec_bare_tag(input, Self::PREFIX@)
    }

    /// The version that the tag requires.
    pub open spec fn spec_requires_version() -> ProtocolVersion {
        ProtocolVersion::V4
    }

    /// Returns the protocol compatibility version that this tag requires:
    /// the fourth, which brought the tag in.
    pub fn requires_version(self) -> (v: ProtocolVersion)
        ensures
            v == Self::spec_requires_version(),
    {
        ProtocolVersion::V4
    }

    /// Reads the line `v` as this tag.
    pub fn parse_in(v: &Vec<char>) -> (r: Result<ExtXIFramesOnly, Error>)
        ensures
            r is Ok <==> Self::spec_parse(v@) is Ok,
            r matches Err(e) ==> Self::spec_parse(v@) == Err::<(), ErrorView>(e@),
    {
        match bare_tag_in(v, Self::PREFIX) {
            Ok(_) => Ok(ExtXIFramesOnly),
            Err(e) => Err(e),
        }
    }

    /// Reads a line as this tag.
    pub fn parse(input: &str) -> (r: Result<ExtXIFramesOnly, Error>)
        ensures
            r is Ok <==> Self::spec_parse(input@) is Ok,
            r matches Err(e) ==> Self::spec_parse(input@) == Err::<(), ErrorView>(e@),
    {
        let v = to_chars(input);
        Self::parse_in(&v)
    }

    /// Appends the text of the tag to `out`.
    pub fn push_text(self, out: &mut Vec<char>)
        ensures
            final(out)@ == old(out)@ + Self::spec_text(),
    {
        push_str(out, Self::PREFIX);
    }

    /// Returns the text of the tag.
    pub fn to_string(&self) -> (s: String)
        ensures
            s@ == Self::spec_text(),
    {
        let mut out: Vec<char> = Vec::new();
        self.push_text(&mut out);
        string_of(&out)
    }

    /// Reading the text of the tag gives the tag back.
    pub proof fn lemma_round_trip()
        ensures
            Self::spec_parse(Self::spec_text()) == Ok::<(), ErrorView>(()),
    {
        lemma_bare_tag_of_text(Self::PREFIX@);
    }
}

impl std::str::FromStr for ExtXIFramesOnly {
    type Err = Error;

    fn from_str(input: &str) -> (r: Result<ExtXIFramesOnly, Error>)
        ensures
            r is Ok <==> ExtXIFramesOnly::spec_parse(input@) is Ok,
            r matches Err(e) ==> ExtXIFramesOnly::spec_parse(input@) == Err::<(), ErrorView>(e@),
    {
        ExtXIFramesOnly::parse(input)
    }
}

} // verus!

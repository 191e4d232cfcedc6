//! The tags of a playlist, and the table by which a line finds its tag.
pub mod basic;
pub mod media_playlist;
pub mod media_segment;
pub mod shared;

use vstd::prelude::*;
use crate::error::{invalid, Cause, Error, ErrorView};
use crate::text::{starts_with_at, string_of, to_chars};
use crate::types::ProtocolVersion;
use crate::utils::viewed;
use basic::ExtXVersion;
use media_playlist::{
    ExtXDiscontinuitySequence, ExtXEndList, ExtXIFramesOnly, ExtXMediaSequence,
    ExtXTargetDuration,
};
use media_segment::inf::inf_wf;
use media_segment::key::key_wf;
use media_segment::{ExtInf, ExtInfView, ExtXDiscontinuity, ExtXKey, ExtXKeyView};
use shared::start::start_wf;
use shared::{ExtXStart, ExtXStartView};

verus! {

/// The kinds of tag that this crate knows, one for each prefix.
#[derive(Debug, Clone, Copy, PartialEq, Eq, Structural, Hash)]
pub enum TagKind {
    /// `#EXT-X-VERSION`: the declaration of the protocol version.
    Version,
    /// `#EXT-X-TARGETDURATION`: the longest duration of a segment.
    TargetDuration,
    /// `#EXT-X-MEDIA-SEQUENCE`: the number of the first segment.
    MediaSequence,
    /// `#EXT-X-DISCONTINUITY-SEQUENCE`: the number of the first
    /// discontinuity.
    DiscontinuitySequence,
    /// `#EXT-X-DISCONTINUITY`: a break between two segments.
    Discontinuity,
    /// `#EXT-X-ENDLIST`: the end of the playlist.
    EndList,
    /// `#EXT-X-I-FRAMES-ONLY`: each segment is a single I-frame.
    IFramesOnly,
    /// `#EXT-X-START`: where playback should start.
    Start,
    /// `#EXTINF`: the duration and the title of a segment.
    Inf,
    /// `#EXT-X-KEY`: how segments are encrypted.
    Key,
}

/// A tag: one line of a playlist that begins with a known prefix.
#[derive(Debug, PartialEq, Eq)]
pub enum Tag {
    /// The declaration of the protocol version.
    Version(ExtXVersion),
    /// The longest duration of a segment.
    TargetDuration(ExtXTargetDuration),
    /// The number of the first segment.
    MediaSequence(ExtXMediaSequence),
    /// The number of the first discontinuity.
    DiscontinuitySequence(ExtXDiscontinuitySequence),
    /// A break between two segments.
    Discontinuity(ExtXDiscontinuity),
    /// The end of the playlist.
    EndList(ExtXEndList),
    /// The mark of a playlist of I-frames.
    IFramesOnly(ExtXIFramesOnly),
    /// The place where playback should start.
    Start(ExtXStart),
    /// The duration and the title of a segment.
    Inf(ExtInf),
    /// The way in which segments are encrypted.
    Key(ExtXKey),
}

/// The mathematical value of a [`Tag`]: for each kind, what a tag of that
/// kind carries.
pub enum TagView {
    Version(ProtocolVersion),
    TargetDuration(u64),
    MediaSequence(u64),
    DiscontinuitySequence(u64),
    Discontinuity,
    EndList,
    IFramesOnly,
    Start(ExtXStartView),
    Inf(ExtInfView),
    Key(ExtXKeyView),
}

impl View for Tag {
    type V = TagView;

    open spec fn view(&self) -> TagView {
        match self {
            Tag::Version(t) => TagView::Version(t@),
            Tag::TargetDuration(t) => TagView::TargetDuration(t@),
            Tag::MediaSequence(t) => TagView::MediaSequence(t@),
            Tag::DiscontinuitySequence(t) => TagView::DiscontinuitySequence(t@),
            Tag::Discontinuity(_) => TagView::Discontinuity,
            Tag::EndList(_) => TagView::EndList,
            Tag::IFramesOnly(_) => TagView::IFramesOnly,
            Tag::Start(t) => TagView::Start(t@),
            Tag::Inf(t) => TagView::Inf(t@),
            Tag::Key(t) => TagView::Key(t@),
        }
    }
}

impl TagKind {
    /// The text that a line of this kind begins with.
    pub open spec fn spec_prefix(self) -> Seq<char> {
        match self {
            TagKind::Version => ExtXVersion::PREFIX@,
            TagKind::TargetDuration => ExtXTargetDuration::PREFIX@,
            TagKind::MediaSequence => ExtXMediaSequence::PREFIX@,
            TagKind::DiscontinuitySequence => ExtXDiscontinuitySequence::PREFIX@,
            TagKind::Discontinuity => ExtXDiscontinuity::PREFIX@,
            TagKind::EndList => ExtXEndList::PREFIX@,
            TagKind::IFramesOnly => ExtXIFramesOnly::PREFIX@,
            TagKind::Start => ExtXStart::PREFIX@,
            TagKind::Inf => ExtInf::PREFIX@,
            TagKind::Key => ExtXKey::PREFIX@,
        }
    }

    /// Whether a playlist may hold at most one tag of this kind.
    pub open spec fn spec_is_once_only(self) -> bool {
        match self {
            TagKind::Version => true,
            TagKind::TargetDuration => true,
            TagKind::MediaSequence => true,
            TagKind::DiscontinuitySequence => true,
            TagKind::EndList => true,
            TagKind::IFramesOnly => true,
            TagKind::Start => true,
            TagKind::Discontinuity => false,
            TagKind::Inf => false,
            TagKind::Key => false,
        }
    }

    /// Returns the text that a line of this kind begins with.
    pub fn prefix(self) -> (p: &'static str)
        ensures
            p@ == self.spec_prefix(),
    {
        match self {
            TagKind::Version => ExtXVersion::PREFIX,
            TagKind::TargetDuration => ExtXTargetDuration::PREFIX,
            TagKind::MediaSequence => ExtXMediaSequence::PREFIX,
            TagKind::DiscontinuitySequence => ExtXDiscontinuitySequence::PREFIX,
            TagKind::Discontinuity => ExtXDiscontinuity::PREFIX,
            TagKind::EndList => ExtXEndList::PREFIX,
            TagKind::IFramesOnly => ExtXIFramesOnly::PREFIX,
            TagKind::Start => ExtXStart::PREFIX,
            TagKind::Inf => ExtInf::PREFIX,
            TagKind::Key => ExtXKey::PREFIX,
        }
    }

    /// Returns whether a playlist may hold at most one tag of this kind.
    #[verifier::when_used_as_spec(spec_is_once_only)]
    pub fn is_once_only(self) -> (b: bool)
        ensures
            b == self.spec_is_once_only(),
    {
        match self {
            TagKind::Version => true,
            TagKind::TargetDuration => true,
            TagKind::MediaSequence => true,
            TagKind::DiscontinuitySequence => true,
            TagKind::EndList => true,
            TagKind::IFramesOnly => true,
            TagKind::Start => true,
            TagKind::Discontinuity => false,
            TagKind::Inf => false,
            TagKind::Key => false,
        }
    }
}

/// The number of kinds in the registry.
pub const REGISTRY_LEN: usize = 10;

/// The registry: every kind of tag, in the order in which a line is
/// tried against their prefixes. A longer prefix stands before a shorter
/// one, so that of two prefixes that both match a line the longer is
/// found first.
pub open spec fn registry() -> Seq<TagKind> {
    seq![
        TagKind::DiscontinuitySequence,
        TagKind::TargetDuration,
        TagKind::MediaSequence,
        TagKind::Discontinuity,
        TagKind::IFramesOnly,
        TagKind::Version,
        TagKind::EndList,
        TagKind::Start,
        TagKind::Key,
        TagKind::Inf,
    ]
}

/// Returns the kind at `index` of the registry.
pub(crate) fn registry_entry(index: usize) -> (kind: TagKind)
    requires
        index < REGISTRY_LEN,
    ensures
        kind == registry()[index as int],
{
    if index == 0 {
        TagKind::DiscontinuitySequence
    } else if index == 1 {
        TagKind::TargetDuration
    } else if index == 2 {
        TagKind::MediaSequence
    } else if index == 3 {
        TagKind::Discontinuity
    } else if index == 4 {
        TagKind::IFramesOnly
    } else if index == 5 {
        TagKind::Version
    } else if index == 6 {
        TagKind::EndList
    } else if index == 7 {
        TagKind::Start
    } else if index == 8 {
        TagKind::Key
    } else {
        TagKind::Inf
    }
}

/// Whether `line` begins with the prefix of `kind`.
pub open spec fn matches_kind(line: Seq<char>, kind: TagKind) -> bool {
    kind.spec_prefix().is_prefix_of(line)
}

/// The first kind of the registry, from index `from` on, whose prefix
/// `line` begins with.
pub open spec fn first_match(line: Seq<char>, from: nat) -> Option<TagKind>
    decreases registry().len() - from,
{
    if from >= registry().len() {
        None
    } else if matches_kind(line, registry()[from as int]) {
        Some(registry()[from as int])
    } else {
        first_match(line, from + 1)
    }
}

/// The kind of tag that a line is: the first of the registry whose
/// prefix the line begins with, if there is one.
pub open spec fn spec_identify(line: Seq<char>) -> Option<TagKind> {
    first_match(line, 0)
}

/// Finds the kind of tag that the line `v` is.
pub fn identify_in(v: &Vec<char>) -> (r: Option<TagKind>)
    ensures
        r == spec_identify(v@),
{
    let mut i: usize = 0;
    while i < REGISTRY_LEN
        invariant
            i <= REGISTRY_LEN,
            registry().len() == REGISTRY_LEN,
            spec_identify(v@) == first_match(v@, i as nat),
        decreases REGISTRY_LEN - i,
    {
        let kind = registry_entry(i);
        let p = to_chars(kind.prefix());
        if starts_with_at(v, 0, &p) {
            return Some(kind);
        }
        i += 1;
    }
    None
}

/// Finds the kind of tag that a line is.
///
/// The prefixes are tried in the order of the registry, and the first
/// that the line begins with decides. Where two prefixes match, that is
/// the longer of them.
pub fn identify(line: &str) -> (r: Option<TagKind>)
    ensures
        r == spec_identify(line@),
{
    let v = to_chars(line);
    identify_in(&v)
}

/// The lengths of the prefixes, and the characters by which they differ.
proof fn lemma_prefixes()
    ensures
        TagKind::DiscontinuitySequence.spec_prefix().len() == 29,
        TagKind::TargetDuration.spec_prefix().len() == 21,
        TagKind::MediaSequence.spec_prefix().len() == 21,
        TagKind::Discontinuity.spec_prefix().len() == 20,
        TagKind::IFramesOnly.spec_prefix().len() == 20,
        TagKind::Version.spec_prefix().len() == 14,
        TagKind::EndList.spec_prefix().len() == 14,
        TagKind::Start.spec_prefix().len() == 12,
        TagKind::Key.spec_prefix().len() == 10,
        TagKind::Inf.spec_prefix().len() == 7,
        TagKind::DiscontinuitySequence.spec_prefix()[7] == 'D',
        TagKind::TargetDuration.spec_prefix()[7] == 'T',
        TagKind::MediaSequence.spec_prefix()[7] == 'M',
        TagKind::Discontinuity.spec_prefix()[7] == 'D',
        TagKind::IFramesOnly.spec_prefix()[7] == 'I',
        TagKind::Version.spec_prefix()[7] == 'V',
        TagKind::EndList.spec_prefix()[7] == 'E',
        TagKind::Start.spec_prefix()[7] == 'S',
        TagKind::Key.spec_prefix()[7] == 'K',
        TagKind::Inf.spec_prefix()[4] == 'I',
        forall|kind: TagKind| kind != TagKind::Inf ==> (#[trigger] kind.spec_prefix())[4] == '-',
        registry().len() == 10,
{
    reveal_strlit("#EXT-X-DISCONTINUITY-SEQUENCE");
    reveal_strlit("#EXT-X-TARGETDURATION");
    reveal_strlit("#EXT-X-MEDIA-SEQUENCE");
    reveal_strlit("#EXT-X-DISCONTINUITY");
    reveal_strlit("#EXT-X-I-FRAMES-ONLY");
    reveal_strlit("#EXT-X-VERSION");
    reveal_strlit("#EXT-X-ENDLIST");
    reveal_strlit("#EXT-X-START");
    reveal_strlit("#EXT-X-KEY");
    reveal_strlit("#EXTINF");
}

/// Every kind stands in the registry, and the prefixes of the registry
/// never grow longer from one entry to the next.
proof fn lemma_registry()
    ensures
        forall|kind: TagKind| #[trigger] registry().contains(kind),
        forall|i: int, j: int|
            0 <= i <= j < registry().len() ==> (#[trigger] registry()[i]).spec_prefix().len() >= (
            #[trigger] registry()[j]).spec_prefix().len(),
{
    lemma_prefixes();
    let r = registry();
    assert forall|kind: TagKind| #[trigger] r.contains(kind) by {
        match kind {
            TagKind::DiscontinuitySequence => assert(r[0] == kind),
            TagKind::TargetDuration => assert(r[1] == kind),
            TagKind::MediaSequence => assert(r[2] == kind),
            TagKind::Discontinuity => assert(r[3] == kind),
            TagKind::IFramesOnly => assert(r[4] == kind),
            TagKind::Version => assert(r[5] == kind),
            TagKind::EndList => assert(r[6] == kind),
            TagKind::Start => assert(r[7] == kind),
            TagKind::Key => assert(r[8] == kind),
            TagKind::Inf => assert(r[9] == kind),
        }
    }
}

/// Whether `line` begins with the prefix of none of the entries of the
/// registry from index `from` up to, and without, index `to`.
pub open spec fn none_matches(line: Seq<char>, from: int, to: int) -> bool {
    forall|i: int| from <= i < to && 0 <= i < registry().len() ==> !matches_kind(
        line,
        #[trigger] registry()[i],
    )
}

/// What `first_match` finds from an index on: the entry at the returned
/// index, which matches and before which none matches; or nothing, where
/// no entry from the index on matches.
proof fn lemma_first_match(line: Seq<char>, from: nat) -> (j: int)
    ensures
        from <= j,
        none_matches(line, from as int, j),
        match first_match(line, from) {
            Some(kind) => j < registry().len() && registry()[j] == kind && matches_kind(line, kind),
            None => j >= registry().len(),
        },
    decreases registry().len() - from,
{
    if from < registry().len() && !matches_kind(line, registry()[from as int]) {
        lemma_first_match(line, from + 1)
    } else {
        from as int
    }
}

/// A line is identified as the kind with the longest prefix that it
/// begins with, and as nothing only where it begins with no prefix.
pub proof fn lemma_identify_longest(line: Seq<char>)
    ensures
        match spec_identify(line) {
            Some(kind) => matches_kind(line, kind) && forall|other: TagKind|
                matches_kind(line, other) ==> (#[trigger] other.spec_prefix()).len()
                    <= kind.spec_prefix().len(),
            None => forall|other: TagKind| !#[trigger] matches_kind(line, other),
        },
{
    let j = lemma_first_match(line, 0);
    lemma_registry();
    match spec_identify(line) {
        Some(kind) => {
            assert forall|other: TagKind| matches_kind(line, other) implies (
            #[trigger] other.spec_prefix()).len() <= kind.spec_prefix().len() by {
                assert(registry().contains(other));
                let m = choose|m: int| 0 <= m < registry().len() && registry()[m] == other;
                if m < j {
                    assert(!matches_kind(line, registry()[m]));
                }
            }
        },
        None => {
            assert forall|other: TagKind| !#[trigger] matches_kind(line, other) by {
                assert(registry().contains(other));
                let m = choose|m: int| 0 <= m < registry().len() && registry()[m] == other;
                assert(!matches_kind(line, registry()[m]));
            }
        },
    }
}

/// Whether `t` is the value of a tag that can be made: a start tag and a
/// segment tag have fewer nanoseconds than a second, a segment tag has a
/// title of a single line, a key tag has the attributes that its method
/// allows, and every other value is one.
pub open spec fn tag_wf(t: TagView) -> bool {
    match t {
        TagView::Start(v) => start_wf(v),
        TagView::Inf(v) => inf_wf(v),
        TagView::Key(k) => key_wf(k),
        _ => true,
    }
}

/// The kind of a tag.
pub open spec fn spec_kind(t: TagView) -> TagKind {
    match t {
        TagView::Version(_) => TagKind::Version,
        TagView::TargetDuration(_) => TagKind::TargetDuration,
        TagView::MediaSequence(_) => TagKind::MediaSequence,
        TagView::DiscontinuitySequence(_) => TagKind::DiscontinuitySequence,
        TagView::Discontinuity => TagKind::Discontinuity,
        TagView::EndList => TagKind::EndList,
        TagView::IFramesOnly => TagKind::IFramesOnly,
        TagView::Start(_) => TagKind::Start,
        TagView::Inf(_) => TagKind::Inf,
        TagView::Key(_) => TagKind::Key,
    }
}

/// The text of a tag, as it stands on a line of a playlist.
pub open spec fn spec_tag_text(t: TagView) -> Seq<char> {
    match t {
        TagView::Version(v) => ExtXVersion::spec_text(v),
        TagView::TargetDuration(n) => ExtXTargetDuration::spec_text(n),
        TagView::MediaSequence(n) => ExtXMediaSequence::spec_text(n),
        TagView::DiscontinuitySequence(n) => ExtXDiscontinuitySequence::spec_text(n),
        TagView::Discontinuity => ExtXDiscontinuity::spec_text(),
        TagView::EndList => ExtXEndList::spec_text(),
        TagView::IFramesOnly => ExtXIFramesOnly::spec_text(),
        TagView::Start(v) => ExtXStart::spec_text(v),
        TagView::Inf(v) => ExtInf::spec_text(v),
        TagView::Key(k) => ExtXKey::spec_text(k),
    }
}

/// The lowest protocol version with which a tag can be used.
pub open spec fn spec_tag_version(t: TagView) -> ProtocolVersion {
    match t {
        TagView::Version(_) => ProtocolVersion::V1,
        TagView::TargetDuration(_) => ProtocolVersion::V1,
        TagView::MediaSequence(_) => ProtocolVersion::V1,
        TagView::DiscontinuitySequence(_) => ProtocolVersion::V1,
        TagView::Discontinuity => ExtXDiscontinuity::spec_requires_version(),
        TagView::EndList => ExtXEndList::spec_requires_version(),
        TagView::IFramesOnly => ExtXIFramesOnly::spec_requires_version(),
        TagView::Start(_) => ExtXStart::spec_requires_version(),
        TagView::Inf(v) => ExtInf::spec_requires_version(v),
        TagView::Key(k) => ExtXKey::spec_requires_version(k),
    }
}

/// What a line gives when read as a tag of the given kind.
pub open spec fn spec_parse_as(kind: TagKind, line: Seq<char>) -> Result<TagView, ErrorView> {
    match kind {
        TagKind::Version => match ExtXVersion::spec_parse(line) {
            Ok(v) => Ok(TagView::Version(v)),
            Err(e) => Err(e),
        },
        TagKind::TargetDuration => match ExtXTargetDuration::spec_parse(line) {
            Ok(n) => Ok(TagView::TargetDuration(n)),
            Err(e) => Err(e),
        },
        TagKind::MediaSequence => match ExtXMediaSequence::spec_parse(line) {
            Ok(n) => Ok(TagView::MediaSequence(n)),
            Err(e) => Err(e),
        },
        TagKind::DiscontinuitySequence => match ExtXDiscontinuitySequence::spec_parse(line) {
            Ok(n) => Ok(TagView::DiscontinuitySequence(n)),
            Err(e) => Err(e),
        },
        TagKind::Discontinuity => match ExtXDiscontinuity::spec_parse(line) {
            Ok(_) => Ok(TagView::Discontinuity),
            Err(e) => Err(e),
        },
        TagKind::EndList => match ExtXEndList::spec_parse(line) {
            Ok(_) => Ok(TagView::EndList),
            Err(e) => Err(e),
        },
        TagKind::IFramesOnly => match ExtXIFramesOnly::spec_parse(line) {
            Ok(_) => Ok(TagView::IFramesOnly),
            Err(e) => Err(e),
        },
        TagKind::Start => match ExtXStart::spec_parse(line) {
            Ok(v) => Ok(TagView::Start(v)),
            Err(e) => Err(e),
        },
        TagKind::Inf => match ExtInf::spec_parse(line) {
            Ok(v) => Ok(TagView::Inf(v)),
            Err(e) => Err(e),
        },
        TagKind::Key => match ExtXKey::spec_parse(line) {
            Ok(k) => Ok(TagView::Key(k)),
            Err(e) => Err(e),
        },
    }
}

/// What a line means as a tag. The line is read as the kind that it is
/// identified as; a line that begins with no known prefix is refused,
/// with the line as context.
pub open spec fn spec_parse_tag(line: Seq<char>) -> Result<TagView, ErrorView> {
    match spec_identify(line) {
        Some(kind) => spec_parse_as(kind, line),
        None => Err(invalid(line, Cause::UnknownTag)),
    }
}

impl Tag {
    /// Returns the kind of the tag.
    pub fn kind(&self) -> (kind: TagKind)
        ensures
            kind == spec_kind(self@),
            tag_wf(self@),
    {
        match self {
            Tag::Version(_) => TagKind::Version,
            Tag::TargetDuration(_) => TagKind::TargetDuration,
            Tag::MediaSequence(_) => TagKind::MediaSequence,
            Tag::DiscontinuitySequence(_) => TagKind::DiscontinuitySequence,
            Tag::Discontinuity(_) => TagKind::Discontinuity,
            Tag::EndList(_) => TagKind::EndList,
            Tag::IFramesOnly(_) => TagKind::IFramesOnly,
            Tag::Start(t) => {
                proof {
                    use_type_invariant(t);
                }
                TagKind::Start
            },
            Tag::Inf(t) => {
                proof {
                    use_type_invariant(t);
                }
                TagKind::Inf
            },
            Tag::Key(t) => {
                proof {
                    use_type_invariant(t);
                }
                TagKind::Key
            },
        }
    }

    /// Returns the lowest protocol compatibility version with which the
    /// tag can be used.
    pub fn requires_version(&self) -> (v: ProtocolVersion)
        ensures
            v == spec_tag_version(self@),
    {
        match self {
            Tag::Version(t) => t.requires_version(),
            Tag::TargetDuration(t) => t.requires_version(),
            Tag::MediaSequence(t) => t.requires_version(),
            Tag::DiscontinuitySequence(t) => t.requires_version(),
            Tag::Discontinuity(t) => t.requires_version(),
            Tag::EndList(t) => t.requires_version(),
            Tag::IFramesOnly(t) => t.requires_version(),
            Tag::Start(t) => t.requires_version(),
            Tag::Inf(t) => t.requires_version(),
            Tag::Key(t) => t.requires_version(),
        }
    }

    /// Reads the line `v` as a tag.
    pub fn parse_in(v: &Vec<char>) -> (r: Result<Tag, Error>)
        ensures
            viewed(r) == spec_parse_tag(v@),
            r matches Ok(t) ==> tag_wf(t@),
    {
        match identify_in(v) {
            None => Err(Error::invalid_input(string_of(v), Cause::UnknownTag)),
            Some(TagKind::Version) => match ExtXVersion::parse_in(v) {
                Ok(t) => Ok(Tag::Version(t)),
                Err(e) => Err(e),
            },
            Some(TagKind::TargetDuration) => match ExtXTargetDuration::parse_in(v) {
                Ok(t) => Ok(Tag::TargetDuration(t)),
                Err(e) => Err(e),
            },
            Some(TagKind::MediaSequence) => match ExtXMediaSequence::parse_in(v) {
                Ok(t) => Ok(Tag::MediaSequence(t)),
                Err(e) => Err(e),
            },
            Some(TagKind::DiscontinuitySequence) => match ExtXDiscontinuitySequence::parse_in(v) {
                Ok(t) => Ok(Tag::DiscontinuitySequence(t)),
                Err(e) => Err(e),
            },
            Some(TagKind::Discontinuity) => match ExtXDiscontinuity::parse_in(v) {
                Ok(t) => Ok(Tag::Discontinuity(t)),
                Err(e) => Err(e),
            },
            Some(TagKind::EndList) => match ExtXEndList::parse_in(v) {
                Ok(t) => Ok(Tag::EndList(t)),
                Err(e) => Err(e),
            },
            Some(TagKind::IFramesOnly) => match ExtXIFramesOnly::parse_in(v) {
                Ok(t) => Ok(Tag::IFramesOnly(t)),
                Err(e) => Err(e),
            },
            Some(TagKind::Start) => match ExtXStart::parse_in(v) {
                Ok(t) => Ok(Tag::Start(t)),
                Err(e) => Err(e),
            },
            Some(TagKind::Inf) => match ExtInf::parse_in(v) {
                Ok(t) => Ok(Tag::Inf(t)),
                Err(e) => Err(e),
            },
            Some(TagKind::Key) => match ExtXKey::parse_in(v) {
                Ok(t) => Ok(Tag::Key(t)),
                Err(e) => Err(e),
            },
        }
    }

    /// Reads one line of a playlist as a tag.
    ///
    /// The line is read as the kind of tag whose prefix it begins with,
    /// the longest where it begins with several, and the result is the
    /// tag or the error of that kind. A line that begins with no known
    /// prefix is refused as an unknown tag.
    pub fn parse(line: &str) -> (r: Result<Tag, Error>)
        ensures
            viewed(r) == spec_parse_tag(line@),
            r matches Ok(t) ==> tag_wf(t@),
    {
        let v = to_chars(line);
        Self::parse_in(&v)
    }

    /// Appends the text of the tag to `out`.
    pub fn push_text(&self, out: &mut Vec<char>)
        ensures
            final(out)@ == old(out)@ + spec_tag_text(self@),
    {
        match self {
            Tag::Version(t) => t.push_text(out),
            Tag::TargetDuration(t) => t.push_text(out),
            Tag::MediaSequence(t) => t.push_text(out),
            Tag::DiscontinuitySequence(t) => t.push_text(out),
            Tag::Discontinuity(t) => t.push_text(out),
            Tag::EndList(t) => t.push_text(out),
            Tag::IFramesOnly(t) => t.push_text(out),
            Tag::Start(t) => t.push_text(out),
            Tag::Inf(t) => t.push_text(out),
            Tag::Key(t) => t.push_text(out),
        }
    }

    /// Returns the text of the tag, as it stands on a line of a playlist.
    /// Reading that text gives the tag back.
    pub fn to_string(&self) -> (s: String)
        ensures
            s@ == spec_tag_text(self@),
            spec_parse_tag(s@) == Ok::<TagView, ErrorView>(self@),
    {
        let mut out: Vec<char> = Vec::new();
        self.push_text(&mut out);
        let _ = self.kind();
        proof {
            lemma_tag_round_trip(self@);
        }
        string_of(&out)
    }
}

/// A text does not begin with a prefix from which it differs at some
/// index of the prefix.
proof fn lemma_differs(line: Seq<char>, prefix: Seq<char>, i: int)
    requires
        0 <= i < prefix.len(),
        i >= line.len() || line[i] != prefix[i],
    ensures
        !prefix.is_prefix_of(line),
{
    if prefix.len() <= line.len() {
        assert(line.subrange(0, prefix.len() as int)[i] == line[i]);
    }
}

/// The text of a tag is identified as the kind of the tag.
pub proof fn lemma_identify_text(t: TagView)
    ensures
        spec_identify(spec_tag_text(t)) == Some(spec_kind(t)),
{
    lemma_prefixes();
    reveal_with_fuel(first_match, 11);
    let line = spec_tag_text(t);
    let kind = spec_kind(t);
    let p = kind.spec_prefix();
    assert(p.is_prefix_of(line)) by {
        assert(line.subrange(0, p.len() as int) =~= p);
    }
    assert forall|i: int| 0 <= i < p.len() implies line[i] == p[i] by {}
    assert forall|other: TagKind| other != kind && !(kind == TagKind::DiscontinuitySequence
        && other == TagKind::Discontinuity) implies !#[trigger] matches_kind(line, other) by {
        let q = other.spec_prefix();
        if kind == TagKind::Inf {
            lemma_differs(line, q, 4);
        } else if other == TagKind::Inf {
            lemma_differs(line, q, 4);
        } else if kind == TagKind::Discontinuity && other == TagKind::DiscontinuitySequence {
            lemma_differs(line, q, 20);
        } else {
            lemma_differs(line, q, 7);
        }
    }
}

/// Reading the text of a tag gives the tag back: for every tag `t` that
/// can be made, `parse(to_text(t))` is `t`.
pub proof fn lemma_tag_round_trip(t: TagView)
    requires
        tag_wf(t),
    ensures
        spec_parse_tag(spec_tag_text(t)) == Ok::<TagView, ErrorView>(t),
{
    lemma_identify_text(t);
    match t {
        TagView::Version(v) => ExtXVersion::lemma_round_trip(v),
        TagView::TargetDuration(n) => ExtXTargetDuration::lemma_round_trip(n),
        TagView::MediaSequence(n) => ExtXMediaSequence::lemma_round_trip(n),
        TagView::DiscontinuitySequence(n) => ExtXDiscontinuitySequence::lemma_round_trip(n),
        TagView::Discontinuity => ExtXDiscontinuity::lemma_round_trip(),
        TagView::EndList => ExtXEndList::lemma_round_trip(),
        TagView::IFramesOnly => ExtXIFramesOnly::lemma_round_trip(),
        TagView::Start(v) => ExtXStart::lemma_round_trip(v),
        TagView::Inf(v) => ExtInf::lemma_round_trip(v),
        TagView::Key(k) => ExtXKey::lemma_round_trip(k),
    }
}

/// What a line gives when read as a tag is the value of a tag that can
/// be made.
pub proof fn lemma_parsed_tag_is_wf(line: Seq<char>)
    ensures
        spec_parse_tag(line) matches Ok(t) ==> tag_wf(t),
{
    ExtInf::lemma_parsed_is_wf(line);
    ExtXStart::lemma_parsed_is_wf(line);
    ExtXKey::lemma_parsed_is_wf(line);
}

/// A tag that was read from a line, written and read again, is the same
/// tag: where `parse(line)` is `t`, `parse(to_text(t))` is `t` too.
pub proof fn lemma_parse_write_parse(line: Seq<char>)
    ensures
        spec_parse_tag(line) matches Ok(t) ==> spec_parse_tag(spec_tag_text(t)) == Ok::<
            TagView,
            ErrorView,
        >(t),
{
    lemma_parsed_tag_is_wf(line);
    if let Ok(t) = spec_parse_tag(line) {
        lemma_tag_round_trip(t);
    }
}

impl Clone for Tag {
    fn clone(&self) -> (t: Tag)
        ensures
            t@ == self@,
    {
        match self {
            Tag::Version(t) => Tag::Version(*t),
            Tag::TargetDuration(t) => Tag::TargetDuration(*t),
            Tag::MediaSequence(t) => Tag::MediaSequence(*t),
            Tag::DiscontinuitySequence(t) => Tag::DiscontinuitySequence(*t),
            Tag::Discontinuity(t) => Tag::Discontinuity(*t),
            Tag::EndList(t) => Tag::EndList(*t),
            Tag::IFramesOnly(t) => Tag::IFramesOnly(*t),
            Tag::Start(t) => Tag::Start(*t),
            Tag::Inf(t) => Tag::Inf(t.clone()),
            Tag::Key(t) => Tag::Key(t.clone()),
        }
    }
}

impl std::str::FromStr for Tag {
    type Err = Error;

    fn from_str(line: &str) -> (r: Result<Tag, Error>)
        ensures
            viewed(r) == spec_parse_tag(line@),
            r matches Ok(t) ==> tag_wf(t@),
    {
        Tag::parse(line)
    }
}

} // verus!

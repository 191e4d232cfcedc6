//! The tag that says where the playback of a playlist should start.
use vstd::prelude::*;
use crate::attribute::{
    attributes_wf, first_outside, lemma_attributes_round_trip, lemma_first_outside_is,
    lemma_first_outside_push, lemma_get_empty, lemma_get_push, lemma_wf_push, push_attributes,
    spec_bare_value, spec_format_attributes, spec_get, spec_parse_attributes, texts, views,
    Attribute, AttributeList, AttributeView,
};
use crate::error::{Error, ErrorView};
use crate::text::{push_str, string_of, to_chars};
use crate::types::seconds::{
    lemma_parsed_seconds_bound, lemma_seconds_round_trip, lemma_seconds_text_chars,
    spec_parse_seconds, spec_seconds_text, NANOS_PER_SECOND,
};
use crate::types::{ProtocolVersion, Seconds, SecondsView};
use crate::utils::{
    decimal_digits, is_digit, lemma_decimal_digits, lemma_tag_value_of_text, parse_yes_or_no_in,
    spec_parse_yes_or_no, spec_tag_value, spec_value_text, tag_value_in, viewed,
};

verus! {

/// The mathematical value of an [`ExtXStart`].
pub struct ExtXStartView {
    /// Whether the offset counts back from the end of the playlist.
    pub negative: bool,
    /// The size of the offset.
    pub offset: SecondsView,
    /// Whether playback starts at the offset exactly.
    pub precise: bool,
}

/// The tag `#EXT-X-START:<attributes>`: the offset from the beginning of
/// the playlist, or back from its end, at which playback should start.
#[derive(Debug, Clone, Copy, PartialEq, Eq, Hash)]
pub struct ExtXStart {
    negative: bool,
    offset: Seconds,
    precise: bool,
}

impl View for ExtXStart {
    type V = ExtXStartView;

    closed spec fn view(&self) -> ExtXStartView {
        ExtXStartView { negative: self.negative, offset: self.offset@, precise: self.precise }
    }
}

/// Whether `t` is the value of a tag that can be made: the nanoseconds
/// of its offset are fewer than a second.
pub open spec fn start_wf(t: ExtXStartView) -> bool {
    t.offset.nanos < NANOS_PER_SECOND
}

/// The name of the attribute that holds the offset.
pub open spec fn name_time_offset() -> Seq<char> {
    "TIME-OFFSET"@
}

/// The name of the attribute that tells whether the offset is exact.
pub open spec fn name_precise() -> Seq<char> {
    "PRECISE"@
}

/// The names of the attributes that the tag allows.
pub open spec fn start_names() -> Seq<Seq<char>> {
    seq![name_time_offset(), name_precise()]
}

/// The text of an offset: a `-` where it counts back, and its size in
/// seconds.
pub open spec fn spec_offset_text(negative: bool, offset: SecondsView) -> Seq<char> {
    if negative {
        seq!['-'] + spec_seconds_text(offset)
    } else {
        spec_seconds_text(offset)
    }
}

/// What the text of an offset means: after a `-`, a size that counts
/// back, and else a size that counts forward.
pub open spec fn spec_parse_offset(text: Seq<char>) -> Result<(bool, SecondsView), ErrorView> {
    if text.len() > 0 && text[0] == '-' {
        match spec_parse_seconds(text.skip(1)) {
            Ok(offset) => Ok((true, offset)),
            Err(e) => Err(e),
        }
    } else {
        match spec_parse_seconds(text) {
            Ok(offset) => Ok((false, offset)),
            Err(e) => Err(e),
        }
    }
}

/// The attributes of the tag, in the order in which they are written:
/// the offset, and `PRECISE=YES` where the offset is exact.
pub open spec fn start_attributes(t: ExtXStartView) -> Seq<AttributeView> {
    let offset = AttributeView {
        name: name_time_offset(),
        value: spec_offset_text(t.negative, t.offset),
        quoted: false,
    };
    let precise = AttributeView { name: name_precise(), value: seq!['Y', 'E', 'S'], quoted: false };
    if t.precise {
        seq![offset, precise]
    } else {
        seq![offset]
    }
}

/// What the attribute that tells whether the offset is exact, which may
/// be absent, holds: `false` where it is absent, and else what its bare
/// value means as `YES` or `NO`.
pub open spec fn spec_optional_flag(o: Option<AttributeView>) -> Result<bool, ErrorView> {
    match o {
        None => Ok(false),
        Some(a) => match spec_bare_value(a) {
            Err(e) => Err(e),
            Ok(v) => spec_parse_yes_or_no(v),
        },
    }
}

/// What a list of attributes means as the value of this tag.
///
/// The first attribute, in the order of writing, whose name the tag does
/// not know is unexpected. The offset is required and must be a bare
/// decimal number, with or without a `-` before it. Whether the offset
/// is exact is told by a bare `YES` or `NO`, and is `NO` where it is not
/// told. The offset is examined first.
pub open spec fn spec_start_from_attributes(list: Seq<AttributeView>) -> Result<
    ExtXStartView,
    ErrorView,
> {
    let unknown = first_outside(list, start_names());
    if 0 <= unknown < list.len() {
        Err(ErrorView::UnexpectedAttribute { name: list[unknown].name })
    } else {
        match spec_get(list, name_time_offset()) {
            None => Err(ErrorView::MissingAttribute { name: name_time_offset() }),
            Some(a) => match spec_bare_value(a) {
                Err(e) => Err(e),
                Ok(text) => match spec_parse_offset(text) {
                    Err(e) => Err(e),
                    Ok((negative, offset)) => match spec_optional_flag(
                        spec_get(list, name_precise()),
                    ) {
                        Err(e) => Err(e),
                        Ok(precise) => Ok(ExtXStartView { negative, offset, precise }),
                    },
                },
            },
        }
    }
}

impl ExtXStart {
    /// The text that a line of this tag begins with.
    pub const PREFIX: &'static str = "#EXT-X-START";

    /// What holds of every tag of this kind: see [`start_wf`].
    #[verifier::type_invariant]
    pub open spec fn wf(&self) -> bool {
        start_wf(self@)
    }

    /// The text of the tag: the prefix, a `:` and the attribute list.
    pub open spec fn spec_text(t: ExtXStartView) -> Seq<char> {
        spec_value_text(Self::PREFIX@, spec_format_attributes(start_attributes(t)))
    }

    /// What a line gives when read as this tag: what its attribute list
    /// means, or the error of the first step that fails.
    pub open spec fn spec_parse(input: Seq<char>) -> Result<ExtXStartView, ErrorView> {
        match spec_tag_value(input, Self::PREFIX@) {
            Err(e) => Err(e),
            Ok(value) => match spec_parse_attributes(value) {
                Err(e) => Err(e),
                Ok(list) => spec_start_from_attributes(list),
            },
        }
    }

    /// The version that the tag requires: the lowest.
    pub open spec fn spec_requires_version() -> ProtocolVersion {
        ProtocolVersion::V1
    }

    /// Makes the tag of an offset of the size `offset`, which counts back
    /// from the end of the playlist where `negative` is set, and at which
    /// playback starts exactly where `precise` is set.
    pub fn new(negative: bool, offset: Seconds, precise: bool) -> (t: ExtXStart)
        ensures
            t@ == (ExtXStartView { negative, offset: offset@, precise }),
            t.wf(),
    {
        proof {
            use_type_invariant(&offset);
        }
        ExtXStart { negative, offset, precise }
    }

    /// Returns whether the offset counts back from the end of the
    /// playlist.
    pub fn is_negative(&self) -> (b: bool)
        ensures
            b == self@.negative,
    {
        self.negative
    }

    /// Returns the size of the offset.
    pub fn offset(&self) -> (d: Seconds)
        ensures
            d@ == self@.offset,
    {
        self.offset
    }

    /// Returns whether playback starts at the offset exactly.
    pub fn is_precise(&self) -> (b: bool)
        ensures
            b == self@.precise,
    {
        self.precise
    }

    /// Returns the protocol compatibility version that this tag requires.
    pub fn requires_version(&self) -> (v: ProtocolVersion)
        ensures
            v == Self::spec_requires_version(),
    {
        ProtocolVersion::V1
    }

    /// Reads a list of attributes as the value of this tag.
    pub fn from_attributes(list: &AttributeList) -> (r: Result<ExtXStart, Error>)
        ensures
            viewed(r) == spec_start_from_attributes(list@),
            r matches Ok(t) ==> t.wf(),
    {
        let mut allowed: Vec<Vec<char>> = Vec::new();
        allowed.push(to_chars("TIME-OFFSET"));
        allowed.push(to_chars("PRECISE"));
        assert(texts(allowed@) =~= start_names());
        let unknown = list.first_outside(&allowed);
        if unknown < list.len() {
            return Err(Error::UnexpectedAttribute { name: list.item(unknown).name().clone() });
        }
        let (negative, offset) = match list.get("TIME-OFFSET") {
            None => {
                return Err(Error::MissingAttribute { name: "TIME-OFFSET".to_owned() });
            },
            Some(a) => {
                let value = a.bare_value()?;
                let chars = to_chars(value.as_str());
                if chars.len() > 0 && chars[0] == '-' {
                    (true, Seconds::parse_in(&chars, 1, chars.len())?)
                } else {
                    assert(chars@ =~= chars@.subrange(0, chars@.len() as int));
                    (false, Seconds::parse_in(&chars, 0, chars.len())?)
                }
            },
        };
        let precise = match list.get("PRECISE") {
            None => false,
            Some(a) => {
                let value = a.bare_value()?;
                let chars = to_chars(value.as_str());
                assert(chars@ =~= chars@.subrange(0, chars@.len() as int));
                parse_yes_or_no_in(&chars, 0, chars.len())?
            },
        };
        proof {
            use_type_invariant(&offset);
        }
        Ok(ExtXStart { negative, offset, precise })
    }

    /// Reads the line `v` as this tag.
    pub fn parse_in(v: &Vec<char>) -> (r: Result<ExtXStart, Error>)
        ensures
            viewed(r) == Self::spec_parse(v@),
            r matches Ok(t) ==> t.wf(),
    {
        let at = tag_value_in(v, Self::PREFIX)?;
        let list = AttributeList::parse_in(v, at, v.len())?;
        Self::from_attributes(&list)
    }

    /// Reads a line as this tag.
    pub fn parse(input: &str) -> (r: Result<ExtXStart, Error>)
        ensures
            viewed(r) == Self::spec_parse(input@),
            r matches Ok(t) ==> t.wf(),
    {
        let v = to_chars(input);
        Self::parse_in(&v)
    }

    /// Appends the text of the tag to `out`.
    pub fn push_text(&self, out: &mut Vec<char>)
        ensures
            final(out)@ == old(out)@ + Self::spec_text(self@),
    {
        let mut offset: Vec<char> = Vec::new();
        if self.negative {
            offset.push('-');
        }
        self.offset.push_text(&mut offset);
        let mut items: Vec<Attribute> = Vec::new();
        items.push(Attribute::new("TIME-OFFSET".to_owned(), string_of(&offset), false));
        if self.precise {
            proof {
                reveal_strlit("YES");
            }
            assert("YES"@ =~= seq!['Y', 'E', 'S']);
            items.push(Attribute::new("PRECISE".to_owned(), "YES".to_owned(), false));
        }
        assert(views(items@) =~= start_attributes(self@));
        push_str(out, Self::PREFIX);
        out.push(':');
        push_attributes(out, &items);
    }

    /// Returns the text of the tag.
    pub fn to_string(&self) -> (s: String)
        ensures
            s@ == Self::spec_text(self@),
    {
        let mut out: Vec<char> = Vec::new();
        self.push_text(&mut out);
        string_of(&out)
    }

    /// What a line gives when read as this tag is the value of a tag that
    /// can be made.
    pub proof fn lemma_parsed_is_wf(input: Seq<char>)
        ensures
            Self::spec_parse(input) matches Ok(t) ==> start_wf(t),
    {
        if let Ok(value) = spec_tag_value(input, Self::PREFIX@) {
            if let Ok(list) = spec_parse_attributes(value) {
                if let Some(a) = spec_get(list, name_time_offset()) {
                    lemma_parsed_seconds_bound(a.value);
                    lemma_parsed_seconds_bound(a.value.skip(1));
                }
            }
        }
    }

    /// Reading the text of the tag gives its value back.
    pub proof fn lemma_round_trip(t: ExtXStartView)
        requires
            start_wf(t),
        ensures
            Self::spec_parse(Self::spec_text(t)) == Ok::<ExtXStartView, ErrorView>(t),
    {
        let list = start_attributes(t);
        lemma_start_attributes(t);
        lemma_tag_value_of_text(Self::PREFIX@, spec_format_attributes(list));
        lemma_attributes_round_trip(list);
    }
}

/// The text of an offset reads back as the offset, and holds no
/// character that would end a bare token.
proof fn lemma_offset_round_trip(negative: bool, offset: SecondsView)
    requires
        offset.nanos < NANOS_PER_SECOND,
    ensures
        spec_parse_offset(spec_offset_text(negative, offset)) == Ok::<
            (bool, SecondsView),
            ErrorView,
        >((negative, offset)),
        forall|i: int|
            0 <= i < spec_offset_text(negative, offset).len() ==> {
                let c = #[trigger] spec_offset_text(negative, offset)[i];
                c != ',' && c != '"'
            },
{
    let size = spec_seconds_text(offset);
    let text = spec_offset_text(negative, offset);
    lemma_seconds_round_trip(offset);
    lemma_seconds_text_chars(offset);
    lemma_decimal_digits(offset.whole as nat);
    assert(size.len() > 0 && is_digit(size[0])) by {
        let w = decimal_digits(offset.whole as nat);
        assert(size[0] == w[0]);
    }
    if negative {
        assert(text.skip(1) =~= size);
    }
    assert forall|i: int| 0 <= i < text.len() implies {
        let c = #[trigger] text[i];
        c != ',' && c != '"'
    } by {
        if negative && i > 0 {
            assert(text[i] == size[i - 1]);
        }
    }
}

/// The attributes of the tag can be written and read back, and mean the
/// tag.
proof fn lemma_start_attributes(t: ExtXStartView)
    requires
        start_wf(t),
    ensures
        attributes_wf(start_attributes(t)),
        spec_start_from_attributes(start_attributes(t)) == Ok::<ExtXStartView, ErrorView>(t),
{
    reveal_strlit("TIME-OFFSET");
    reveal_strlit("PRECISE");
    lemma_offset_round_trip(t.negative, t.offset);
    let names = start_names();
    let offset = AttributeView {
        name: name_time_offset(),
        value: spec_offset_text(t.negative, t.offset),
        quoted: false,
    };
    let precise = AttributeView { name: name_precise(), value: seq!['Y', 'E', 'S'], quoted: false };
    let empty = Seq::<AttributeView>::empty();
    let l0 = seq![offset];
    lemma_get_empty(name_time_offset());
    lemma_get_empty(name_precise());
    lemma_wf_push(empty, offset);
    lemma_first_outside_push(empty, offset, names);
    lemma_get_push(empty, offset, name_time_offset());
    lemma_get_push(empty, offset, name_precise());
    let list = start_attributes(t);
    if t.precise {
        assert(list =~= l0.push(precise));
        lemma_wf_push(l0, precise);
        lemma_first_outside_push(l0, precise, names);
        lemma_get_push(l0, precise, name_time_offset());
        lemma_get_push(l0, precise, name_precise());
    }
    lemma_first_outside_is(list, names, list.len() as int);
}

impl std::str::FromStr for ExtXStart {
    type Err = Error;

    fn from_str(input: &str) -> (r: Result<ExtXStart, Error>)
        ensures
            viewed(r) == ExtXStart::spec_parse(input@),
            r matches Ok(t) ==> t.wf(),
    {
        ExtXStart::parse(input)
    }
}

} // verus!

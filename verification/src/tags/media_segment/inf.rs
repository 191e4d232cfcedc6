//! The tag that gives the duration and the title of a segment.
use vstd::prelude::*;
use crate::error::{invalid, Cause, Error, ErrorView};
use crate::text::{
    find_char, first_index_of, is_first_index_of, lemma_first_index_is, push_all, push_str,
    string_of, string_of_range, to_chars,
};
use crate::types::seconds::{
    lemma_parsed_seconds_bound, lemma_seconds_round_trip, lemma_seconds_text_chars,
    spec_parse_seconds, spec_seconds_text,
    NANOS_PER_SECOND,
};
use crate::types::{ProtocolVersion, Seconds, SecondsView};
use crate::utils::{
    is_digit, lemma_tag_value_of_text, spec_tag_value, spec_value_text, tag_value_in, viewed,
};

verus! {

/// The mathematical value of an [`ExtInf`].
pub struct ExtInfView {
    /// The duration of the segment.
    pub duration: SecondsView,
    /// The title of the segment; empty where it has none.
    pub title: Seq<char>,
}

/// The tag `#EXTINF:<duration>,<title>`: the duration of the segment
/// that follows, and a title for it, which may be empty.
#[derive(Debug, PartialEq, Eq)]
pub struct ExtInf {
    duration: Seconds,
    title: String,
}

impl View for ExtInf {
    type V = ExtInfView;

    closed spec fn view(&self) -> ExtInfView {
        ExtInfView { duration: self.duration@, title: self.title@ }
    }
}

/// Whether `s` holds no carriage return and no line feed.
pub open spec fn is_single_line(s: Seq<char>) -> bool {
    forall|i: int| 0 <= i < s.len() ==> #[trigger] s[i] != '\r' && s[i] != '\n'
}

/// Whether `t` is the value of a tag that can be made: the nanoseconds of
/// its duration are fewer than a second, and its title is a single line.
pub open spec fn inf_wf(t: ExtInfView) -> bool {
    t.duration.nanos < NANOS_PER_SECOND && is_single_line(t.title)
}

/// Decides whether `v[from..to]` holds no carriage return and no line
/// feed.
pub(crate) fn is_single_line_in(v: &Vec<char>, from: usize, to: usize) -> (b: bool)
    requires
        from <= to <= v.len(),
    ensures
        b == is_single_line(v@.subrange(from as int, to as int)),
{
    let ghost s = v@.subrange(from as int, to as int);
    let mut i: usize = from;
    while i < to
        invariant
            from <= i <= to <= v.len(),
            s == v@.subrange(from as int, to as int),
            forall|j: int| 0 <= j < i - from ==> #[trigger] s[j] != '\r' && s[j] != '\n',
        decreases to - i,
    {
        if v[i] == '\r' || v[i] == '\n' {
            assert(s[i - from] == v@[i as int]);
            return false;
        }
        i += 1;
    }
    true
}

impl ExtInf {
    /// The text that a line of this tag begins with.
    pub const PREFIX: &'static str = "#EXTINF";

    /// What holds of every tag of this kind: see [`inf_wf`].
    #[verifier::type_invariant]
    pub open spec fn wf(&self) -> bool {
        inf_wf(self@)
    }

    /// The text of the value of the tag: the duration, a comma and the
    /// title.
    pub open spec fn spec_value(t: ExtInfView) -> Seq<char> {
        spec_seconds_text(t.duration) + seq![','] + t.title
    }

    /// The text of the tag: the prefix, a `:` and the value.
    pub open spec fn spec_text(t: ExtInfView) -> Seq<char> {
        spec_value_text(Self::PREFIX@, Self::spec_value(t))
    }

    /// What the value of the tag means. The duration stands before the
    /// first comma and the title after it; without a comma the whole
    /// value is the duration and the title is empty. A title that holds
    /// a carriage return or a line feed is refused, with the title as
    /// context.
    pub open spec fn spec_parse_value(value: Seq<char>) -> Result<ExtInfView, ErrorView> {
        let c = first_index_of(value, ',');
        match spec_parse_seconds(value.take(c)) {
            Err(e) => Err(e),
            Ok(duration) => {
                let title = if c == value.len() {
                    Seq::empty()
                } else {
                    value.skip(c + 1)
                };
                if is_single_line(title) {
                    Ok(ExtInfView { duration, title })
                } else {
                    Err(invalid(title, Cause::ForbiddenCharacter))
                }
            },
        }
    }

    /// What a line gives when read as this tag.
    pub open spec fn spec_parse(input: Seq<char>) -> Result<ExtInfView, ErrorView> {
        match spec_tag_value(input, Self::PREFIX@) {
            Ok(value) => Self::spec_parse_value(value),
            Err(e) => Err(e),
        }
    }

    /// The version that the tag requires: the lowest for a whole number
    /// of seconds, and the third for a duration with a fraction.
    pub open spec fn spec_requires_version(t: ExtInfView) -> ProtocolVersion {
        if t.duration.nanos == 0 {
            ProtocolVersion::V1
        } else {
            ProtocolVersion::V3
        }
    }

    /// Makes the tag of a segment of the given duration, without a title.
    pub fn new(duration: Seconds) -> (t: ExtInf)
        ensures
            t@ == (ExtInfView { duration: duration@, title: Seq::empty() }),
            t.wf(),
    {
        proof {
            use_type_invariant(&duration);
        }
        ExtInf { duration, title: String::new() }
    }

    /// Makes the tag of a segment of the given duration and title. A
    /// title that holds a carriage return or a line feed is refused.
    pub fn with_title(duration: Seconds, title: &str) -> (r: Result<ExtInf, Error>)
        ensures
            match r {
                Ok(t) => is_single_line(title@) && t@ == (ExtInfView {
                    duration: duration@,
                    title: title@,
                }) && t.wf(),
                Err(e) => !is_single_line(title@) && e@ == invalid(
                    title@,
                    Cause::ForbiddenCharacter,
                ),
            },
    {
        proof {
            use_type_invariant(&duration);
        }
        let v = to_chars(title);
        assert(v@.subrange(0, v@.len() as int) == v@);
        if is_single_line_in(&v, 0, v.len()) {
            Ok(ExtInf { duration, title: string_of(&v) })
        } else {
            Err(Error::invalid_input(string_of(&v), Cause::ForbiddenCharacter))
        }
    }

    /// Returns the duration of the segment.
    pub fn duration(&self) -> (d: Seconds)
        ensures
            d@ == self@.duration,
    {
        self.duration
    }

    /// Returns the title of the segment; empty where it has none.
    pub fn title(&self) -> (s: &String)
        ensures
            s@ == self@.title,
    {
        &self.title
    }

    /// Returns the protocol compatibility version that this tag requires.
    pub fn requires_version(&self) -> (v: ProtocolVersion)
        ensures
            v == Self::spec_requires_version(self@),
    {
        if self.duration.is_whole() {
            ProtocolVersion::V1
        } else {
            ProtocolVersion::V3
        }
    }

    /// Reads the line `v` as this tag.
    pub fn parse_in(v: &Vec<char>) -> (r: Result<ExtInf, Error>)
        ensures
            viewed(r) == Self::spec_parse(v@),
            r matches Ok(t) ==> t.wf(),
    {
        let at = tag_value_in(v, Self::PREFIX)?;
        let ghost value = v@.skip(at as int);
        let c = find_char(v, at, v.len(), ',');
        assert(value.take(c - at) =~= v@.subrange(at as int, c as int));
        let duration = Seconds::parse_in(v, at, c)?;
        let from: usize = if c == v.len() {
            c
        } else {
            c + 1
        };
        proof {
            if c == v.len() {
                assert(v@.subrange(from as int, v.len() as int) =~= Seq::<char>::empty());
            } else {
                assert(v@.subrange(from as int, v.len() as int) =~= value.skip(c - at + 1));
            }
        }
        if is_single_line_in(v, from, v.len()) {
            Ok(ExtInf { duration, title: string_of_range(v, from, v.len()) })
        } else {
            Err(Error::invalid_input(string_of_range(v, from, v.len()), Cause::ForbiddenCharacter))
        }
    }

    /// Reads a line as this tag.
    pub fn parse(input: &str) -> (r: Result<ExtInf, Error>)
        ensures
            viewed(r) == Self::spec_parse(input@),
            r matches Ok(t) ==> t.wf(),
    {
        let v = to_chars(input);
        Self::parse_in(&v)
    }

    /// Appends the text of the tag to `out`.
    pub fn push_text(&self, out: &mut Vec<char>)
        ensures
            final(out)@ == old(out)@ + Self::spec_text(self@),
    {
        push_str(out, Self::PREFIX);
        out.push(':');
        self.duration.push_text(out);
        out.push(',');
        let title = to_chars(self.title.as_str());
        push_all(out, &title);
    }

    /// Returns the text of the tag.
    pub fn to_string(&self) -> (s: String)
        ensures
            s@ == Self::spec_text(self@),
    {
        let mut out: Vec<char> = Vec::new();
        self.push_text(&mut out);
        string_of(&out)
    }

    /// What a line gives when read as this tag is the value of a tag that
    /// can be made.
    pub proof fn lemma_parsed_is_wf(input: Seq<char>)
        ensures
            Self::spec_parse(input) matches Ok(t) ==> inf_wf(t),
    {
        if let Ok(value) = spec_tag_value(input, Self::PREFIX@) {
            let c = first_index_of(value, ',');
            lemma_parsed_seconds_bound(value.take(c));
        }
    }

    /// Reading the text of the tag gives its value back.
    pub proof fn lemma_round_trip(t: ExtInfView)
        requires
            inf_wf(t),
        ensures
            Self::spec_parse(Self::spec_text(t)) == Ok::<ExtInfView, ErrorView>(t),
    {
        let value = Self::spec_value(t);
        let d = spec_seconds_text(t.duration);
        lemma_tag_value_of_text(Self::PREFIX@, value);
        lemma_seconds_text_chars(t.duration);
        lemma_seconds_round_trip(t.duration);
        let c = d.len() as int;
        assert(is_first_index_of(value, ',', c)) by {
            assert forall|j: int| 0 <= j < c implies value[j] != ',' by {
                assert(value[j] == d[j]);
                assert(is_digit(d[j]) || d[j] == '.');
            }
        }
        lemma_first_index_is(value, ',', c);
        assert(value.take(c) =~= d);
        assert(value.skip(c + 1) =~= t.title);
    }
}

impl Clone for ExtInf {
    fn clone(&self) -> (r: ExtInf)
        ensures
            r@ == self@,
    {
        proof {
            use_type_invariant(self);
        }
        ExtInf { duration: self.duration, title: self.title.clone() }
    }
}

impl std::str::FromStr for ExtInf {
    type Err = Error;

    fn from_str(input: &str) -> (r: Result<ExtInf, Error>)
        ensures
            viewed(r) == ExtInf::spec_parse(input@),
            r matches Ok(t) ==> t.wf(),
    {
        ExtInf::parse(input)
    }
}

} // verus!

//! The attribute list of a tag: `NAME=VALUE` pairs between commas.
//!
//! A value is either a bare token or a string between double quotes. A
//! comma inside a quoted string is part of the string; only a comma with
//! an even number of double quotes before it separates two attributes.
use vstd::prelude::*;
use crate::error::{invalid, Cause, Error, ErrorView};
use crate::text::{
    find_char, first_index_of, is_first_index_of, lemma_first_index_exists, lemma_first_index_is,
    string_of, string_of_range, to_chars,
};
use crate::text::{push_all, same_text};
use crate::utils::{
    has_no_quote, is_quotable, is_quotable_text, lemma_unquote_quote, lemma_unquote_result,
    lemma_without_quotes_result, push_quoted, push_unquoted, spec_quote, spec_unquote, viewed,
};

verus! {

/// The mathematical value of an [`Attribute`].
pub struct AttributeView {
    /// The name, as written before the `=`.
    pub name: Seq<char>,
    /// The value: a bare token as written, or a quoted string without
    /// its quotes.
    pub value: Seq<char>,
    /// Whether the value was written between double quotes.
    pub quoted: bool,
}

/// One attribute of a tag.
#[derive(Debug, Clone, PartialEq, Eq)]
pub struct Attribute {
    name: String,
    value: String,
    quoted: bool,
}

impl View for Attribute {
    type V = AttributeView;

    closed spec fn view(&self) -> AttributeView {
        AttributeView { name: self.name@, value: self.value@, quoted: self.quoted }
    }
}

/// The number of double quotes in `s`.
pub open spec fn count_quotes(s: Seq<char>) -> nat
    decreases s.len(),
{
    if s.len() == 0 {
        0
    } else {
        count_quotes(s.drop_last()) + if s.last() == '"' {
            1nat
        } else {
            0nat
        }
    }
}

/// Whether the character at `i` separates two attributes: it is a comma
/// and an even number of double quotes stand before it.
pub open spec fn is_separator(s: Seq<char>, i: int) -> bool {
    0 <= i < s.len() && s[i] == ',' && count_quotes(s.take(i)) % 2 == 0
}

/// Whether `e` is where the first attribute of `s` ends: at the first
/// separator, or at the end of `s` where it has none.
pub open spec fn is_segment_end(s: Seq<char>, e: int) -> bool {
    &&& 0 <= e <= s.len()
    &&& e < s.len() ==> is_separator(s, e)
    &&& forall|j: int| 0 <= j < e ==> !is_separator(s, j)
}

/// The index at which the first attribute of `s` ends.
pub open spec fn segment_end(s: Seq<char>) -> int {
    choose|e: int| is_segment_end(s, e)
}

/// What the text after the `=` of an attribute means.
///
/// A text without a double quote is a bare token and is taken as it is.
/// A text that begins and ends with a double quote and holds no other is
/// a quoted string, and is taken without its quotes, line feeds and
/// carriage returns. A text that begins with the only double quote it
/// holds is an unterminated string; any other text holds a misplaced
/// double quote.
pub open spec fn spec_attribute_value(raw: Seq<char>) -> Result<(Seq<char>, bool), ErrorView> {
    if !raw.contains('"') {
        Ok((raw, false))
    } else if raw[0] != '"' {
        Err(invalid(raw, Cause::MisplacedQuote))
    } else {
        let closing = 1 + first_index_of(raw.skip(1), '"');
        if closing == raw.len() {
            Err(invalid(raw, Cause::UnterminatedQuote))
        } else if closing != raw.len() - 1 {
            Err(invalid(raw, Cause::MisplacedQuote))
        } else {
            Ok((spec_unquote(raw), true))
        }
    }
}

/// What one segment of an attribute list means.
///
/// The segment is split at its first `=` into a name and a value. A
/// segment without `=` and a segment that begins with `=` are refused,
/// with the segment as context; a name that holds a double quote is
/// refused, with the name as context.
pub open spec fn spec_parse_attribute(seg: Seq<char>) -> Result<AttributeView, ErrorView> {
    let k = first_index_of(seg, '=');
    if k == seg.len() {
        Err(invalid(seg, Cause::MissingEquals))
    } else if k == 0 {
        Err(invalid(seg, Cause::EmptyKey))
    } else if seg.take(k).contains('"') {
        Err(invalid(seg.take(k), Cause::MisplacedQuote))
    } else {
        match spec_attribute_value(seg.skip(k + 1)) {
            Ok((value, quoted)) => Ok(AttributeView { name: seg.take(k), value, quoted }),
            Err(e) => Err(e),
        }
    }
}

/// Whether one of `list` has the name `name`.
pub open spec fn has_name(list: Seq<AttributeView>, name: Seq<char>) -> bool {
    exists|i: int| 0 <= i < list.len() && #[trigger] list[i].name == name
}

/// What the segments of `s` mean, one after the other, after the
/// attributes `seen` were read: the attributes in the order in which
/// they are written, or the first error in that order. A name that was
/// seen before is refused, with the name as context.
pub open spec fn spec_parse_segments(s: Seq<char>, seen: Seq<AttributeView>) -> Result<
    Seq<AttributeView>,
    ErrorView,
>
    decreases s.len(),
{
    let e = segment_end(s);
    match spec_parse_attribute(s.take(e)) {
        Err(err) => Err(err),
        Ok(a) => if has_name(seen, a.name) {
            Err(invalid(a.name, Cause::DuplicateAttribute))
        } else if 0 <= e < s.len() {
            spec_parse_segments(s.skip(e + 1), seen.push(a))
        } else {
            Ok(seen.push(a))
        },
    }
}

/// What an attribute list means: no attribute where the text is empty,
/// and else the attributes of its segments.
pub open spec fn spec_parse_attributes(s: Seq<char>) -> Result<Seq<AttributeView>, ErrorView> {
    if s.len() == 0 {
        Ok(Seq::empty())
    } else {
        spec_parse_segments(s, Seq::empty())
    }
}

/// Adding a character adds one to the number of double quotes where the
/// character is one, and nothing else.
proof fn lemma_count_quotes_step(s: Seq<char>, i: int)
    requires
        0 <= i < s.len(),
    ensures
        count_quotes(s.take(i + 1)) == count_quotes(s.take(i)) + if s[i] == '"' {
            1nat
        } else {
            0nat
        },
{
    assert(s.take(i + 1).drop_last() =~= s.take(i));
}

/// There is exactly one index at which the first attribute of `s` ends.
proof fn lemma_segment_end_is(s: Seq<char>, e: int)
    requires
        is_segment_end(s, e),
    ensures
        segment_end(s) == e,
{
    let c = segment_end(s);
    if c < e {
        assert(!is_separator(s, c));
    }
    if e < c {
        assert(!is_separator(s, e));
    }
}

/// Finds where the first attribute of `v[from..to]` ends: at the first
/// comma outside double quotes, or at `to`.
pub(crate) fn find_segment_end(v: &Vec<char>, from: usize, to: usize) -> (e: usize)
    requires
        from <= to <= v.len(),
    ensures
        from <= e <= to,
        segment_end(v@.subrange(from as int, to as int)) == e - from,
{
    let ghost s = v@.subrange(from as int, to as int);
    let mut e: usize = from;
    let mut in_quotes = false;
    while e < to && (in_quotes || v[e] != ',')
        invariant
            from <= e <= to <= v.len(),
            s == v@.subrange(from as int, to as int),
            in_quotes == (count_quotes(s.take(e - from)) % 2 == 1),
            forall|j: int| 0 <= j < e - from ==> !is_separator(s, j),
        decreases to - e,
    {
        proof {
            lemma_count_quotes_step(s, e - from);
        }
        if v[e] == '"' {
            in_quotes = !in_quotes;
        }
        e += 1;
    }
    proof {
        lemma_segment_end_is(s, e - from);
    }
    e
}

/// Reads the text `v[from..to]`, which stands after the `=` of an
/// attribute, as a value.
fn parse_value_in(v: &Vec<char>, from: usize, to: usize) -> (r: Result<(String, bool), Error>)
    requires
        from <= to <= v.len(),
    ensures
        spec_attribute_value(v@.subrange(from as int, to as int)) == (match r {
            Ok((value, quoted)) => Ok((value@, quoted)),
            Err(e) => Err(e@),
        }),
{
    let ghost raw = v@.subrange(from as int, to as int);
    let opening = find_char(v, from, to, '"');
    if opening == to {
        return Ok((string_of_range(v, from, to), false));
    }
    if opening != from {
        return Err(Error::invalid_input(string_of_range(v, from, to), Cause::MisplacedQuote));
    }
    assert(raw.skip(1) =~= v@.subrange(from + 1, to as int));
    let closing = find_char(v, from + 1, to, '"');
    if closing == to {
        Err(Error::invalid_input(string_of_range(v, from, to), Cause::UnterminatedQuote))
    } else if closing != to - 1 {
        Err(Error::invalid_input(string_of_range(v, from, to), Cause::MisplacedQuote))
    } else {
        let mut out: Vec<char> = Vec::new();
        push_unquoted(&mut out, v, from, to);
        Ok((string_of(&out), true))
    }
}

/// Reads the segment `v[from..to]` of an attribute list as an attribute.
pub(crate) fn parse_attribute_in(v: &Vec<char>, from: usize, to: usize) -> (r: Result<Attribute, Error>)
    requires
        from <= to <= v.len(),
    ensures
        crate::utils::viewed(r) == spec_parse_attribute(v@.subrange(from as int, to as int)),
{
    let ghost seg = v@.subrange(from as int, to as int);
    let k = find_char(v, from, to, '=');
    if k == to {
        return Err(Error::invalid_input(string_of_range(v, from, to), Cause::MissingEquals));
    }
    if k == from {
        return Err(Error::invalid_input(string_of_range(v, from, to), Cause::EmptyKey));
    }
    assert(seg.take(k - from) =~= v@.subrange(from as int, k as int));
    assert(seg.skip(k - from + 1) =~= v@.subrange(k + 1, to as int));
    let q = find_char(v, from, k, '"');
    if q != k {
        return Err(Error::invalid_input(string_of_range(v, from, k), Cause::MisplacedQuote));
    }
    match parse_value_in(v, k + 1, to) {
        Ok((value, quoted)) => Ok(Attribute { name: string_of_range(v, from, k), value, quoted }),
        Err(e) => Err(e),
    }
}

/// The attributes of a tag, in the order in which they are written. No
/// two of them have the same name.
#[derive(Debug, PartialEq, Eq)]
pub struct AttributeList {
    items: Vec<Attribute>,
}

/// The values of a sequence of attributes.
pub open spec fn views(items: Seq<Attribute>) -> Seq<AttributeView> {
    items.map_values(|a: Attribute| a@)
}

impl View for AttributeList {
    type V = Seq<AttributeView>;

    closed spec fn view(&self) -> Seq<AttributeView> {
        views(self.items@)
    }
}

/// Whether no two attributes of `list` have the same name.
pub open spec fn names_distinct(list: Seq<AttributeView>) -> bool {
    forall|i: int, j: int|
        0 <= i < list.len() && 0 <= j < list.len() && i != j ==> (#[trigger] list[i]).name != (
        #[trigger] list[j]).name
}

/// Whether `a` is an attribute that can be written and read back: its
/// name is not empty and holds no `=`, comma or double quote; a bare
/// value holds no comma and no double quote; a quoted value holds no
/// double quote, line feed or carriage return.
pub open spec fn attribute_wf(a: AttributeView) -> bool {
    &&& a.name.len() > 0
    &&& forall|i: int|
        0 <= i < a.name.len() ==> {
            let c = #[trigger] a.name[i];
            c != '=' && c != ',' && c != '"'
        }
    &&& a.quoted ==> is_quotable(a.value)
    &&& !a.quoted ==> forall|i: int|
        0 <= i < a.value.len() ==> {
            let c = #[trigger] a.value[i];
            c != ',' && c != '"'
        }
}

/// Whether `list` is an attribute list that can be written and read
/// back: each attribute can, and no name occurs twice.
pub open spec fn attributes_wf(list: Seq<AttributeView>) -> bool {
    &&& forall|i: int| 0 <= i < list.len() ==> attribute_wf(#[trigger] list[i])
    &&& names_distinct(list)
}

/// The text of an attribute: its name, a `=`, and its value, between
/// double quotes where it is a quoted string.
pub open spec fn spec_attribute_text(a: AttributeView) -> Seq<char> {
    a.name + seq!['='] + if a.quoted {
        spec_quote(a.value)
    } else {
        a.value
    }
}

/// The text of an attribute list: the texts of its attributes with a
/// comma between each two.
pub open spec fn spec_format_attributes(list: Seq<AttributeView>) -> Seq<char>
    decreases list.len(),
{
    if list.len() == 0 {
        Seq::empty()
    } else if list.len() == 1 {
        spec_attribute_text(list[0])
    } else {
        spec_attribute_text(list[0]) + seq![','] + spec_format_attributes(list.skip(1))
    }
}

/// Whether `k` is the index of the first attribute of `list` with the
/// name `name`, or the length of `list` where none has it.
pub open spec fn is_position_of(list: Seq<AttributeView>, name: Seq<char>, k: int) -> bool {
    &&& 0 <= k <= list.len()
    &&& k < list.len() ==> list[k].name == name
    &&& forall|j: int| 0 <= j < k ==> (#[trigger] list[j]).name != name
}

/// The attribute of `list` with the name `name`: the first that has it,
/// if any has.
pub open spec fn spec_get(list: Seq<AttributeView>, name: Seq<char>) -> Option<AttributeView> {
    let k = choose|k: int| is_position_of(list, name, k);
    if 0 <= k < list.len() {
        Some(list[k])
    } else {
        None
    }
}

/// The value of an attribute that must be a bare token.
pub open spec fn spec_bare_value(a: AttributeView) -> Result<Seq<char>, ErrorView> {
    if a.quoted {
        Err(invalid(a.value, Cause::UnexpectedQuotes))
    } else {
        Ok(a.value)
    }
}

/// The value of an attribute that must be a quoted string. A value that
/// holds a character that no quoted string may hold is refused.
pub open spec fn spec_quoted_value(a: AttributeView) -> Result<Seq<char>, ErrorView> {
    if !a.quoted {
        Err(invalid(a.value, Cause::MissingQuotes))
    } else if !is_quotable(a.value) {
        Err(invalid(a.value, Cause::ForbiddenCharacter))
    } else {
        Ok(a.value)
    }
}

/// Whether `k` is the index of the first attribute of `list` whose name
/// is none of `allowed`, or the length of `list` where each name is one
/// of them.
pub open spec fn is_first_outside(
    list: Seq<AttributeView>,
    allowed: Seq<Seq<char>>,
    k: int,
) -> bool {
    &&& 0 <= k <= list.len()
    &&& k < list.len() ==> !allowed.contains(list[k].name)
    &&& forall|j: int| 0 <= j < k ==> allowed.contains((#[trigger] list[j]).name)
}

/// The index of the first attribute of `list` whose name is none of
/// `allowed`, or the length of `list`.
pub open spec fn first_outside(list: Seq<AttributeView>, allowed: Seq<Seq<char>>) -> int {
    choose|k: int| is_first_outside(list, allowed, k)
}

/// The texts of a sequence of character vectors.
pub open spec fn texts(names: Seq<Vec<char>>) -> Seq<Seq<char>> {
    names.map_values(|v: Vec<char>| v@)
}

/// There is exactly one first attribute outside a set of names.
pub(crate) proof fn lemma_first_outside_is(list: Seq<AttributeView>, allowed: Seq<Seq<char>>, k: int)
    requires
        is_first_outside(list, allowed, k),
    ensures
        first_outside(list, allowed) == k,
{
    let c = first_outside(list, allowed);
    if c < k {
        assert(allowed.contains(list[c].name));
    }
    if k < c {
        assert(allowed.contains(list[k].name));
    }
}

/// There is exactly one first position of a name in a list.
proof fn lemma_position_is(list: Seq<AttributeView>, name: Seq<char>, k: int)
    requires
        is_position_of(list, name, k),
    ensures
        (choose|k: int| is_position_of(list, name, k)) == k,
        spec_get(list, name) == if k < list.len() {
            Some(list[k])
        } else {
            None
        },
        has_name(list, name) == (k < list.len()),
{
    let c = choose|k: int| is_position_of(list, name, k);
    if c < k {
        assert(list[c].name != name);
    }
    if k < c {
        assert(list[k].name != name);
    }
}

impl Attribute {
    /// Makes an attribute from its parts.
    pub fn new(name: String, value: String, quoted: bool) -> (a: Attribute)
        ensures
            a@ == (AttributeView { name: name@, value: value@, quoted }),
    {
        Attribute { name, value, quoted }
    }

    /// Returns the name of the attribute.
    pub fn name(&self) -> (s: &String)
        ensures
            s@ == self@.name,
    {
        &self.name
    }

    /// Returns the value of the attribute: a bare token as written, or a
    /// quoted string without its quotes.
    pub fn value(&self) -> (s: &String)
        ensures
            s@ == self@.value,
    {
        &self.value
    }

    /// Returns whether the value was written between double quotes.
    pub fn is_quoted(&self) -> (b: bool)
        ensures
            b == self@.quoted,
    {
        self.quoted
    }

    /// Returns the value where it was written as a bare token; a quoted
    /// string is refused, with the value as context.
    pub fn bare_value(&self) -> (r: Result<&String, Error>)
        ensures
            match r {
                Ok(s) => spec_bare_value(self@) == Ok::<Seq<char>, ErrorView>(s@),
                Err(e) => spec_bare_value(self@) == Err::<Seq<char>, ErrorView>(e@),
            },
    {
        if self.quoted {
            Err(Error::invalid_input(self.value.clone(), Cause::UnexpectedQuotes))
        } else {
            Ok(&self.value)
        }
    }

    /// Returns the value where it was written as a quoted string; a bare
    /// token is refused, and so is a value with a double quote, a line
    /// feed or a carriage return, each with the value as context.
    pub fn quoted_value(&self) -> (r: Result<&String, Error>)
        ensures
            match r {
                Ok(s) => spec_quoted_value(self@) == Ok::<Seq<char>, ErrorView>(s@),
                Err(e) => spec_quoted_value(self@) == Err::<Seq<char>, ErrorView>(e@),
            },
    {
        if !self.quoted {
            return Err(Error::invalid_input(self.value.clone(), Cause::MissingQuotes));
        }
        let v = to_chars(self.value.as_str());
        if is_quotable_text(&v) {
            Ok(&self.value)
        } else {
            Err(Error::invalid_input(self.value.clone(), Cause::ForbiddenCharacter))
        }
    }

    /// Appends the text of the attribute to `out`.
    pub fn push_text(&self, out: &mut Vec<char>)
        ensures
            final(out)@ == old(out)@ + spec_attribute_text(self@),
    {
        let name = to_chars(self.name.as_str());
        let value = to_chars(self.value.as_str());
        push_all(out, &name);
        out.push('=');
        if self.quoted {
            assert(value@.subrange(0, value@.len() as int) == value@);
            push_quoted(out, &value, 0, value.len());
        } else {
            push_all(out, &value);
        }
    }
}

/// Decides whether `name` is one of `allowed`.
pub fn is_one_of(allowed: &Vec<Vec<char>>, name: &Vec<char>) -> (b: bool)
    ensures
        b == texts(allowed@).contains(name@),
{
    let ghost names = texts(allowed@);
    let mut i: usize = 0;
    while i < allowed.len()
        invariant
            i <= allowed.len(),
            names == texts(allowed@),
            forall|j: int| 0 <= j < i ==> names[j] != name@,
        decreases allowed.len() - i,
    {
        assert(names[i as int] == allowed@[i as int]@);
        if same_text(&allowed[i], name) {
            return true;
        }
        i += 1;
    }
    false
}

/// Finds the first of `items` with the name `name`; returns their number
/// where none has it.
fn position_in(items: &Vec<Attribute>, name: &Vec<char>) -> (k: usize)
    ensures
        is_position_of(views(items@), name@, k as int),
{
    let mut k: usize = 0;
    while k < items.len()
        invariant
            k <= items.len(),
            forall|j: int| 0 <= j < k ==> (#[trigger] views(items@)[j]).name != name@,
        decreases items.len() - k,
    {
        let n = to_chars(items[k].name.as_str());
        if same_text(&n, name) {
            return k;
        }
        k += 1;
    }
    k
}

impl AttributeList {
    /// What holds of every attribute list: it can be written and read
    /// back, and no two of its attributes have the same name.
    #[verifier::type_invariant]
    pub open spec fn wf(&self) -> bool {
        attributes_wf(self@)
    }

    /// Returns the number of attributes.
    pub fn len(&self) -> (n: usize)
        ensures
            n == self@.len(),
    {
        self.items.len()
    }

    /// Returns the attribute at `index`, in the order of writing, or
    /// `None` where the list has no such index.
    pub fn at(&self, index: usize) -> (r: Option<&Attribute>)
        ensures
            match r {
                Some(a) => index < self@.len() && a@ == self@[index as int],
                None => index >= self@.len(),
            },
    {
        if index < self.items.len() {
            Some(&self.items[index])
        } else {
            None
        }
    }

    /// Returns the attribute at `index`, which the list has.
    pub(crate) fn item(&self, index: usize) -> (a: &Attribute)
        requires
            index < self@.len(),
        ensures
            a@ == self@[index as int],
    {
        &self.items[index]
    }

    /// Returns the attribute with the given name, if there is one.
    pub fn get(&self, name: &str) -> (r: Option<&Attribute>)
        ensures
            match r {
                Some(a) => spec_get(self@, name@) == Some(a@),
                None => spec_get(self@, name@) is None,
            },
    {
        let n = to_chars(name);
        let k = position_in(&self.items, &n);
        proof {
            lemma_position_is(self@, name@, k as int);
        }
        if k < self.items.len() {
            Some(&self.items[k])
        } else {
            None
        }
    }

    /// Returns the index of the first attribute whose name is none of
    /// `allowed`, or the number of attributes where each name is one of
    /// them.
    pub fn first_outside(&self, allowed: &Vec<Vec<char>>) -> (k: usize)
        ensures
            k <= self@.len(),
            first_outside(self@, texts(allowed@)) == k,
    {
        let ghost names = texts(allowed@);
        let mut k: usize = 0;
        while k < self.items.len()
            invariant
                k <= self.items.len(),
                names == texts(allowed@),
                forall|j: int| 0 <= j < k ==> names.contains((#[trigger] self@[j]).name),
            decreases self.items.len() - k,
        {
            let name = to_chars(self.items[k].name.as_str());
            let found = is_one_of(allowed, &name);
            if !found {
                proof {
                    lemma_first_outside_is(self@, names, k as int);
                }
                return k;
            }
            k += 1;
        }
        proof {
            lemma_first_outside_is(self@, names, k as int);
        }
        k
    }

    /// Reads `v[from..to]` as an attribute list.
    pub(crate) fn parse_in(v: &Vec<char>, from: usize, to: usize) -> (r: Result<AttributeList, Error>)
        requires
            from <= to <= v.len(),
        ensures
            viewed(r) == spec_parse_attributes(v@.subrange(from as int, to as int)),
            r matches Ok(list) ==> list.wf(),
    {
        let ghost s = v@.subrange(from as int, to as int);
        let mut items: Vec<Attribute> = Vec::new();
        if from == to {
            assert(views(items@) =~= Seq::<AttributeView>::empty());
            return Ok(AttributeList { items });
        }
        let mut pos: usize = from;
        assert(views(items@) =~= Seq::<AttributeView>::empty());
        loop
            invariant
                from <= pos <= to <= v.len(),
                s == v@.subrange(from as int, to as int),
                spec_parse_attributes(s) == spec_parse_segments(
                    v@.subrange(pos as int, to as int),
                    views(items@),
                ),
                attributes_wf(views(items@)),
            decreases to - pos,
        {
            let ghost rest = v@.subrange(pos as int, to as int);
            let ghost seen = views(items@);
            let e = find_segment_end(v, pos, to);
            assert(rest.take(e - pos) =~= v@.subrange(pos as int, e as int));
            let a = parse_attribute_in(v, pos, e)?;
            let name = to_chars(a.name.as_str());
            let k = position_in(&items, &name);
            proof {
                lemma_position_is(seen, a@.name, k as int);
            }
            if k < items.len() {
                return Err(Error::invalid_input(string_of(&name), Cause::DuplicateAttribute));
            }
            proof {
                lemma_parsed_attribute_is_wf(rest);
                lemma_wf_push(seen, a@);
            }
            items.push(a);
            assert(views(items@) =~= seen.push(a@));
            if e == to {
                return Ok(AttributeList { items });
            }
            assert(rest.skip(e - pos + 1) =~= v@.subrange(e + 1, to as int));
            pos = e + 1;
        }
    }

    /// Reads a text as an attribute list.
    ///
    /// The text is split at each comma that is not inside a quoted
    /// string, and each segment at its first `=`. The empty text is the
    /// empty list. The first segment, in the order of writing, that
    /// cannot be read or that repeats a name decides the error.
    pub fn parse(input: &str) -> (r: Result<AttributeList, Error>)
        ensures
            viewed(r) == spec_parse_attributes(input@),
            r matches Ok(list) ==> list.wf(),
    {
        let v = to_chars(input);
        assert(v@.subrange(0, v@.len() as int) == v@);
        Self::parse_in(&v, 0, v.len())
    }

    /// Appends the text of the list to `out`.
    pub fn push_text(&self, out: &mut Vec<char>)
        ensures
            final(out)@ == old(out)@ + spec_format_attributes(self@),
    {
        push_attributes(out, &self.items);
    }

    /// Returns the text of the list. Reading that text gives the list
    /// back.
    pub fn to_string(&self) -> (s: String)
        ensures
            s@ == spec_format_attributes(self@),
            spec_parse_attributes(s@) == Ok::<Seq<AttributeView>, ErrorView>(self@),
    {
        proof {
            use_type_invariant(self);
            lemma_attributes_round_trip(self@);
        }
        let mut out: Vec<char> = Vec::new();
        self.push_text(&mut out);
        string_of(&out)
    }
}

/// Appends the text of the attributes `items` to `out`, with a comma
/// between each two.
pub fn push_attributes(out: &mut Vec<char>, items: &Vec<Attribute>)
    ensures
        final(out)@ == old(out)@ + spec_format_attributes(views(items@)),
{
    let ghost list = views(items@);
    let mut i: usize = 0;
    assert(list.skip(0) =~= list);
    assert(out@ + spec_format_attributes(list.skip(0)) =~= old(out)@ + spec_format_attributes(
        list,
    ));
    while i < items.len()
        invariant
            i <= items.len(),
            list == views(items@),
            out@ + spec_format_attributes(list.skip(i as int)) == old(out)@
                + spec_format_attributes(list),
        decreases items.len() - i,
    {
        let ghost before = out@;
        let ghost tail = list.skip(i as int);
        assert(tail.skip(1) =~= list.skip(i + 1));
        items[i].push_text(out);
        if i + 1 < items.len() {
            out.push(',');
            assert(out@ + spec_format_attributes(list.skip(i + 1)) =~= before
                + spec_format_attributes(tail));
        } else {
            assert(out@ + spec_format_attributes(list.skip(i + 1)) =~= before
                + spec_format_attributes(tail));
        }
        i += 1;
    }
}

/// The double quotes of a text made of two parts are those of the parts.
proof fn lemma_count_quotes_concat(a: Seq<char>, b: Seq<char>)
    ensures
        count_quotes(a + b) == count_quotes(a) + count_quotes(b),
    decreases b.len(),
{
    if b.len() == 0 {
        assert(a + b =~= a);
    } else {
        lemma_count_quotes_concat(a, b.drop_last());
        assert((a + b).drop_last() =~= a + b.drop_last());
    }
}

/// A text without a double quote has none to count.
proof fn lemma_count_quotes_none(s: Seq<char>)
    requires
        has_no_quote(s),
    ensures
        count_quotes(s) == 0,
    decreases s.len(),
{
    if s.len() > 0 {
        assert forall|i: int| 0 <= i < s.drop_last().len() implies #[trigger] s.drop_last()[i]
            != '"' by {
            assert(s.drop_last()[i] == s[i]);
        }
        lemma_count_quotes_none(s.drop_last());
    }
}

/// The text of an attribute reads back as the attribute.
pub proof fn lemma_attribute_round_trip(a: AttributeView)
    requires
        attribute_wf(a),
    ensures
        spec_parse_attribute(spec_attribute_text(a)) == Ok::<AttributeView, ErrorView>(a),
{
    let t = spec_attribute_text(a);
    let n = a.name.len() as int;
    assert(is_first_index_of(t, '=', n)) by {
        assert forall|j: int| 0 <= j < n implies t[j] != '=' by {
            assert(t[j] == a.name[j]);
        }
    }
    lemma_first_index_is(t, '=', n);
    assert(t.take(n) =~= a.name);
    let raw = t.skip(n + 1);
    if a.quoted {
        lemma_without_quotes_result(a.value);
        assert(has_no_quote(a.value)) by {
            assert forall|i: int| 0 <= i < a.value.len() implies #[trigger] a.value[i] != '"' by {
                assert(!crate::utils::is_forbidden(a.value[i]));
            }
        }
        assert(raw =~= seq!['"'] + a.value + seq!['"']);
        let inner = raw.skip(1);
        assert(is_first_index_of(inner, '"', a.value.len() as int)) by {
            assert forall|j: int| 0 <= j < a.value.len() implies inner[j] != '"' by {
                assert(inner[j] == a.value[j]);
            }
        }
        lemma_first_index_is(inner, '"', a.value.len() as int);
        lemma_unquote_quote(a.value);
    } else {
        assert(raw =~= a.value);
    }
}

/// The text of an attribute ends where the attribute ends: no comma in
/// it separates, and a comma that follows it does.
proof fn lemma_attribute_text_is_segment(a: AttributeView, tail: Seq<char>)
    requires
        attribute_wf(a),
        tail.len() == 0 || tail[0] == ',',
    ensures
        segment_end(spec_attribute_text(a) + tail) == spec_attribute_text(a).len(),
{
    let t = spec_attribute_text(a);
    let s = t + tail;
    let n = a.name.len() as int;
    let head = a.name + seq!['='];
    lemma_count_quotes_none(head);
    if a.quoted {
        lemma_without_quotes_result(a.value);
        assert(has_no_quote(a.value)) by {
            assert forall|i: int| 0 <= i < a.value.len() implies #[trigger] a.value[i] != '"' by {
                assert(!crate::utils::is_forbidden(a.value[i]));
            }
        }
        let open = head + seq!['"'];
        assert(count_quotes(open) == 1) by {
            lemma_count_quotes_concat(head, seq!['"']);
            assert(count_quotes(seq!['"'].drop_last()) == 0);
        }
        assert(t =~= open + a.value + seq!['"']);
        assert forall|j: int| 0 <= j < t.len() implies !is_separator(s, j) by {
            if j < n {
                assert(s[j] == a.name[j]);
            } else if n + 1 < j < t.len() - 1 {
                let m = j - n - 2;
                assert(s.take(j) =~= open + a.value.take(m));
                lemma_count_quotes_concat(open, a.value.take(m));
                lemma_count_quotes_none(a.value.take(m));
            }
        }
        assert(count_quotes(t) == 2) by {
            lemma_count_quotes_concat(open, a.value);
            lemma_count_quotes_none(a.value);
            lemma_count_quotes_concat(open + a.value, seq!['"']);
            assert(count_quotes(seq!['"'].drop_last()) == 0);
        }
    } else {
        assert forall|j: int| 0 <= j < t.len() implies !is_separator(s, j) by {
            if j < n {
                assert(s[j] == a.name[j]);
            } else if j > n {
                assert(s[j] == a.value[j - n - 1]);
            }
        }
        assert(count_quotes(t) == 0) by {
            lemma_count_quotes_concat(head, a.value);
            lemma_count_quotes_none(a.value);
        }
    }
    assert(s.take(t.len() as int) =~= t);
    lemma_segment_end_is(s, t.len() as int);
}

/// The text of a list of attributes reads back, segment by segment, as
/// the attributes seen before followed by those of the list.
proof fn lemma_segments_round_trip(list: Seq<AttributeView>, seen: Seq<AttributeView>)
    requires
        list.len() > 0,
        attributes_wf(list),
        forall|i: int| 0 <= i < list.len() ==> !has_name(seen, #[trigger] list[i].name),
    ensures
        spec_parse_segments(spec_format_attributes(list), seen) == Ok::<
            Seq<AttributeView>,
            ErrorView,
        >(seen + list),
    decreases list.len(),
{
    let a = list[0];
    let t = spec_attribute_text(a);
    let s = spec_format_attributes(list);
    lemma_attribute_round_trip(a);
    if list.len() == 1 {
        lemma_attribute_text_is_segment(a, Seq::empty());
        assert(s.take(t.len() as int) =~= t);
        assert(seen.push(a) =~= seen + list);
    } else {
        let rest = list.skip(1);
        let f = spec_format_attributes(rest);
        let tail = seq![','] + f;
        lemma_attribute_text_is_segment(a, tail);
        assert(s =~= t + tail);
        assert(s.take(t.len() as int) =~= t);
        assert(s.skip(t.len() as int + 1) =~= f);
        let next = seen.push(a);
        assert(attributes_wf(rest)) by {
            assert forall|i: int| 0 <= i < rest.len() implies attribute_wf(#[trigger] rest[i]) by {
                assert(rest[i] == list[i + 1]);
            }
            assert forall|i: int, j: int|
                0 <= i < rest.len() && 0 <= j < rest.len() && i != j implies (
            #[trigger] rest[i]).name != (#[trigger] rest[j]).name by {
                assert(rest[i] == list[i + 1]);
                assert(rest[j] == list[j + 1]);
            }
        }
        assert forall|i: int| 0 <= i < rest.len() implies !has_name(
            next,
            #[trigger] rest[i].name,
        ) by {
            assert forall|k: int| 0 <= k < next.len() implies (#[trigger] next[k]).name
                != rest[i].name by {
                if k < seen.len() {
                    assert(next[k] == seen[k]);
                } else {
                    assert(next[k] == list[0]);
                }
            }
        }
        lemma_segments_round_trip(rest, next);
        assert(next + rest =~= seen + list);
    }
}

/// Reading the text of an attribute list gives the list back: for every
/// list whose attributes can be written, and in which no name occurs
/// twice, `parse(format(list))` is `list`.
pub proof fn lemma_attributes_round_trip(list: Seq<AttributeView>)
    requires
        attributes_wf(list),
    ensures
        spec_parse_attributes(spec_format_attributes(list)) == Ok::<Seq<AttributeView>, ErrorView>(
            list,
        ),
{
    if list.len() == 0 {
        assert(list =~= Seq::<AttributeView>::empty());
    } else {
        let seen = Seq::<AttributeView>::empty();
        lemma_segments_round_trip(list, seen);
    }
}

/// Every list has a first position of a name.
proof fn lemma_position_exists(list: Seq<AttributeView>, name: Seq<char>) -> (k: int)
    ensures
        is_position_of(list, name, k),
        spec_get(list, name) == if k < list.len() {
            Some(list[k])
        } else {
            None
        },
        has_name(list, name) == (k < list.len()),
    decreases list.len(),
{
    let k = if list.len() == 0 {
        0int
    } else {
        let front = list.drop_last();
        let j = lemma_position_exists(front, name);
        assert forall|i: int| 0 <= i < j implies (#[trigger] list[i]).name != name by {
            assert(list[i] == front[i]);
        }
        if j < front.len() {
            j
        } else if list.last().name == name {
            list.len() as int - 1
        } else {
            list.len() as int
        }
    };
    lemma_position_is(list, name, k);
    k
}

/// What looking a name up finds after an attribute was added at the end:
/// what it found before, and else the new attribute where it has the
/// name.
pub(crate) proof fn lemma_get_push(list: Seq<AttributeView>, a: AttributeView, name: Seq<char>)
    ensures
        has_name(list.push(a), name) == (has_name(list, name) || a.name == name),
        spec_get(list.push(a), name) == if has_name(list, name) {
            spec_get(list, name)
        } else if a.name == name {
            Some(a)
        } else {
            None
        },
{
    let k = lemma_position_exists(list, name);
    let next = list.push(a);
    let k2 = if k < list.len() {
        k
    } else if a.name == name {
        list.len() as int
    } else {
        list.len() as int + 1
    };
    assert(is_position_of(next, name, k2)) by {
        assert forall|j: int| 0 <= j < k2 implies (#[trigger] next[j]).name != name by {
            if j < list.len() {
                assert(next[j] == list[j]);
            }
        }
        if k2 < list.len() {
            assert(next[k2] == list[k2]);
        }
    }
    lemma_position_is(next, name, k2);
}

/// Looking a name up in the empty list finds nothing.
pub(crate) proof fn lemma_get_empty(name: Seq<char>)
    ensures
        !has_name(Seq::<AttributeView>::empty(), name),
        spec_get(Seq::<AttributeView>::empty(), name) is None,
{
    lemma_position_is(Seq::<AttributeView>::empty(), name, 0);
}

/// Where every name of a list is allowed, the list with one more
/// attribute has its first name outside at the new attribute, if its
/// name is not allowed, and else none.
pub(crate) proof fn lemma_first_outside_push(
    list: Seq<AttributeView>,
    a: AttributeView,
    allowed: Seq<Seq<char>>,
)
    requires
        is_first_outside(list, allowed, list.len() as int),
    ensures
        allowed.contains(a.name) ==> is_first_outside(list.push(a), allowed, list.len() as int + 1),
        !allowed.contains(a.name) ==> is_first_outside(list.push(a), allowed, list.len() as int),
        first_outside(list.push(a), allowed) == if allowed.contains(a.name) {
            list.len() as int + 1
        } else {
            list.len() as int
        },
{
    let next = list.push(a);
    let k = if allowed.contains(a.name) {
        list.len() as int + 1
    } else {
        list.len() as int
    };
    assert(is_first_outside(next, allowed, k)) by {
        assert forall|j: int| 0 <= j < k implies allowed.contains((#[trigger] next[j]).name) by {
            if j < list.len() {
                assert(next[j] == list[j]);
            }
        }
    }
    lemma_first_outside_is(next, allowed, k);
}

/// A list that can be written and read back still can after an
/// attribute that can, and whose name is new, was added at its end.
pub(crate) proof fn lemma_wf_push(list: Seq<AttributeView>, a: AttributeView)
    requires
        attributes_wf(list),
        attribute_wf(a),
        !has_name(list, a.name),
    ensures
        attributes_wf(list.push(a)),
{
    let next = list.push(a);
    assert forall|i: int| 0 <= i < next.len() implies attribute_wf(#[trigger] next[i]) by {
        if i < list.len() {
            assert(next[i] == list[i]);
        }
    }
    assert forall|i: int, j: int|
        0 <= i < next.len() && 0 <= j < next.len() && i != j implies (#[trigger] next[i]).name != (
    #[trigger] next[j]).name by {
        if i < list.len() {
            assert(next[i] == list[i]);
        }
        if j < list.len() {
            assert(next[j] == list[j]);
        }
    }
}

/// Every text has an index at which its first attribute ends.
proof fn lemma_segment_end_exists(s: Seq<char>)
    ensures
        is_segment_end(s, segment_end(s)),
{
    let e = lemma_search_segment_end(s, 0);
    lemma_segment_end_is(s, e);
}

/// Searches for the end of the first attribute of `s` from index `i` on.
proof fn lemma_search_segment_end(s: Seq<char>, i: int) -> (e: int)
    requires
        0 <= i <= s.len(),
        forall|j: int| 0 <= j < i ==> !is_separator(s, j),
    ensures
        is_segment_end(s, e),
    decreases s.len() - i,
{
    if i == s.len() || is_separator(s, i) {
        i
    } else {
        lemma_search_segment_end(s, i + 1)
    }
}

/// The attribute that the first segment of a text gives can be written
/// and read back: its name holds no `=`, comma or double quote, a bare
/// value no comma and no double quote, and a quoted value none of the
/// characters that a quoted string forbids.
proof fn lemma_parsed_attribute_is_wf(s: Seq<char>)
    ensures
        spec_parse_attribute(s.take(segment_end(s))) matches Ok(a) ==> attribute_wf(a),
{
    let e = segment_end(s);
    let seg = s.take(e);
    lemma_segment_end_exists(s);
    lemma_first_index_exists(seg, '=');
    if let Ok(a) = spec_parse_attribute(seg) {
        let k = first_index_of(seg, '=');
        let name = seg.take(k);
        let raw = seg.skip(k + 1);
        assert(has_no_quote(name)) by {
            assert forall|i: int| 0 <= i < name.len() implies #[trigger] name[i] != '"' by {
                if name[i] == '"' {
                    assert(name.contains('"'));
                }
            }
        }
        assert forall|i: int| 0 <= i < name.len() implies {
            let c = #[trigger] name[i];
            c != '=' && c != ',' && c != '"'
        } by {
            if name[i] == ',' {
                assert(s.take(i) =~= name.take(i));
                lemma_count_quotes_none(name.take(i));
                assert(is_separator(s, i));
            }
        }
        if a.quoted {
            lemma_unquote_result(raw);
        } else {
            assert(has_no_quote(raw)) by {
                assert forall|i: int| 0 <= i < raw.len() implies #[trigger] raw[i] != '"' by {
                    if raw[i] == '"' {
                        assert(raw.contains('"'));
                    }
                }
            }
            assert forall|i: int| 0 <= i < raw.len() implies {
                let c = #[trigger] raw[i];
                c != ',' && c != '"'
            } by {
                let j = k + 1 + i;
                if raw[i] == ',' {
                    assert(s.take(j) =~= name + seq!['='] + raw.take(i));
                    lemma_count_quotes_none(s.take(j));
                    assert(is_separator(s, j));
                }
            }
        }
    }
}

/// The attributes that the segments of a text give can be written and
/// read back, and have distinct names, where those seen before could and
/// had.
proof fn lemma_parsed_segments_are_wf(s: Seq<char>, seen: Seq<AttributeView>)
    requires
        attributes_wf(seen),
    ensures
        spec_parse_segments(s, seen) matches Ok(list) ==> attributes_wf(list),
    decreases s.len(),
{
    let e = segment_end(s);
    lemma_parsed_attribute_is_wf(s);
    match spec_parse_attribute(s.take(e)) {
        Err(_) => {},
        Ok(a) => {
            if !has_name(seen, a.name) {
                lemma_wf_push(seen, a);
                if 0 <= e < s.len() {
                    lemma_parsed_segments_are_wf(s.skip(e + 1), seen.push(a));
                }
            }
        },
    }
}

/// An attribute list that was read from a text can be written and read
/// back, and no name occurs twice in it.
pub proof fn lemma_parsed_attributes_are_wf(s: Seq<char>)
    ensures
        spec_parse_attributes(s) matches Ok(list) ==> attributes_wf(list),
{
    lemma_parsed_segments_are_wf(s, Seq::empty());
}

/// A list that was read from a text, written and read again, is the same
/// list: where `parse(s)` is `list`, `parse(format(list))` is `list` too.
pub proof fn lemma_parse_format_parse(s: Seq<char>)
    ensures
        spec_parse_attributes(s) matches Ok(list) ==> spec_parse_attributes(
            spec_format_attributes(list),
        ) == Ok::<Seq<AttributeView>, ErrorView>(list),
{
    lemma_parsed_attributes_are_wf(s);
    if let Ok(list) = spec_parse_attributes(s) {
        lemma_attributes_round_trip(list);
    }
}

} // verus!

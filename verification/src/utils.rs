//! The scalar codec, the quoted-string codec and the tag-line matcher.
use vstd::prelude::*;
use crate::error::{invalid, Cause, Error, ErrorView};
use crate::text::{push_str, starts_with_at, string_of, string_of_range, to_chars};

verus! {

/// The view of a result whose error is an [`Error`] and whose value is
/// its own view.
pub open spec fn plain<T>(r: Result<T, Error>) -> Result<T, ErrorView> {
    match r {
        Ok(v) => Ok(v),
        Err(e) => Err(e@),
    }
}

/// The view of a result whose error is an [`Error`] and whose value has a
/// view.
pub open spec fn viewed<T: View>(r: Result<T, Error>) -> Result<T::V, ErrorView> {
    match r {
        Ok(v) => Ok(v@),
        Err(e) => Err(e@),
    }
}

// ---------------------------------------------------------------------
// Boolean tokens
// ---------------------------------------------------------------------

/// What `YES` and `NO` mean: `true` and `false`. Any other text, `yes` and
/// ` YES` among them, is invalid input.
pub open spec fn spec_parse_yes_or_no(s: Seq<char>) -> Result<bool, ErrorView> {
    if s == seq!['Y', 'E', 'S'] {
        Ok(true)
    } else if s == seq!['N', 'O'] {
        Ok(false)
    } else {
        Err(invalid(s, Cause::NotYesOrNo))
    }
}

/// Parses the characters `v[from..to]` as `YES` or `NO`.
pub(crate) fn parse_yes_or_no_in(v: &Vec<char>, from: usize, to: usize) -> (r: Result<bool, Error>)
    requires
        from <= to <= v.len(),
    ensures
        plain(r) == spec_parse_yes_or_no(v@.subrange(from as int, to as int)),
{
    let ghost s = v@.subrange(from as int, to as int);
    if to - from == 3 && v[from] == 'Y' && v[from + 1] == 'E' && v[from + 2] == 'S' {
        assert(s =~= seq!['Y', 'E', 'S']);
        Ok(true)
    } else if to - from == 2 && v[from] == 'N' && v[from + 1] == 'O' {
        assert(s =~= seq!['N', 'O']);
        Ok(false)
    } else {
        proof {
            if s == seq!['Y', 'E', 'S'] {
                assert(s.len() == 3 && s[0] == 'Y' && s[1] == 'E' && s[2] == 'S');
            }
            if s == seq!['N', 'O'] {
                assert(s.len() == 2 && s[0] == 'N' && s[1] == 'O');
            }
        }
        Err(Error::invalid_input(string_of_range(v, from, to), Cause::NotYesOrNo))
    }
}

/// Parses `YES` as `true` and `NO` as `false`; any other text is refused
/// as invalid input, with the text as its context.
pub fn parse_yes_or_no(s: &str) -> (r: Result<bool, Error>)
    ensures
        plain(r) == spec_parse_yes_or_no(s@),
{
    let v = to_chars(s);
    assert(v@.subrange(0, v@.len() as int) == v@);
    parse_yes_or_no_in(&v, 0, v.len())
}

// ---------------------------------------------------------------------
// Decimal integers
// ---------------------------------------------------------------------

/// Whether `c` is one of the ten decimal digits.
pub open spec fn is_digit(c: char) -> bool {
    '0' <= c && c <= '9'
}

/// The number that the decimal digit `c` stands for.
pub open spec fn digit_value(c: char) -> nat {
    (c as u32 - '0' as u32) as nat
}

/// The decimal digit that stands for `d`, where `d` is below ten.
pub open spec fn digit_char(d: nat) -> char {
    if d == 0 {
        '0'
    } else if d == 1 {
        '1'
    } else if d == 2 {
        '2'
    } else if d == 3 {
        '3'
    } else if d == 4 {
        '4'
    } else if d == 5 {
        '5'
    } else if d == 6 {
        '6'
    } else if d == 7 {
        '7'
    } else if d == 8 {
        '8'
    } else {
        '9'
    }
}

/// Whether every character of `s` is a decimal digit.
pub open spec fn all_digits(s: Seq<char>) -> bool {
    forall|i: int| 0 <= i < s.len() ==> is_digit(#[trigger] s[i])
}

/// The number that a sequence of decimal digits denotes, the most
/// significant digit first. The empty sequence denotes zero.
pub open spec fn decimal_value(s: Seq<char>) -> nat
    decreases s.len(),
{
    if s.len() == 0 {
        0
    } else {
        decimal_value(s.drop_last()) * 10 + digit_value(s.last())
    }
}

/// The decimal digits of `n`, the most significant first, without leading
/// zeros; zero is the single digit `0`.
pub open spec fn decimal_digits(n: nat) -> Seq<char>
    decreases n,
{
    if n < 10 {
        seq![digit_char(n)]
    } else {
        decimal_digits(n / 10).push(digit_char(n % 10))
    }
}

/// What a decimal integer of 64 bits is: a sequence of one or more decimal
/// digits, and nothing else, whose number fits in 64 bits. A sign, a
/// blank or any other character makes the text invalid.
pub open spec fn spec_parse_u64(s: Seq<char>) -> Result<u64, ErrorView> {
    if s.len() == 0 {
        Err(invalid(s, Cause::Empty))
    } else if !all_digits(s) {
        Err(invalid(s, Cause::NotADigit))
    } else if decimal_value(s) > u64::MAX {
        Err(invalid(s, Cause::Overflow))
    } else {
        Ok(decimal_value(s) as u64)
    }
}

/// A number is at least the number of each of its prefixes.
proof fn lemma_decimal_value_of_prefix(s: Seq<char>, i: int)
    requires
        0 <= i <= s.len(),
    ensures
        decimal_value(s.take(i)) <= decimal_value(s),
    decreases s.len(),
{
    if i == s.len() {
        assert(s.take(i) == s);
    } else {
        lemma_decimal_value_of_prefix(s.drop_last(), i);
        assert(s.drop_last().take(i) == s.take(i));
    }
}

/// The decimal digits of a number are digits, and denote that number.
pub proof fn lemma_decimal_digits(n: nat)
    ensures
        decimal_digits(n).len() >= 1,
        all_digits(decimal_digits(n)),
        decimal_value(decimal_digits(n)) == n,
    decreases n,
{
    if n < 10 {
        let s = decimal_digits(n);
        assert(decimal_value(s.drop_last()) == 0);
    } else {
        lemma_decimal_digits(n / 10);
        let s = decimal_digits(n);
        assert(s.drop_last() =~= decimal_digits(n / 10));
    }
}

/// Returns the number of the decimal digit `c`.
pub(crate) fn digit_of(c: char) -> (d: u8)
    requires
        is_digit(c),
    ensures
        d == digit_value(c),
        d < 10,
{
    (c as u32 - '0' as u32) as u8
}

/// Returns the decimal digit of `d`.
pub(crate) fn char_of_digit(d: u8) -> (c: char)
    requires
        d < 10,
    ensures
        c == digit_char(d as nat),
        is_digit(c),
        digit_value(c) == d,
{
    match d {
        0 => '0',
        1 => '1',
        2 => '2',
        3 => '3',
        4 => '4',
        5 => '5',
        6 => '6',
        7 => '7',
        8 => '8',
        _ => '9',
    }
}

/// Decides whether `v[from..to]` holds decimal digits only.
pub(crate) fn all_digits_in(v: &Vec<char>, from: usize, to: usize) -> (b: bool)
    requires
        from <= to <= v.len(),
    ensures
        b == all_digits(v@.subrange(from as int, to as int)),
{
    let ghost s = v@.subrange(from as int, to as int);
    let mut i: usize = from;
    while i < to
        invariant
            from <= i <= to <= v.len(),
            s == v@.subrange(from as int, to as int),
            forall|j: int| 0 <= j < i - from ==> is_digit(#[trigger] s[j]),
        decreases to - i,
    {
        let c = v[i];
        if !('0' <= c && c <= '9') {
            assert(!is_digit(s[i - from]));
            return false;
        }
        i += 1;
    }
    true
}

/// Parses the characters `v[from..to]` as a decimal integer of 64 bits.
pub(crate) fn parse_u64_in(v: &Vec<char>, from: usize, to: usize) -> (r: Result<u64, Error>)
    requires
        from <= to <= v.len(),
    ensures
        plain(r) == spec_parse_u64(v@.subrange(from as int, to as int)),
{
    let ghost s = v@.subrange(from as int, to as int);
    if from == to {
        return Err(Error::invalid_input(string_of_range(v, from, to), Cause::Empty));
    }
    if !all_digits_in(v, from, to) {
        return Err(Error::invalid_input(string_of_range(v, from, to), Cause::NotADigit));
    }
    let mut n: u64 = 0;
    let mut i: usize = from;
    while i < to
        invariant
            from <= i <= to <= v.len(),
            s == v@.subrange(from as int, to as int),
            all_digits(s),
            n == decimal_value(s.take(i - from)),
        decreases to - i,
    {
        assert(is_digit(s[i - from]));
        let d = digit_of(v[i]) as u64;
        proof {
            let t = s.take(i - from + 1);
            assert(t.drop_last() == s.take(i - from));
            lemma_decimal_value_of_prefix(s, i - from + 1);
        }
        if n > (u64::MAX - d) / 10 {
            return Err(Error::invalid_input(string_of_range(v, from, to), Cause::Overflow));
        }
        n = n * 10 + d;
        i += 1;
    }
    assert(s.take(to - from) == s);
    Ok(n)
}

/// Parses a decimal integer of 64 bits.
///
/// The text is accepted if and only if it is a sequence of one or more
/// decimal digits whose number is at most 18446744073709551615. Nothing
/// is trimmed and no sign is accepted. An error carries the whole text
/// and tells whether the text was empty, held another character than a
/// digit, or was too large.
pub fn parse_u64(s: &str) -> (r: Result<u64, Error>)
    ensures
        plain(r) == spec_parse_u64(s@),
{
    let v = to_chars(s);
    assert(v@.subrange(0, v@.len() as int) == v@);
    parse_u64_in(&v, 0, v.len())
}

/// Appends the decimal digits of `n` to `out`.
pub(crate) fn push_decimal(out: &mut Vec<char>, n: u64)
    ensures
        final(out)@ == old(out)@ + decimal_digits(n as nat),
    decreases n,
{
    if n < 10 {
        out.push(char_of_digit(n as u8));
    } else {
        push_decimal(out, n / 10);
        out.push(char_of_digit((n % 10) as u8));
    }
}

// ---------------------------------------------------------------------
// Quoted strings
// ---------------------------------------------------------------------

/// Whether `c` may not stand inside a quoted string: a double quote, a
/// Whether `c` may not stand inside a quoted string: a double quote, a
/// line feed or a carriage return.
pub open spec fn is_forbidden(c: char) -> bool {
    c == '"' || c == '\n' || c == '\r'
}

/// Whether `s` holds none of the characters that a quoted string forbids.
pub open spec fn is_quotable(s: Seq<char>) -> bool {
    forall|i: int| 0 <= i < s.len() ==> !is_forbidden(#[trigger] s[i])
}

/// Whether `s` holds no double quote.
pub open spec fn has_no_quote(s: Seq<char>) -> bool {
    forall|i: int| 0 <= i < s.len() ==> #[trigger] s[i] != '"'
}

/// The text without its double quotes, line feeds and carriage returns:
/// the other characters, in their order.
pub open spec fn spec_unquote(s: Seq<char>) -> Seq<char>
    decreases s.len(),
{
    if s.len() == 0 {
        Seq::empty()
    } else if is_forbidden(s.last()) {
        spec_unquote(s.drop_last())
    } else {
        spec_unquote(s.drop_last()).push(s.last())
    }
}

/// The text without its double quotes: the other characters, in their
/// order.
pub open spec fn without_quotes(s: Seq<char>) -> Seq<char>
    decreases s.len(),
{
    if s.len() == 0 {
        Seq::empty()
    } else if s.last() == '"' {
        without_quotes(s.drop_last())
    } else {
        without_quotes(s.drop_last()).push(s.last())
    }
}

/// The text without its double quotes, between two double quotes.
pub open spec fn spec_quote(s: Seq<char>) -> Seq<char> {
    seq!['"'] + without_quotes(s) + seq!['"']
}

/// What `unquote` does to a text that is made of two parts: it unquotes
/// each part.
proof fn lemma_unquote_concat(a: Seq<char>, b: Seq<char>)
    ensures
        spec_unquote(a + b) == spec_unquote(a) + spec_unquote(b),
    decreases b.len(),
{
    if b.len() == 0 {
        assert(a + b =~= a);
        assert(spec_unquote(a) + spec_unquote(b) =~= spec_unquote(a));
    } else {
        lemma_unquote_concat(a, b.drop_last());
        assert((a + b).drop_last() =~= a + b.drop_last());
        if !is_forbidden(b.last()) {
            assert(spec_unquote(a + b) =~= spec_unquote(a) + spec_unquote(b));
        }
    }
}

/// What removing the double quotes does to a text that is made of two
/// parts: it removes them from each part.
proof fn lemma_without_quotes_concat(a: Seq<char>, b: Seq<char>)
    ensures
        without_quotes(a + b) == without_quotes(a) + without_quotes(b),
    decreases b.len(),
{
    if b.len() == 0 {
        assert(a + b =~= a);
        assert(without_quotes(a) + without_quotes(b) =~= without_quotes(a));
    } else {
        lemma_without_quotes_concat(a, b.drop_last());
        assert((a + b).drop_last() =~= a + b.drop_last());
        if b.last() != '"' {
            assert(without_quotes(a + b) =~= without_quotes(a) + without_quotes(b));
        }
    }
}

/// `unquote` leaves none of the forbidden characters, never lengthens the
/// text, and leaves a text alone that holds none of them.
pub proof fn lemma_unquote_result(s: Seq<char>)
    ensures
        is_quotable(spec_unquote(s)),
        spec_unquote(s).len() <= s.len(),
        is_quotable(s) ==> spec_unquote(s) == s,
    decreases s.len(),
{
    if s.len() > 0 {
        lemma_unquote_result(s.drop_last());
        if is_quotable(s) {
            assert(is_quotable(s.drop_last())) by {
                assert forall|i: int| 0 <= i < s.drop_last().len() implies !is_forbidden(
                    #[trigger] s.drop_last()[i],
                ) by {
                    assert(s.drop_last()[i] == s[i]);
                }
            }
        }
    }
}

/// Removing the double quotes leaves none, never lengthens the text, and
/// leaves a text alone that holds none.
pub proof fn lemma_without_quotes_result(s: Seq<char>)
    ensures
        has_no_quote(without_quotes(s)),
        without_quotes(s).len() <= s.len(),
        has_no_quote(s) ==> without_quotes(s) == s,
    decreases s.len(),
{
    if s.len() > 0 {
        lemma_without_quotes_result(s.drop_last());
        if has_no_quote(s) {
            assert(has_no_quote(s.drop_last())) by {
                assert forall|i: int| 0 <= i < s.drop_last().len() implies 
                    #[trigger] s.drop_last()[i] != '"'
                 by {
                    assert(s.drop_last()[i] == s[i]);
                }
            }
        }
    }
}

/// Decides whether `v` holds none of the characters that a quoted
/// string forbids.
pub(crate) fn is_quotable_text(v: &Vec<char>) -> (b: bool)
    ensures
        b == is_quotable(v@),
{
    let mut i: usize = 0;
    while i < v.len()
        invariant
            i <= v.len(),
            forall|j: int| 0 <= j < i ==> !is_forbidden(#[trigger] v@[j]),
        decreases v.len() - i,
    {
        let c = v[i];
        if c == '"' || c == '\n' || c == '\r' {
            return false;
        }
        i += 1;
    }
    true
}

/// Appends to `out` the characters of `v[from..to]` that a quoted string
/// may hold.
pub(crate) fn push_unquoted(out: &mut Vec<char>, v: &Vec<char>, from: usize, to: usize)
    requires
        from <= to <= v.len(),
    ensures
        final(out)@ == old(out)@ + spec_unquote(v@.subrange(from as int, to as int)),
{
    let ghost s = v@.subrange(from as int, to as int);
    let mut i: usize = from;
    while i < to
        invariant
            from <= i <= to <= v.len(),
            s == v@.subrange(from as int, to as int),
            out@ == old(out)@ + spec_unquote(s.take(i - from)),
        decreases to - i,
    {
        let c = v[i];
        proof {
            let t = s.take(i - from + 1);
            assert(t.drop_last() =~= s.take(i - from));
        }
        if c != '"' && c != '\n' && c != '\r' {
            out.push(c);
        }
        i += 1;
    }
    assert(s.take(to - from) == s);
}

/// Appends to `out` the characters of `v[from..to]` between two double
/// quotes, leaving out every double quote among them.
pub(crate) fn push_quoted(out: &mut Vec<char>, v: &Vec<char>, from: usize, to: usize)
    requires
        from <= to <= v.len(),
    ensures
        final(out)@ == old(out)@ + spec_quote(v@.subrange(from as int, to as int)),
{
    let ghost s = v@.subrange(from as int, to as int);
    out.push('"');
    let mut i: usize = from;
    while i < to
        invariant
            from <= i <= to <= v.len(),
            s == v@.subrange(from as int, to as int),
            out@ == old(out)@ + seq!['"'] + without_quotes(s.take(i - from)),
        decreases to - i,
    {
        let c = v[i];
        proof {
            let t = s.take(i - from + 1);
            assert(t.drop_last() =~= s.take(i - from));
        }
        if c != '"' {
            out.push(c);
        }
        i += 1;
    }
    assert(s.take(to - from) == s);
    out.push('"');
}

/// Removes every double quote, line feed and carriage return from the
/// text. A quoted string may hold none of them, so they are deleted, not
/// escaped and not refused.
pub fn unquote(value: &str) -> (r: String)
    ensures
        r@ == spec_unquote(value@),
{
    let v = to_chars(value);
    let mut out: Vec<char> = Vec::new();
    assert(v@.subrange(0, v@.len() as int) == v@);
    push_unquoted(&mut out, &v, 0, v.len());
    string_of(&out)
}

/// Puts the text between two double quotes, after removing every double
/// quote that it holds.
pub fn quote(value: &str) -> (r: String)
    ensures
        r@ == spec_quote(value@),
{
    let v = to_chars(value);
    let mut out: Vec<char> = Vec::new();
    assert(v@.subrange(0, v@.len() as int) == v@);
    push_quoted(&mut out, &v, 0, v.len());
    string_of(&out)
}

/// Whatever the text, `unquote(quote(s))` is `unquote(s)`: quoting adds
/// nothing that unquoting leaves in.
pub proof fn lemma_unquote_quote_any(s: Seq<char>)
    ensures
        spec_unquote(spec_quote(s)) == spec_unquote(s),
{
    let q = seq!['"'];
    lemma_unquote_concat(q + without_quotes(s), q);
    lemma_unquote_concat(q, without_quotes(s));
    assert(spec_unquote(q) =~= Seq::<char>::empty()) by {
        assert(spec_unquote(q.drop_last()).len() == 0);
    }
    lemma_unquote_without_quotes(s);
}

/// Removing the double quotes first changes nothing of what `unquote`
/// leaves.
proof fn lemma_unquote_without_quotes(s: Seq<char>)
    ensures
        spec_unquote(without_quotes(s)) == spec_unquote(s),
    decreases s.len(),
{
    if s.len() > 0 {
        lemma_unquote_without_quotes(s.drop_last());
        if s.last() != '"' {
            let w = without_quotes(s);
            assert(w.drop_last() =~= without_quotes(s.drop_last()));
        }
    }
}

/// Unquoting undoes quoting: for a text that holds no double quote, line
/// feed or carriage return, `unquote(quote(s))` is `s`.
pub proof fn lemma_unquote_quote(s: Seq<char>)
    requires
        is_quotable(s),
    ensures
        spec_unquote(spec_quote(s)) == s,
{
    lemma_unquote_quote_any(s);
    lemma_unquote_result(s);
}

/// What `quote` returns begins and ends with a double quote and holds no
/// other: a double quote stands at an index if and only if the index is
/// the first or the last.
pub proof fn lemma_quote_is_safe(s: Seq<char>)
    ensures
        spec_quote(s).len() >= 2,
        forall|i: int|
            0 <= i < spec_quote(s).len() ==> ((#[trigger] spec_quote(s)[i] == '"') <==> (i == 0 || i
                == spec_quote(s).len() - 1)),
{
    let inner = without_quotes(s);
    let q = spec_quote(s);
    lemma_without_quotes_result(s);
    assert forall|i: int| 0 <= i < q.len() implies ((#[trigger] q[i] == '"') <==> (i == 0 || i
        == q.len() - 1)) by {
        if 0 < i < q.len() - 1 {
            assert(q[i] == inner[i - 1]);
        }
    }
}

/// Quoting a quoted text changes nothing: the quotes of the first round
/// are removed before the second wraps the text again.
pub proof fn lemma_quote_is_idempotent(s: Seq<char>)
    ensures
        spec_quote(spec_quote(s)) == spec_quote(s),
{
    let q = seq!['"'];
    let inner = without_quotes(s);
    lemma_without_quotes_concat(q + inner, q);
    lemma_without_quotes_concat(q, inner);
    assert(without_quotes(q) =~= Seq::<char>::empty()) by {
        assert(without_quotes(q.drop_last()).len() == 0);
    }
    lemma_without_quotes_result(s);
    lemma_without_quotes_result(inner);
}

// ---------------------------------------------------------------------
// Tag-line matcher
// ---------------------------------------------------------------------

/// What matching a line against a prefix gives: the text after the
/// prefix where the line begins with it, character for character, and
/// else an error that names the prefix and the line.
pub open spec fn spec_tag(input: Seq<char>, prefix: Seq<char>) -> Result<Seq<char>, ErrorView> {
    if prefix.is_prefix_of(input) {
        Ok(input.skip(prefix.len() as int))
    } else {
        Err(ErrorView::UnmatchedPrefix { expected: prefix, actual: input })
    }
}

/// Matches the line `v` against `prefix` and returns the index at which
/// the rest of the line begins.
pub(crate) fn tag_in(v: &Vec<char>, prefix: &str) -> (r: Result<usize, Error>)
    ensures
        match r {
            Ok(at) => at == prefix@.len() && at <= v.len() && spec_tag(v@, prefix@) == Ok::<
                Seq<char>,
                ErrorView,
            >(v@.skip(at as int)),
            Err(e) => spec_tag(v@, prefix@) == Err::<Seq<char>, ErrorView>(e@),
        },
{
    let p = to_chars(prefix);
    if starts_with_at(v, 0, &p) {
        Ok(p.len())
    } else {
        Err(Error::UnmatchedPrefix { expected: string_of(&p), actual: string_of(v) })
    }
}

/// Matches a line against the prefix of a tag.
///
/// Succeeds if and only if `input` begins with `prefix`, character for
/// character, and then returns everything after the prefix. Otherwise
/// the error names both the prefix that was expected and the line.
pub fn tag(input: &str, prefix: &str) -> (r: Result<String, Error>)
    ensures
        viewed(r) == spec_tag(input@, prefix@),
{
    let v = to_chars(input);
    match tag_in(&v, prefix) {
        Ok(at) => Ok(string_of_range(&v, at, v.len())),
        Err(e) => Err(e),
    }
}

/// What stands after the `:` that introduces the value of a tag: `rest`
/// without its first character where that is a `:`, and else an error
/// that carries `rest`.
pub open spec fn spec_after_colon(rest: Seq<char>) -> Result<Seq<char>, ErrorView> {
    if rest.len() > 0 && rest[0] == ':' {
        Ok(rest.skip(1))
    } else {
        Err(invalid(rest, Cause::MissingColon))
    }
}

/// What a line made of a prefix, a `:` and a value holds as its value.
pub open spec fn spec_tag_value(input: Seq<char>, prefix: Seq<char>) -> Result<
    Seq<char>,
    ErrorView,
> {
    match spec_tag(input, prefix) {
        Ok(rest) => spec_after_colon(rest),
        Err(e) => Err(e),
    }
}

/// What a line that may hold nothing but the prefix gives: nothing where
/// the line is the prefix, an error for an unmatched prefix, and else an
/// error that carries what follows the prefix.
pub open spec fn spec_bare_tag(input: Seq<char>, prefix: Seq<char>) -> Result<(), ErrorView> {
    match spec_tag(input, prefix) {
        Ok(rest) => if rest.len() == 0 {
            Ok(())
        } else {
            Err(invalid(rest, Cause::TrailingCharacters))
        },
        Err(e) => Err(e),
    }
}

/// Matches the line `v` against `prefix` followed by `:` and returns the
/// index at which the value begins.
pub(crate) fn tag_value_in(v: &Vec<char>, prefix: &str) -> (r: Result<usize, Error>)
    ensures
        match r {
            Ok(at) => at == prefix@.len() + 1 && at <= v.len() && spec_tag_value(v@, prefix@)
                == Ok::<Seq<char>, ErrorView>(v@.skip(at as int)),
            Err(e) => spec_tag_value(v@, prefix@) == Err::<Seq<char>, ErrorView>(e@),
        },
{
    let at = tag_in(v, prefix)?;
    if at < v.len() && v[at] == ':' {
        assert(v@.skip(at as int).skip(1) =~= v@.skip(at + 1));
        Ok(at + 1)
    } else {
        Err(Error::invalid_input(string_of_range(v, at, v.len()), Cause::MissingColon))
    }
}

/// Matches the line `v` against `prefix` and nothing more.
pub(crate) fn bare_tag_in(v: &Vec<char>, prefix: &str) -> (r: Result<(), Error>)
    ensures
        plain(r) == spec_bare_tag(v@, prefix@),
{
    let at = tag_in(v, prefix)?;
    if at == v.len() {
        Ok(())
    } else {
        Err(Error::invalid_input(string_of_range(v, at, v.len()), Cause::TrailingCharacters))
    }
}

/// The text of a line made of a prefix, a `:` and a value.
pub open spec fn spec_value_text(prefix: Seq<char>, value: Seq<char>) -> Seq<char> {
    prefix + seq![':'] + value
}

/// A line made of a prefix, a `:` and a value holds that value.
pub(crate) proof fn lemma_tag_value_of_text(prefix: Seq<char>, value: Seq<char>)
    ensures
        spec_tag_value(spec_value_text(prefix, value), prefix) == Ok::<Seq<char>, ErrorView>(value),
{
    let line = spec_value_text(prefix, value);
    assert(line.skip(prefix.len() as int).skip(1) =~= value);
}

/// A line that is a prefix and nothing more is accepted as such.
pub(crate) proof fn lemma_bare_tag_of_text(prefix: Seq<char>)
    ensures
        spec_bare_tag(prefix, prefix) == Ok::<(), ErrorView>(()),
{
    assert(prefix.subrange(0, prefix.len() as int) =~= prefix);
}

/// Parsing the decimal digits of a number of 64 bits gives the number.
pub proof fn lemma_parse_u64_of_digits(n: u64)
    ensures
        spec_parse_u64(decimal_digits(n as nat)) == Ok::<u64, ErrorView>(n),
{
    lemma_decimal_digits(n as nat);
}

/// Appends a prefix, a `:` and the decimal digits of `n` to `out`.
pub(crate) fn push_number_tag(out: &mut Vec<char>, prefix: &str, n: u64)
    ensures
        final(out)@ == old(out)@ + spec_value_text(prefix@, decimal_digits(n as nat)),
{
    push_str(out, prefix);
    out.push(':');
    push_decimal(out, n);
}

/// What a line made of a prefix, a `:` and a decimal integer holds as
/// its number.
pub open spec fn spec_number_tag(input: Seq<char>, prefix: Seq<char>) -> Result<u64, ErrorView> {
    match spec_tag_value(input, prefix) {
        Ok(value) => spec_parse_u64(value),
        Err(e) => Err(e),
    }
}

/// Reads the line `v` as a prefix, a `:` and a decimal integer.
pub(crate) fn number_tag_in(v: &Vec<char>, prefix: &str) -> (r: Result<u64, Error>)
    ensures
        plain(r) == spec_number_tag(v@, prefix@),
{
    let at = tag_value_in(v, prefix)?;
    parse_u64_in(v, at, v.len())
}

/// Reading the text of a number tag gives the number back.
pub proof fn lemma_number_tag_round_trip(prefix: Seq<char>, n: u64)
    ensures
        spec_number_tag(spec_value_text(prefix, decimal_digits(n as nat)), prefix) == Ok::<
            u64,
            ErrorView,
        >(n),
{
    lemma_tag_value_of_text(prefix, decimal_digits(n as nat));
    lemma_parse_u64_of_digits(n);
}

} // verus!

//! Durations in seconds with a decimal fraction.
use vstd::prelude::*;
use crate::error::{invalid, Cause, Error, ErrorView};
use crate::text::{
    find_char, first_index_of, is_first_index_of, lemma_first_index_is, string_of, string_of_range,
    to_chars,
};
use crate::utils::{
    all_digits, all_digits_in, char_of_digit, decimal_digits, decimal_value, digit_char, digit_of,
    is_digit, lemma_decimal_digits, parse_u64_in, push_decimal, spec_parse_u64, viewed,
};

verus! {

/// The number of nanoseconds in a second.
pub const NANOS_PER_SECOND: u32 = 1_000_000_000;

/// The mathematical value of a [`Seconds`]: whole seconds and the
/// nanoseconds of the fraction, which are fewer than a second.
pub struct SecondsView {
    pub whole: u64,
    pub nanos: u32,
}

/// A duration in seconds, exact to the nanosecond.
#[derive(Debug, Clone, Copy, PartialEq, Eq, Hash)]
pub struct Seconds {
    whole: u64,
    nanos: u32,
}

impl View for Seconds {
    type V = SecondsView;

    closed spec fn view(&self) -> SecondsView {
        SecondsView { whole: self.whole, nanos: self.nanos }
    }
}

/// Ten to the power of `k`.
pub open spec fn pow10(k: nat) -> nat
    decreases k,
{
    if k == 0 {
        1
    } else {
        10 * pow10((k - 1) as nat)
    }
}

/// The last `width` decimal digits of `n`, the most significant first,
/// with leading zeros where `n` has fewer.
pub open spec fn fixed_digits(n: nat, width: nat) -> Seq<char>
    decreases width,
{
    if width == 0 {
        Seq::empty()
    } else {
        fixed_digits(n / 10, (width - 1) as nat).push(digit_char(n % 10))
    }
}

/// `s` without the zeros at its end.
pub open spec fn without_trailing_zeros(s: Seq<char>) -> Seq<char>
    decreases s.len(),
{
    if s.len() > 0 && s.last() == '0' {
        without_trailing_zeros(s.drop_last())
    } else {
        s
    }
}

/// The digits of a fraction of `nanos` nanoseconds: the nine digits of
/// `nanos`, without the zeros at their end.
pub open spec fn spec_fraction_text(nanos: nat) -> Seq<char> {
    without_trailing_zeros(fixed_digits(nanos, 9))
}

/// The text of a duration: the whole seconds in decimal digits, and for
/// a duration with a fraction a `.` and the digits of the fraction.
pub open spec fn spec_seconds_text(d: SecondsView) -> Seq<char> {
    if d.nanos == 0 {
        decimal_digits(d.whole as nat)
    } else {
        decimal_digits(d.whole as nat) + seq!['.'] + spec_fraction_text(d.nanos as nat)
    }
}

/// What the digits after the `.` of a duration mean, in nanoseconds: the
/// number of the digits, scaled as if zeros filled them up to nine. No
/// digit and more than nine digits are refused, and so is any other
/// character than a digit, each with the fraction as context.
pub open spec fn spec_parse_fraction(frac: Seq<char>) -> Result<u32, ErrorView> {
    if frac.len() == 0 || frac.len() > 9 {
        Err(invalid(frac, Cause::BadFraction))
    } else if !all_digits(frac) {
        Err(invalid(frac, Cause::NotADigit))
    } else {
        Ok((decimal_value(frac) * pow10((9 - frac.len()) as nat)) as u32)
    }
}

/// What the text of a duration means: a decimal integer of 64 bits for
/// the whole seconds, and after the first `.`, if there is one, the
/// fraction.
pub open spec fn spec_parse_seconds(text: Seq<char>) -> Result<SecondsView, ErrorView> {
    let k = first_index_of(text, '.');
    match spec_parse_u64(text.take(k)) {
        Err(e) => Err(e),
        Ok(whole) => if k == text.len() {
            Ok(SecondsView { whole, nanos: 0 })
        } else {
            match spec_parse_fraction(text.skip(k + 1)) {
                Err(e) => Err(e),
                Ok(nanos) => Ok(SecondsView { whole, nanos }),
            }
        },
    }
}

/// The powers of ten up to the ninth.
proof fn lemma_pow10_values()
    ensures
        pow10(0) == 1,
        pow10(1) == 10,
        pow10(2) == 100,
        pow10(3) == 1_000,
        pow10(4) == 10_000,
        pow10(5) == 100_000,
        pow10(6) == 1_000_000,
        pow10(7) == 10_000_000,
        pow10(8) == 100_000_000,
        pow10(9) == 1_000_000_000,
{
    reveal_with_fuel(pow10, 10);
}

/// A sequence of decimal digits denotes a number below ten to the power
/// of its length.
proof fn lemma_decimal_value_bound(s: Seq<char>)
    requires
        all_digits(s),
    ensures
        decimal_value(s) < pow10(s.len()),
    decreases s.len(),
{
    if s.len() > 0 {
        assert(all_digits(s.drop_last())) by {
            assert forall|i: int| 0 <= i < s.drop_last().len() implies is_digit(
                #[trigger] s.drop_last()[i],
            ) by {
                assert(s.drop_last()[i] == s[i]);
            }
        }
        lemma_decimal_value_bound(s.drop_last());
    }
}

/// The fixed digits of a number are as many digits as asked for, and
/// denote the number where it is below ten to the power of the width.
proof fn lemma_fixed_digits(n: nat, width: nat)
    ensures
        fixed_digits(n, width).len() == width,
        all_digits(fixed_digits(n, width)),
        n < pow10(width) ==> decimal_value(fixed_digits(n, width)) == n,
    decreases width,
{
    if width > 0 {
        lemma_fixed_digits(n / 10, (width - 1) as nat);
        let s = fixed_digits(n, width);
        assert(s.drop_last() =~= fixed_digits(n / 10, (width - 1) as nat));
    }
}

/// What a sequence of digits keeps when the zeros at its end are taken
/// away: it is a beginning of the digits, and its number, scaled by ten
/// for each zero that was taken, is the number of the digits. It is
/// empty only where the number is zero.
proof fn lemma_without_trailing_zeros(s: Seq<char>)
    requires
        all_digits(s),
    ensures
        without_trailing_zeros(s).len() <= s.len(),
        without_trailing_zeros(s) == s.take(without_trailing_zeros(s).len() as int),
        all_digits(without_trailing_zeros(s)),
        decimal_value(s) == decimal_value(without_trailing_zeros(s)) * pow10(
            (s.len() - without_trailing_zeros(s).len()) as nat,
        ),
        decimal_value(s) != 0 ==> without_trailing_zeros(s).len() >= 1,
    decreases s.len(),
{
    let t = without_trailing_zeros(s);
    if s.len() > 0 && s.last() == '0' {
        let front = s.drop_last();
        assert(all_digits(front)) by {
            assert forall|i: int| 0 <= i < front.len() implies is_digit(#[trigger] front[i]) by {
                assert(front[i] == s[i]);
            }
        }
        lemma_without_trailing_zeros(front);
        let v = decimal_value(t);
        let p = pow10((front.len() - t.len()) as nat);
        assert(v * p * 10 == v * (10 * p)) by (nonlinear_arith);
    } else {
        assert(decimal_value(s) * pow10(0) == decimal_value(s)) by (nonlinear_arith)
            requires
                pow10(0) == 1,
        ;
    }
}

/// The digits of the fraction of a number of nanoseconds that is not
/// zero, and is below a second, are one to nine digits, and read back as
/// the nanoseconds.
proof fn lemma_fraction_round_trip(nanos: nat)
    requires
        0 < nanos < NANOS_PER_SECOND,
    ensures
        1 <= spec_fraction_text(nanos).len() <= 9,
        all_digits(spec_fraction_text(nanos)),
        spec_parse_fraction(spec_fraction_text(nanos)) == Ok::<u32, ErrorView>(nanos as u32),
{
    lemma_pow10_values();
    lemma_fixed_digits(nanos, 9);
    lemma_without_trailing_zeros(fixed_digits(nanos, 9));
}

impl Seconds {
    /// What holds of every duration: its nanoseconds are fewer than a
    /// second.
    #[verifier::type_invariant]
    pub open spec fn wf(&self) -> bool {
        self@.nanos < NANOS_PER_SECOND
    }

    /// Makes a duration of `whole` seconds and `nanos` nanoseconds, or
    /// `None` where `nanos` is a second or more.
    pub fn new(whole: u64, nanos: u32) -> (r: Option<Seconds>)
        ensures
            match r {
                Some(d) => nanos < NANOS_PER_SECOND && d@ == (SecondsView { whole, nanos })
                    && d.wf(),
                None => nanos >= NANOS_PER_SECOND,
            },
    {
        if nanos < NANOS_PER_SECOND {
            Some(Seconds { whole, nanos })
        } else {
            None
        }
    }

    /// Makes a duration of `whole` seconds.
    pub fn from_secs(whole: u64) -> (d: Seconds)
        ensures
            d@ == (SecondsView { whole, nanos: 0 }),
            d.wf(),
    {
        Seconds { whole, nanos: 0 }
    }

    /// Returns the whole seconds of the duration.
    pub fn whole(&self) -> (n: u64)
        ensures
            n == self@.whole,
    {
        self.whole
    }

    /// Returns the nanoseconds of the fraction of the duration.
    pub fn nanos(&self) -> (n: u32)
        ensures
            n == self@.nanos,
    {
        self.nanos
    }

    /// Returns whether the duration is a whole number of seconds.
    pub fn is_whole(&self) -> (b: bool)
        ensures
            b == (self@.nanos == 0),
    {
        self.nanos == 0
    }

    /// Reads `v[from..to]` as a duration.
    pub(crate) fn parse_in(v: &Vec<char>, from: usize, to: usize) -> (r: Result<Seconds, Error>)
        requires
            from <= to <= v.len(),
        ensures
            viewed(r) == spec_parse_seconds(v@.subrange(from as int, to as int)),
            r matches Ok(d) ==> d.wf(),
    {
        let ghost text = v@.subrange(from as int, to as int);
        let k = find_char(v, from, to, '.');
        assert(text.take(k - from) =~= v@.subrange(from as int, k as int));
        let whole = parse_u64_in(v, from, k)?;
        if k == to {
            return Ok(Seconds { whole, nanos: 0 });
        }
        assert(text.skip(k - from + 1) =~= v@.subrange(k + 1, to as int));
        let nanos = parse_fraction_in(v, k + 1, to)?;
        Ok(Seconds { whole, nanos })
    }

    /// Reads a text as a duration in seconds: decimal digits, and after a
    /// `.`, if there is one, one to nine more.
    pub fn parse(input: &str) -> (r: Result<Seconds, Error>)
        ensures
            viewed(r) == spec_parse_seconds(input@),
            r matches Ok(d) ==> d.wf(),
    {
        let v = to_chars(input);
        assert(v@.subrange(0, v@.len() as int) == v@);
        Self::parse_in(&v, 0, v.len())
    }

    /// Appends the text of the duration to `out`.
    pub fn push_text(&self, out: &mut Vec<char>)
        ensures
            final(out)@ == old(out)@ + spec_seconds_text(self@),
    {
        push_decimal(out, self.whole);
        if self.nanos != 0 {
            out.push('.');
            push_fraction(out, self.nanos);
        }
    }

    /// Returns the text of the duration.
    pub fn to_string(&self) -> (s: String)
        ensures
            s@ == spec_seconds_text(self@),
    {
        let mut out: Vec<char> = Vec::new();
        self.push_text(&mut out);
        string_of(&out)
    }
}

/// Reads the digits `v[from..to]` after the `.` of a duration.
fn parse_fraction_in(v: &Vec<char>, from: usize, to: usize) -> (r: Result<u32, Error>)
    requires
        from <= to <= v.len(),
    ensures
        crate::utils::plain(r) == spec_parse_fraction(v@.subrange(from as int, to as int)),
        r matches Ok(n) ==> n < NANOS_PER_SECOND,
{
    let ghost frac = v@.subrange(from as int, to as int);
    if from == to || to - from > 9 {
        return Err(Error::invalid_input(string_of_range(v, from, to), Cause::BadFraction));
    }
    if !all_digits_in(v, from, to) {
        return Err(Error::invalid_input(string_of_range(v, from, to), Cause::NotADigit));
    }
    let len: usize = to - from;
    let mut n: u32 = 0;
    let mut i: usize = from;
    proof {
        lemma_pow10_values();
    }
    while i < to
        invariant
            from <= i <= to <= v.len(),
            to - from <= 9,
            frac == v@.subrange(from as int, to as int),
            all_digits(frac),
            n == decimal_value(frac.take(i - from)),
            n < pow10((i - from) as nat),
        decreases to - i,
    {
        assert(is_digit(frac[i - from]));
        let d = digit_of(v[i]) as u32;
        proof {
            let t = frac.take(i - from + 1);
            assert(t.drop_last() =~= frac.take(i - from));
            lemma_pow10_values();
        }
        n = n * 10 + d;
        i += 1;
    }
    assert(frac.take(to - from) == frac);
    let ghost value = n as nat;
    let mut j: usize = len;
    proof {
        lemma_pow10_values();
        assert(value * pow10(0) == value) by (nonlinear_arith)
            requires
                pow10(0) == 1,
        ;
    }
    while j < 9
        invariant
            len <= j <= 9,
            n == value * pow10((j - len) as nat),
            n < pow10(j as nat),
        decreases 9 - j,
    {
        proof {
            lemma_pow10_values();
            let p = pow10((j - len) as nat);
            assert(value * p * 10 == value * (10 * p)) by (nonlinear_arith);
        }
        n = n * 10;
        j += 1;
    }
    proof {
        lemma_pow10_values();
    }
    Ok(n)
}

/// Appends the last `width` decimal digits of `n` to `out`.
fn push_fixed(out: &mut Vec<char>, n: u32, width: u8)
    ensures
        final(out)@ == old(out)@ + fixed_digits(n as nat, width as nat),
    decreases width,
{
    if width > 0 {
        push_fixed(out, n / 10, width - 1);
        out.push(char_of_digit((n % 10) as u8));
    } else {
        assert(out@ =~= old(out)@ + fixed_digits(n as nat, width as nat));
    }
}

/// Appends the digits of the fraction of `nanos` nanoseconds to `out`.
fn push_fraction(out: &mut Vec<char>, nanos: u32)
    ensures
        final(out)@ == old(out)@ + spec_fraction_text(nanos as nat),
{
    let mut digits: Vec<char> = Vec::new();
    push_fixed(&mut digits, nanos, 9);
    proof {
        lemma_fixed_digits(nanos as nat, 9);
    }
    let mut end: usize = digits.len();
    assert(digits@.take(end as int) =~= digits@);
    while end > 0 && digits[end - 1] == '0'
        invariant
            end <= digits.len(),
            without_trailing_zeros(digits@) == without_trailing_zeros(digits@.take(end as int)),
        decreases end,
    {
        assert(digits@.take(end as int).drop_last() =~= digits@.take(end - 1));
        end -= 1;
    }
    assert(without_trailing_zeros(digits@) == digits@.take(end as int)) by {
        let kept = digits@.take(end as int);
        if end > 0 {
            assert(kept.last() == digits@[end - 1]);
        }
    }
    let mut i: usize = 0;
    while i < end
        invariant
            i <= end <= digits.len(),
            out@ == old(out)@ + digits@.take(i as int),
        decreases end - i,
    {
        out.push(digits[i]);
        i += 1;
    }
}

/// The text of a duration holds digits and at most one `.`, and no other
/// character.
pub(crate) proof fn lemma_seconds_text_chars(d: SecondsView)
    ensures
        forall|i: int|
            0 <= i < spec_seconds_text(d).len() ==> {
                let c = #[trigger] spec_seconds_text(d)[i];
                is_digit(c) || c == '.'
            },
{
    lemma_decimal_digits(d.whole as nat);
    lemma_fixed_digits(d.nanos as nat, 9);
    lemma_without_trailing_zeros(fixed_digits(d.nanos as nat, 9));
    let t = spec_seconds_text(d);
    let w = decimal_digits(d.whole as nat);
    let f = spec_fraction_text(d.nanos as nat);
    assert forall|i: int| 0 <= i < t.len() implies {
        let c = #[trigger] t[i];
        is_digit(c) || c == '.'
    } by {
        if i < w.len() {
            assert(t[i] == w[i]);
        } else if d.nanos != 0 && i > w.len() {
            assert(t[i] == f[i - w.len() - 1]);
        }
    }
}

/// Reading the text of a duration gives the duration back.
pub proof fn lemma_seconds_round_trip(d: SecondsView)
    requires
        d.nanos < NANOS_PER_SECOND,
    ensures
        spec_parse_seconds(spec_seconds_text(d)) == Ok::<SecondsView, ErrorView>(d),
{
    lemma_decimal_digits(d.whole as nat);
    let t = spec_seconds_text(d);
    let w = decimal_digits(d.whole as nat);
    let f = spec_fraction_text(d.nanos as nat);
    let k = w.len() as int;
    assert(is_first_index_of(t, '.', k)) by {
        assert forall|j: int| 0 <= j < k implies t[j] != '.' by {
            assert(t[j] == w[j]);
            assert(is_digit(w[j]));
        }
    }
    lemma_first_index_is(t, '.', k);
    assert(t.take(k) =~= w);
    if d.nanos != 0 {
        lemma_fraction_round_trip(d.nanos as nat);
        assert(t.skip(k + 1) =~= f);
    }
}

/// The nanoseconds that a fraction gives are fewer than a second.
proof fn lemma_parsed_fraction_bound(frac: Seq<char>)
    ensures
        spec_parse_fraction(frac) matches Ok(nanos) ==> nanos < NANOS_PER_SECOND && nanos
            == decimal_value(frac) * pow10((9 - frac.len()) as nat),
{
    if 1 <= frac.len() <= 9 && all_digits(frac) {
        lemma_decimal_value_bound(frac);
        lemma_pow10_values();
        let v = decimal_value(frac);
        let p1 = pow10(frac.len());
        let p2 = pow10((9 - frac.len()) as nat);
        assert(p1 * p2 == 1_000_000_000) by {
            if frac.len() == 1 {
                assert(pow10(1) * pow10(8) == 1_000_000_000);
            } else if frac.len() == 2 {
                assert(pow10(2) * pow10(7) == 1_000_000_000);
            } else if frac.len() == 3 {
                assert(pow10(3) * pow10(6) == 1_000_000_000);
            } else if frac.len() == 4 {
                assert(pow10(4) * pow10(5) == 1_000_000_000);
            } else if frac.len() == 5 {
                assert(pow10(5) * pow10(4) == 1_000_000_000);
            } else if frac.len() == 6 {
                assert(pow10(6) * pow10(3) == 1_000_000_000);
            } else if frac.len() == 7 {
                assert(pow10(7) * pow10(2) == 1_000_000_000);
            } else if frac.len() == 8 {
                assert(pow10(8) * pow10(1) == 1_000_000_000);
            } else {
                assert(pow10(9) * pow10(0) == 1_000_000_000);
            }
        }
        assert(v * p2 < p1 * p2) by (nonlinear_arith)
            requires
                v < p1,
                p2 > 0,
        ;
    }
}

/// The duration that a text gives has fewer nanoseconds than a second.
pub proof fn lemma_parsed_seconds_bound(text: Seq<char>)
    ensures
        spec_parse_seconds(text) matches Ok(d) ==> d.nanos < NANOS_PER_SECOND,
{
    let k = first_index_of(text, '.');
    lemma_parsed_fraction_bound(text.skip(k + 1));
}

} // verus!

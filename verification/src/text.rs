//! Conversions between Rust strings and the character sequences that the
//! parsers and serializers of this crate work on.
//!
//! Every contract in the crate speaks of text as a `Seq<char>`, the view of a
//! `&str` or `String`. The executable code reads a line once into a
//! `Vec<char>`, works on that by index, and builds its output the same way.
use vstd::prelude::*;

verus! {

/// Trusted: `String::push` of the standard library appends the given
/// character to the end of the string and changes nothing else.
pub assume_specification[ String::push ](s: &mut String, c: char)
    ensures
        final(s)@ == old(s)@.push(c),
;

/// The characters of `s`, in order.
pub fn to_chars(s: &str) -> (v: Vec<char>)
    ensures
        v@ == s@,
{
    let mut v: Vec<char> = Vec::new();
    for c in it: s.chars()
        invariant
            v@ == it.seq().take(it.index() as int),
            it.seq() == s@,
    {
        v.push(c);
    }
    v
}

/// The string made of the characters `v[from..to]`.
pub(crate) fn string_of_range(v: &Vec<char>, from: usize, to: usize) -> (s: String)
    requires
        from <= to <= v.len(),
    ensures
        s@ == v@.subrange(from as int, to as int),
{
    let mut s = String::new();
    let mut i: usize = from;
    while i < to
        invariant
            from <= i <= to <= v.len(),
            s@ == v@.subrange(from as int, i as int),
        decreases to - i,
    {
        s.push(v[i]);
        i += 1;
    }
    s
}

/// The string made of the characters of `v`.
pub fn string_of(v: &Vec<char>) -> (s: String)
    ensures
        s@ == v@,
{
    let s = string_of_range(v, 0, v.len());
    s
}

/// Appends the characters of `tail` to `out`.
pub fn push_all(out: &mut Vec<char>, tail: &Vec<char>)
    ensures
        final(out)@ == old(out)@ + tail@,
{
    let mut i: usize = 0;
    while i < tail.len()
        invariant
            i <= tail.len(),
            out@ == old(out)@ + tail@.take(i as int),
        decreases tail.len() - i,
    {
        out.push(tail[i]);
        i += 1;
    }
}

/// Appends the characters of `tail` to `out`.
pub fn push_str(out: &mut Vec<char>, tail: &str)
    ensures
        final(out)@ == old(out)@ + tail@,
{
    let t = to_chars(tail);
    push_all(out, &t);
}

/// Whether the characters of `v` from index `at` on begin with `p`.
pub open spec fn spec_starts_with_at(v: Seq<char>, at: int, p: Seq<char>) -> bool {
    0 <= at <= v.len() && p.is_prefix_of(v.skip(at))
}

/// Decides whether `v[at..]` begins with `p`.
pub(crate) fn starts_with_at(v: &Vec<char>, at: usize, p: &Vec<char>) -> (b: bool)
    requires
        at <= v.len(),
    ensures
        b == spec_starts_with_at(v@, at as int, p@),
{
    if p.len() > v.len() - at {
        return false;
    }
    let mut i: usize = 0;
    while i < p.len()
        invariant
            at <= v.len(),
            p.len() <= v.len() - at,
            i <= p.len(),
            forall|j: int| 0 <= j < i ==> v@[at + j] == p@[j],
        decreases p.len() - i,
    {
        if v[at + i] != p[i] {
            return false;
        }
        i += 1;
    }
    true
}

/// Decides whether two character vectors hold the same text.
pub fn same_text(a: &Vec<char>, b: &Vec<char>) -> (r: bool)
    ensures
        r == (a@ == b@),
{
    if a.len() != b.len() {
        return false;
    }
    let mut i: usize = 0;
    while i < a.len()
        invariant
            a.len() == b.len(),
            i <= a.len(),
            forall|j: int| 0 <= j < i ==> a@[j] == b@[j],
        decreases a.len() - i,
    {
        if a[i] != b[i] {
            return false;
        }
        i += 1;
    }
    assert(a@ =~= b@);
    true
}

/// Whether `k` is the index of the first `c` in `s`, or the length of
/// `s` where it holds none.
pub open spec fn is_first_index_of(s: Seq<char>, c: char, k: int) -> bool {
    &&& 0 <= k <= s.len()
    &&& k < s.len() ==> s[k] == c
    &&& forall|j: int| 0 <= j < k ==> s[j] != c
}

/// The index of the first `c` in `s`, or the length of `s` where it
/// holds none.
pub open spec fn first_index_of(s: Seq<char>, c: char) -> int {
    choose|k: int| is_first_index_of(s, c, k)
}

/// There is exactly one index that is that of the first `c` in `s`.
pub(crate) proof fn lemma_first_index_is(s: Seq<char>, c: char, k: int)
    requires
        is_first_index_of(s, c, k),
    ensures
        first_index_of(s, c) == k,
{
    let f = first_index_of(s, c);
    if f < k {
        assert(s[f] != c);
    }
    if k < f {
        assert(s[k] != c);
    }
}

/// Every text has a first index of a character, or none.
pub(crate) proof fn lemma_first_index_exists(s: Seq<char>, c: char)
    ensures
        is_first_index_of(s, c, first_index_of(s, c)),
{
    let k = lemma_search_first_index(s, c, 0);
    lemma_first_index_is(s, c, k);
}

/// Searches for the first `c` in `s` from index `i` on.
proof fn lemma_search_first_index(s: Seq<char>, c: char, i: int) -> (k: int)
    requires
        0 <= i <= s.len(),
        forall|j: int| 0 <= j < i ==> s[j] != c,
    ensures
        is_first_index_of(s, c, k),
    decreases s.len() - i,
{
    if i == s.len() || s[i] == c {
        i
    } else {
        lemma_search_first_index(s, c, i + 1)
    }
}

/// Finds the first `c` in `v[from..to]`; returns `to` where there is none.
pub(crate) fn find_char(v: &Vec<char>, from: usize, to: usize, c: char) -> (k: usize)
    requires
        from <= to <= v.len(),
    ensures
        from <= k <= to,
        is_first_index_of(v@.subrange(from as int, to as int), c, k - from),
        first_index_of(v@.subrange(from as int, to as int), c) == k - from,
{
    let ghost s = v@.subrange(from as int, to as int);
    let mut k: usize = from;
    while k < to && v[k] != c
        invariant
            from <= k <= to <= v.len(),
            s == v@.subrange(from as int, to as int),
            forall|j: int| 0 <= j < k - from ==> s[j] != c,
        decreases to - k,
    {
        k += 1;
    }
    proof {
        lemma_first_index_is(s, c, k - from);
    }
    k
}

} // verus!

//! The initialization vector of an encryption key.
use vstd::prelude::*;
use crate::error::{invalid, Cause, Error, ErrorView};
use crate::text::{string_of_range, to_chars};
use crate::utils::viewed;

verus! {

/// An initialization vector of 128 bits, written in a playlist as `0x`
/// and thirty-two hexadecimal digits.
#[derive(Debug, Clone, Copy, PartialEq, Eq, Hash)]
pub struct InitializationVector {
    bytes: [u8; 16],
}

impl View for InitializationVector {
    type V = Seq<u8>;

    /// The sixteen bytes of the vector, the first written first.
    closed spec fn view(&self) -> Seq<u8> {
        self.bytes@
    }
}

/// Whether `c` is a hexadecimal digit, in either case.
pub open spec fn is_hex_digit(c: char) -> bool {
    ('0' <= c && c <= '9') || ('a' <= c && c <= 'f') || ('A' <= c && c <= 'F')
}

/// The number that the hexadecimal digit `c` stands for.
pub open spec fn hex_value(c: char) -> nat {
    if '0' <= c && c <= '9' {
        (c as u32 - '0' as u32) as nat
    } else if 'a' <= c && c <= 'f' {
        (c as u32 - 'a' as u32 + 10) as nat
    } else {
        (c as u32 - 'A' as u32 + 10) as nat
    }
}

/// The hexadecimal digit, in lower case, that stands for `d`, where `d`
/// is below sixteen.
pub open spec fn hex_char(d: nat) -> char {
    if d == 0 {
        '0'
    } else if d == 1 {
        '1'
    } else if d == 2 {
        '2'
    } else if d == 3 {
        '3'
    } else if d == 4 {
        '4'
    } else if d == 5 {
        '5'
    } else if d == 6 {
        '6'
    } else if d == 7 {
        '7'
    } else if d == 8 {
        '8'
    } else if d == 9 {
        '9'
    } else if d == 10 {
        'a'
    } else if d == 11 {
        'b'
    } else if d == 12 {
        'c'
    } else if d == 13 {
        'd'
    } else if d == 14 {
        'e'
    } else {
        'f'
    }
}

/// The hexadecimal digit at index `i` of the text of `bytes`: two
/// digits for each byte, the high half first.
pub open spec fn hex_digit_at(bytes: Seq<u8>, i: int) -> char {
    if i % 2 == 0 {
        hex_char(bytes[i / 2] as nat / 16)
    } else {
        hex_char(bytes[i / 2] as nat % 16)
    }
}

/// The text of an initialization vector: `0x` and two hexadecimal digits
/// in lower case for each byte.
pub open spec fn spec_iv_text(bytes: Seq<u8>) -> Seq<char> {
    Seq::new(2 + 2 * bytes.len(), |i: int| if i == 0 {
        '0'
    } else if i == 1 {
        'x'
    } else {
        hex_digit_at(bytes, i - 2)
    })
}

/// The byte that two hexadecimal digits stand for.
pub open spec fn byte_of_hex(high: char, low: char) -> u8 {
    (hex_value(high) * 16 + hex_value(low)) as u8
}

/// Whether `s` is the text of an initialization vector: `0x` or `0X` and
/// thirty-two hexadecimal digits.
pub open spec fn is_iv_text(s: Seq<char>) -> bool {
    &&& s.len() == 34
    &&& s[0] == '0'
    &&& (s[1] == 'x' || s[1] == 'X')
    &&& forall|i: int| 2 <= i < 34 ==> is_hex_digit(#[trigger] s[i])
}

/// What the text of an initialization vector means: the sixteen bytes of
/// its digits. Any other text is refused, with the text as context.
pub open spec fn spec_parse_iv(s: Seq<char>) -> Result<Seq<u8>, ErrorView> {
    if is_iv_text(s) {
        Ok(Seq::new(16, |i: int| byte_of_hex(s[2 + 2 * i], s[3 + 2 * i])))
    } else {
        Err(invalid(s, Cause::NotHexadecimal))
    }
}

/// Returns the number of the hexadecimal digit `c`, or `None` where `c`
/// is no such digit.
pub(crate) fn hex_digit_of(c: char) -> (r: Option<u8>)
    ensures
        match r {
            Some(d) => is_hex_digit(c) && d == hex_value(c) && d < 16,
            None => !is_hex_digit(c),
        },
{
    if '0' <= c && c <= '9' {
        Some((c as u32 - '0' as u32) as u8)
    } else if 'a' <= c && c <= 'f' {
        Some((c as u32 - 'a' as u32 + 10) as u8)
    } else if 'A' <= c && c <= 'F' {
        Some((c as u32 - 'A' as u32 + 10) as u8)
    } else {
        None
    }
}

/// Returns the hexadecimal digit of `d`, in lower case.
pub(crate) fn char_of_hex_digit(d: u8) -> (c: char)
    requires
        d < 16,
    ensures
        c == hex_char(d as nat),
{
    match d {
        0 => '0',
        1 => '1',
        2 => '2',
        3 => '3',
        4 => '4',
        5 => '5',
        6 => '6',
        7 => '7',
        8 => '8',
        9 => '9',
        10 => 'a',
        11 => 'b',
        12 => 'c',
        13 => 'd',
        14 => 'e',
        _ => 'f',
    }
}

impl InitializationVector {
    /// Makes the initialization vector of the given bytes.
    pub fn new(bytes: [u8; 16]) -> (iv: InitializationVector)
        ensures
            iv@ == bytes@,
            iv@.len() == 16,
    {
        InitializationVector { bytes }
    }

    /// An initialization vector has sixteen bytes.
    pub proof fn lemma_has_sixteen_bytes(self)
        ensures
            self@.len() == 16,
    {
    }

    /// Returns the bytes of the vector.
    pub fn bytes(&self) -> (bytes: [u8; 16])
        ensures
            bytes@ == self@,
            self@.len() == 16,
    {
        self.bytes
    }

    /// Reads `v[from..to]` as an initialization vector.
    pub(crate) fn parse_in(v: &Vec<char>, from: usize, to: usize) -> (r: Result<
        InitializationVector,
        Error,
    >)
        requires
            from <= to <= v.len(),
        ensures
            viewed(r) == spec_parse_iv(v@.subrange(from as int, to as int)),
    {
        let ghost s = v@.subrange(from as int, to as int);
        if to - from != 34 || v[from] != '0' || (v[from + 1] != 'x' && v[from + 1] != 'X') {
            assert(!is_iv_text(s)) by {
                if s.len() == 34 {
                    assert(s[0] == v@[from as int]);
                    assert(s[1] == v@[from + 1]);
                }
            }
            return Err(Error::invalid_input(string_of_range(v, from, to), Cause::NotHexadecimal));
        }
        let mut bytes: [u8; 16] = [0u8; 16];
        let mut i: usize = 0;
        while i < 16
            invariant
                i <= 16,
                from + 34 == to <= v.len(),
                s == v@.subrange(from as int, to as int),
                forall|j: int| 2 <= j < 2 + 2 * i ==> is_hex_digit(#[trigger] s[j]),
                forall|j: int|
                    0 <= j < i ==> #[trigger] bytes@[j] == byte_of_hex(s[2 + 2 * j], s[3 + 2 * j]),
            decreases 16 - i,
        {
            let high = hex_digit_of(v[from + 2 + 2 * i]);
            let low = hex_digit_of(v[from + 3 + 2 * i]);
            assert(s[2 + 2 * i] == v@[from + 2 + 2 * i]);
            assert(s[3 + 2 * i] == v@[from + 3 + 2 * i]);
            match (high, low) {
                (Some(h), Some(l)) => {
                    bytes[i] = h * 16 + l;
                },
                _ => {
                    return Err(
                        Error::invalid_input(string_of_range(v, from, to), Cause::NotHexadecimal),
                    );
                },
            }
            i += 1;
        }
        assert(is_iv_text(s)) by {
            assert(s[0] == v@[from as int]);
            assert(s[1] == v@[from + 1]);
        }
        assert(bytes@ =~= Seq::new(16, |i: int| byte_of_hex(s[2 + 2 * i], s[3 + 2 * i])));
        Ok(InitializationVector { bytes })
    }

    /// Reads a text as an initialization vector.
    pub fn parse(input: &str) -> (r: Result<InitializationVector, Error>)
        ensures
            viewed(r) == spec_parse_iv(input@),
    {
        let v = to_chars(input);
        assert(v@.subrange(0, v@.len() as int) == v@);
        Self::parse_in(&v, 0, v.len())
    }

    /// Appends the text of the vector to `out`.
    pub fn push_text(&self, out: &mut Vec<char>)
        ensures
            final(out)@ == old(out)@ + spec_iv_text(self@),
    {
        out.push('0');
        out.push('x');
        let mut i: usize = 0;
        while i < 16
            invariant
                i <= 16,
                self@.len() == 16,
                out@.len() == old(out)@.len() + 2 + 2 * i,
                forall|j: int| 0 <= j < old(out)@.len() ==> out@[j] == old(out)@[j],
                forall|j: int|
                    0 <= j < 2 + 2 * i ==> out@[old(out)@.len() + j] == spec_iv_text(self@)[j],
            decreases 16 - i,
        {
            let b = self.bytes[i];
            out.push(char_of_hex_digit(b / 16));
            out.push(char_of_hex_digit(b % 16));
            i += 1;
        }
    }

    /// Returns the text of the vector.
    pub fn to_string(&self) -> (s: String)
        ensures
            s@ == spec_iv_text(self@),
    {
        let mut out: Vec<char> = Vec::new();
        self.push_text(&mut out);
        crate::text::string_of(&out)
    }
}

/// The hexadecimal digit of a number below sixteen is such a digit, and
/// stands for the number.
proof fn lemma_hex_char(d: nat)
    requires
        d < 16,
    ensures
        is_hex_digit(hex_char(d)),
        hex_value(hex_char(d)) == d,
        hex_char(d) != ',' && hex_char(d) != '"',
{
}

/// The text of sixteen bytes reads back as the bytes, and holds no
/// character that would end a bare token.
pub proof fn lemma_iv_round_trip(bytes: Seq<u8>)
    requires
        bytes.len() == 16,
    ensures
        spec_parse_iv(spec_iv_text(bytes)) == Ok::<Seq<u8>, ErrorView>(bytes),
        forall|i: int|
            0 <= i < spec_iv_text(bytes).len() ==> {
                let c = #[trigger] spec_iv_text(bytes)[i];
                c != ',' && c != '"'
            },
{
    let s = spec_iv_text(bytes);
    assert forall|i: int| 2 <= i < 34 implies is_hex_digit(#[trigger] s[i]) && s[i] != ',' && s[i]
        != '"' by {
        let b = bytes[(i - 2) / 2] as nat;
        lemma_hex_char(b / 16);
        lemma_hex_char(b % 16);
    }
    let parsed = Seq::new(16, |i: int| byte_of_hex(s[2 + 2 * i], s[3 + 2 * i]));
    assert forall|i: int| 0 <= i < 16 implies parsed[i] == bytes[i] by {
        let b = bytes[i] as nat;
        lemma_hex_char(b / 16);
        lemma_hex_char(b % 16);
    }
    assert(parsed =~= bytes);
}

} // verus!

//! Hexadecimal digits as characters.

use vstd::prelude::*;
use vstd::string::*;

verus! {

/// The sixteen digits that are written, in the order of their values.
pub open spec fn upper_digits() -> Seq<char> {
    seq!['0', '1', '2', '3', '4', '5', '6', '7', '8', '9', 'A', 'B', 'C', 'D', 'E', 'F']
}

/// The digit that is written for a value below sixteen.
pub open spec fn upper_hex(n: int) -> char
    recommends
        0 <= n < 16,
{
    upper_digits()[n]
}

/// Whether `c` is read as a digit: `0` to `9`, `a` to `f` or `A` to `F`.
pub open spec fn is_hex(c: char) -> bool {
    ('0' <= c <= '9') || ('a' <= c <= 'f') || ('A' <= c <= 'F')
}

/// The value that the digit `c` is read as.
pub open spec fn hex_value(c: char) -> int
    recommends
        is_hex(c),
{
    if '0' <= c <= '9' {
        c as int - '0' as int
    } else if 'a' <= c <= 'f' {
        c as int - 'a' as int + 10
    } else {
        c as int - 'A' as int + 10
    }
}

/// The two digits that are written for a byte, high digit first.
pub open spec fn byte_hex(b: int) -> Seq<char>
    recommends
        0 <= b < 256,
{
    seq![upper_hex(b / 16), upper_hex(b % 16)]
}

/// The byte that two digits are read as, high digit first.
pub open spec fn hex_byte(high: char, low: char) -> int
    recommends
        is_hex(high),
        is_hex(low),
{
    16 * hex_value(high) + hex_value(low)
}

/// A written digit is read back as its value.
pub proof fn lemma_upper_hex_value(n: int)
    requires
        0 <= n < 16,
    ensures
        is_hex(upper_hex(n)),
        hex_value(upper_hex(n)) == n,
        '0' <= upper_hex(n) <= 'F',
{
}

/// A written byte is read back as itself.
pub proof fn lemma_byte_hex_value(b: int)
    requires
        0 <= b < 256,
    ensures
        byte_hex(b).len() == 2,
        is_hex(byte_hex(b)[0]),
        is_hex(byte_hex(b)[1]),
        hex_byte(byte_hex(b)[0], byte_hex(b)[1]) == b,
{
    lemma_upper_hex_value(b / 16);
    lemma_upper_hex_value(b % 16);
}

/// The digit for a value below sixteen, as a string of one character.
pub fn upper_hex_str(n: u8) -> (digit: &'static str)
    requires
        n < 16,
    ensures
        digit@ == seq![upper_hex(n as int)],
{
    let digits = "0123456789ABCDEF";
    proof {
        reveal_strlit("0123456789ABCDEF");
        assert(digits@ =~= upper_digits());
    }
    let digit = digits.substring_ascii(n as usize, n as usize + 1);
    assert(digit@ =~= seq![upper_hex(n as int)]);
    digit
}

/// Appends the two digits of `b` to `out`.
pub fn push_byte_hex(out: &mut String, b: u8)
    ensures
        final(out)@ == old(out)@ + byte_hex(b as int),
{
    out.append(upper_hex_str(b / 16));
    out.append(upper_hex_str(b % 16));
    assert(out@ =~= old(out)@ + byte_hex(b as int));
}

/// Reads an ASCII byte as a digit, if it is one.
pub fn hex_value_of(b: u8) -> (v: Option<u8>)
    ensures
        v is Some == is_hex(b as char),
        v is Some ==> v->0 == hex_value(b as char),
{
    if 48 <= b && b <= 57 {
        Some(b - 48)
    } else if 97 <= b && b <= 102 {
        Some(b - 87)
    } else if 65 <= b && b <= 70 {
        Some(b - 55)
    } else {
        None
    }
}

/// Tests `is_hex`.
pub fn is_hex_char(c: char) -> (b: bool)
    ensures
        b == is_hex(c),
{
    ('0' <= c && c <= '9') || ('a' <= c && c <= 'f') || ('A' <= c && c <= 'F')
}

} // verus!

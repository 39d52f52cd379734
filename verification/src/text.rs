//! Building text: characters, numbers in decimal and hexadecimal, and
//! octets with the escapes of the presentation format.

use vstd::prelude::*;
use vstd::string::*;

verus! {

/// Appends one character with `String::push`: the text afterwards is the
/// text before with the character behind it.
#[verifier::external_body]
pub(crate) fn push_char(out: &mut String, c: char)
    ensures
        final(out)@ == old(out)@.push(c),
{
    out.push(c)
}

/// The character of a decimal digit.
pub open spec fn digit_char(d: int) -> char {
    (48 + d) as u8 as char
}

/// The character of a hexadecimal digit, letters in lower case.
pub open spec fn hex_char(d: int) -> char {
    if d < 10 {
        (48 + d) as u8 as char
    } else {
        (87 + d) as u8 as char
    }
}

/// A number in decimal, without leading zeros.
pub open spec fn decimal(n: nat) -> Seq<char>
    decreases n,
{
    if n < 10 {
        seq![digit_char(n as int)]
    } else {
        decimal(n / 10).push(digit_char((n % 10) as int))
    }
}

/// An octet as three decimal digits.
pub open spec fn decimal3(b: u8) -> Seq<char> {
    seq![digit_char(b as int / 100), digit_char(b as int / 10 % 10), digit_char(b as int % 10)]
}

/// An octet as two hexadecimal digits.
pub open spec fn hex2(b: u8) -> Seq<char> {
    seq![hex_char(b as int / 16), hex_char(b as int % 16)]
}

/// A number in hexadecimal, without leading zeros.
pub open spec fn hex(n: nat) -> Seq<char>
    decreases n,
{
    if n < 16 {
        seq![hex_char(n as int)]
    } else {
        hex(n / 16).push(hex_char((n % 16) as int))
    }
}

/// Whether an octet is a printable ASCII character, the space included.
pub open spec fn printable(b: u8) -> bool {
    32 <= b < 127
}

fn digit(d: u8) -> (c: char)
    requires
        d < 10,
    ensures
        c == digit_char(d as int),
{
    (48 + d) as char
}

fn hex_digit(d: u8) -> (c: char)
    requires
        d < 16,
    ensures
        c == hex_char(d as int),
{
    if d < 10 {
        (48 + d) as char
    } else {
        (87 + d) as char
    }
}

/// Appends a literal.
pub fn push_str(out: &mut String, s: &str)
    ensures
        final(out)@ == old(out)@ + s@,
{
    out.append(s);
}

/// Appends a number in decimal.
pub fn push_decimal(out: &mut String, n: u64)
    ensures
        final(out)@ == old(out)@ + decimal(n as nat),
    decreases n,
{
    if n >= 10 {
        push_decimal(out, n / 10);
    }
    push_char(out, digit((n % 10) as u8));
    assert(out@ == old(out)@ + decimal(n as nat));
}

/// Appends a number in hexadecimal.
pub fn push_hex(out: &mut String, n: u32)
    ensures
        final(out)@ == old(out)@ + hex(n as nat),
    decreases n,
{
    if n >= 16 {
        push_hex(out, n / 16);
    }
    push_char(out, hex_digit((n % 16) as u8));
    assert(out@ == old(out)@ + hex(n as nat));
}

/// Appends an octet as three decimal digits.
pub fn push_decimal3(out: &mut String, b: u8)
    ensures
        final(out)@ == old(out)@ + decimal3(b),
{
    push_char(out, digit(b / 100));
    push_char(out, digit(b / 10 % 10));
    push_char(out, digit(b % 10));
    assert(out@ == old(out)@ + decimal3(b));
}

/// Appends an octet as two hexadecimal digits.
pub fn push_hex2(out: &mut String, b: u8)
    ensures
        final(out)@ == old(out)@ + hex2(b),
{
    push_char(out, hex_digit(b / 16));
    push_char(out, hex_digit(b % 16));
    assert(out@ == old(out)@ + hex2(b));
}

} // verus!

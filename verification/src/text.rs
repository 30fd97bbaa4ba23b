//! Text produced and read by the library: hexadecimal and decimal
//! renderings used in error messages, the parsing of sysfs attribute
//! values, and the decoding of UTF-16 string descriptors.

use vstd::prelude::*;

verus! {

/// The lower-case hexadecimal digit for `n` (0..16).
pub open spec fn hex_digit(n: int) -> char {
    if n < 10 { (48 + n) as char } else { (87 + n) as char }
}

/// `{:#04x}` of a byte: `0x` and two lower-case hexadecimal digits.
pub open spec fn hex_byte_text(b: u8) -> Seq<char> {
    seq!['0', 'x', hex_digit((b / 16) as int), hex_digit((b % 16) as int)]
}

/// The decimal digit for `n` (0..10).
pub open spec fn decimal_digit(n: int) -> char {
    (48 + n) as char
}

/// The decimal digits of `n`, without leading zeros.
pub open spec fn decimal_digits(n: nat) -> Seq<char>
    decreases n,
{
    if n < 10 {
        seq![decimal_digit(n as int)]
    } else {
        decimal_digits(n / 10).push(decimal_digit((n % 10) as int))
    }
}

/// `{}` of an integer: a minus sign for negative values, then its digits.
pub open spec fn decimal_text(i: int) -> Seq<char> {
    if i < 0 {
        seq!['-'] + decimal_digits((-i) as nat)
    } else {
        decimal_digits(i as nat)
    }
}

/// Render a byte as `{:#04x}` does (`format!`).
#[verifier::external_body]
pub(crate) fn format_hex_byte(b: u8) -> (r: String)
    ensures
        r@ == hex_byte_text(b),
{
    format!("{b:#04x}")
}

/// Render an `i32` in decimal (`format!`).
#[verifier::external_body]
pub(crate) fn format_i32(v: i32) -> (r: String)
    ensures
        r@ == decimal_text(v as int),
{
    format!("{v}")
}

/// Render a `usize` in decimal (`format!`).
#[verifier::external_body]
pub(crate) fn format_usize(v: usize) -> (r: String)
    ensures
        r@ == decimal_text(v as int),
{
    format!("{v}")
}

/// Unicode's `White_Space` property, which `str::trim` removes.
pub open spec fn is_white_space(c: char) -> bool {
    let u = c as u32;
    ||| 0x09 <= u <= 0x0D
    ||| u == 0x20
    ||| u == 0x85
    ||| u == 0xA0
    ||| u == 0x1680
    ||| 0x2000 <= u <= 0x200A
    ||| u == 0x2028
    ||| u == 0x2029
    ||| u == 0x202F
    ||| u == 0x205F
    ||| u == 0x3000
}

/// `s` without its leading white space.
pub open spec fn trim_start(s: Seq<char>) -> Seq<char>
    decreases s.len(),
{
    if s.len() > 0 && is_white_space(s[0]) {
        trim_start(s.drop_first())
    } else {
        s
    }
}

/// `s` without its trailing white space.
pub open spec fn trim_end(s: Seq<char>) -> Seq<char>
    decreases s.len(),
{
    if s.len() > 0 && is_white_space(s.last()) {
        trim_end(s.drop_last())
    } else {
        s
    }
}

/// `s` without leading and trailing white space.
pub open spec fn trimmed(s: Seq<char>) -> Seq<char> {
    trim_end(trim_start(s))
}

/// Remove leading and trailing white space (`str::trim`).
#[verifier::external_body]
pub(crate) fn str_trim(s: &str) -> (r: &str)
    ensures
        r@ == trimmed(s@),
{
    s.trim()
}

/// The value of an ASCII digit or letter as a digit (`0-9`, `a-z`, `A-Z`),
/// or 36 for any other character.
pub open spec fn digit_value(c: char) -> int {
    let u = c as u32;
    if 48 <= u <= 57 {
        u - 48
    } else if 97 <= u <= 122 {
        u - 87
    } else if 65 <= u <= 90 {
        u - 55
    } else {
        36
    }
}

/// The value of the digit string `s` in `radix`, or `None` when a character
/// is not a digit of that radix.
pub open spec fn digits_value(s: Seq<char>, radix: int) -> Option<int>
    decreases s.len(),
{
    if s.len() == 0 {
        Some(0)
    } else {
        match digits_value(s.drop_last(), radix) {
            Some(v) => if digit_value(s.last()) < radix {
                Some(v * radix + digit_value(s.last()))
            } else {
                None
            },
            None => None,
        }
    }
}

/// What the unsigned integer parsers of std accept: an optional `+`, then
/// at least one digit of `radix`, with a value of at most `max`.
pub open spec fn parse_unsigned(s: Seq<char>, radix: int, max: int) -> Option<int> {
    let digits = if s.len() > 0 && s[0] == '+' { s.drop_first() } else { s };
    if digits.len() == 0 {
        None
    } else {
        match digits_value(digits, radix) {
            Some(v) => if v <= max { Some(v) } else { None },
            None => None,
        }
    }
}

/// `s` read as a hexadecimal `u16`.
pub open spec fn parse_hex_u16(s: Seq<char>) -> Option<u16> {
    match parse_unsigned(s, 16, 0xFFFF) {
        Some(v) => Some(v as u16),
        None => None,
    }
}

/// `s` read as a decimal `u8`.
pub open spec fn parse_decimal_u8(s: Seq<char>) -> Option<u8> {
    match parse_unsigned(s, 10, 0xFF) {
        Some(v) => Some(v as u8),
        None => None,
    }
}

/// Read a hexadecimal `u16` (`u16::from_str_radix` with radix 16).
#[verifier::external_body]
pub(crate) fn u16_from_hex(s: &str) -> (r: Option<u16>)
    ensures
        r == parse_hex_u16(s@),
{
    u16::from_str_radix(s, 16).ok()
}

/// Read a decimal `u8` (`<u8 as FromStr>::from_str`).
#[verifier::external_body]
pub(crate) fn u8_from_decimal(s: &str) -> (r: Option<u8>)
    ensures
        r == parse_decimal_u8(s@),
{
    s.parse::<u8>().ok()
}

/// The replacement character U+FFFD.
pub open spec fn replacement_char() -> char {
    0xFFFD as char
}

/// UTF-16 decoding in which each unpaired surrogate becomes U+FFFD.
pub open spec fn utf16_lossy(u: Seq<u16>) -> Seq<char>
    decreases u.len(),
{
    if u.len() == 0 {
        Seq::empty()
    } else if u[0] < 0xD800 || u[0] > 0xDFFF {
        seq![u[0] as char] + utf16_lossy(u.drop_first())
    } else if u[0] <= 0xDBFF && u.len() >= 2 && 0xDC00 <= u[1] <= 0xDFFF {
        seq![(0x10000 + (u[0] - 0xD800) * 0x400 + (u[1] - 0xDC00)) as char] + utf16_lossy(
            u.subrange(2, u.len() as int),
        )
    } else {
        seq![replacement_char()] + utf16_lossy(u.drop_first())
    }
}

/// Decode UTF-16, replacing invalid data with U+FFFD (`String::from_utf16_lossy`).
#[verifier::external_body]
pub(crate) fn string_from_utf16_lossy(units: &[u16]) -> (r: String)
    ensures
        r@ == utf16_lossy(units@),
{
    String::from_utf16_lossy(units)
}

} // verus!

//! Parsing and rendering of `#rrggbb` hex color strings, the format themes
//! use for custom colors.

use vstd::prelude::*;

use vstd::arithmetic::div_mod::{
    lemma_fundamental_div_mod, lemma_mod_division_less_than_divisor,
};
use vstd::string::StrSliceExecFns;
use vstd::utf8::is_ascii_chars;

verus! {

/// An RGB color with one byte per channel.
#[derive(Debug, Clone, Copy, PartialEq, Eq, Structural)]
pub struct RgbColor {
    pub r: u8,
    pub g: u8,
    pub b: u8,
}

/// Why a string is not a hex color.
#[derive(Debug, Clone, Copy, PartialEq, Eq, Structural)]
pub enum ColorError {
    /// The string holds a character outside ASCII.
    NotAscii,
    /// The string is not exactly seven characters long.
    WrongLength,
    /// The string does not start with `'#'`.
    MissingHash,
    /// A character in the value part is not a hexadecimal digit.
    NotHexDigit,
}

/// Whether `c` is a hexadecimal digit, either case.
pub open spec fn is_hex_digit(c: char) -> bool {
    ('0' <= c && c <= '9') || ('a' <= c && c <= 'f') || ('A' <= c && c <= 'F')
}

/// The value of the hexadecimal digit `c`.
pub open spec fn hex_val(c: char) -> nat {
    if '0' <= c && c <= '9' {
        (c as u32 - 48) as nat
    } else if 'a' <= c && c <= 'f' {
        (c as u32 - 87) as nat
    } else {
        (c as u32 - 55) as nat
    }
}

/// The byte encoded by two hexadecimal digits.
pub open spec fn hex_byte(hi: char, lo: char) -> u8 {
    (hex_val(hi) * 16 + hex_val(lo)) as u8
}

/// What parsing a hex color string yields: `#` followed by six hexadecimal
/// digits gives the three channel bytes; anything else names the first check
/// that fails, in the order the checks are made.
pub open spec fn parse_hex_color_spec(s: Seq<char>) -> Result<RgbColor, ColorError> {
    if !is_ascii_chars(s) {
        Err(ColorError::NotAscii)
    } else if s.len() != 7 {
        Err(ColorError::WrongLength)
    } else if s[0] != '#' {
        Err(ColorError::MissingHash)
    } else if !(is_hex_digit(s[1]) && is_hex_digit(s[2]) && is_hex_digit(s[3]) && is_hex_digit(
        s[4],
    ) && is_hex_digit(s[5]) && is_hex_digit(s[6])) {
        Err(ColorError::NotHexDigit)
    } else {
        Ok(
            RgbColor {
                r: hex_byte(s[1], s[2]),
                g: hex_byte(s[3], s[4]),
                b: hex_byte(s[5], s[6]),
            },
        )
    }
}

/// The lowercase hexadecimal digit for a value below sixteen.
pub open spec fn hex_digit_char(d: nat) -> char {
    if d < 10 {
        ((48 + d) as u8) as char
    } else {
        ((87 + d) as u8) as char
    }
}

/// The hex color string for `c`: `#` and six lowercase hexadecimal digits.
pub open spec fn hex_color_chars(c: RgbColor) -> Seq<char> {
    seq![
        '#',
        hex_digit_char(c.r as nat / 16),
        hex_digit_char(c.r as nat % 16),
        hex_digit_char(c.g as nat / 16),
        hex_digit_char(c.g as nat % 16),
        hex_digit_char(c.b as nat / 16),
        hex_digit_char(c.b as nat % 16),
    ]
}

/// Whether `c` is a hexadecimal digit, as a run-time check.
fn char_is_hex_digit(c: char) -> (r: bool)
    ensures
        r == is_hex_digit(c),
{
    ('0' <= c && c <= '9') || ('a' <= c && c <= 'f') || ('A' <= c && c <= 'F')
}

/// The value of the hexadecimal digit `c`, as a run-time value.
fn char_hex_val(c: char) -> (r: u8)
    requires
        is_hex_digit(c),
    ensures
        r <= 15,
        r as nat == hex_val(c),
{
    let u = c as u32;
    if u <= 57 {
        (u - 48) as u8
    } else if u >= 97 {
        (u - 87) as u8
    } else {
        (u - 55) as u8
    }
}

/// Parse a `#rrggbb` string into its three channel bytes; errors name the
/// first check that fails.
pub fn parse_hex_color(s: &str) -> (r: Result<RgbColor, ColorError>)
    ensures
        r == parse_hex_color_spec(s@),
{
    if !s.is_ascii() {
        return Err(ColorError::NotAscii);
    }
    if s.unicode_len() != 7 {
        return Err(ColorError::WrongLength);
    }
    if s.get_char(0) != '#' {
        return Err(ColorError::MissingHash);
    }
    let c1 = s.get_char(1);
    let c2 = s.get_char(2);
    let c3 = s.get_char(3);
    let c4 = s.get_char(4);
    let c5 = s.get_char(5);
    let c6 = s.get_char(6);
    if !(char_is_hex_digit(c1) && char_is_hex_digit(c2) && char_is_hex_digit(c3)
        && char_is_hex_digit(c4) && char_is_hex_digit(c5) && char_is_hex_digit(c6)) {
        return Err(ColorError::NotHexDigit);
    }
    let r = char_hex_val(c1) * 16 + char_hex_val(c2);
    let g = char_hex_val(c3) * 16 + char_hex_val(c4);
    let b = char_hex_val(c5) * 16 + char_hex_val(c6);
    Ok(RgbColor { r, g, b })
}

/// The ASCII byte of the lowercase hexadecimal digit for a value below
/// sixteen.
fn hex_digit_byte(d: u8) -> (r: u8)
    requires
        d <= 15,
    ensures
        r < 0x80,
        r as char == hex_digit_char(d as nat),
{
    if d < 10 {
        48 + d
    } else {
        87 + d
    }
}

/// Render `c` as a `#rrggbb` string with lowercase digits.
pub fn format_hex_color(c: RgbColor) -> (r: String)
    ensures
        r@ == hex_color_chars(c),
{
    let mut buf: Vec<u8> = Vec::new();
    buf.push(35);
    buf.push(hex_digit_byte(c.r / 16));
    buf.push(hex_digit_byte(c.r % 16));
    buf.push(hex_digit_byte(c.g / 16));
    buf.push(hex_digit_byte(c.g % 16));
    buf.push(hex_digit_byte(c.b / 16));
    buf.push(hex_digit_byte(c.b % 16));
    let s = crate::text::ascii_string(buf);
    proof {
        assert(s@ =~= hex_color_chars(c));
    }
    s
}

/// Rendering a color and parsing the result gives the color back: the two
/// directions of the hex color format agree.
pub proof fn lemma_hex_color_round_trip(c: RgbColor)
    ensures
        parse_hex_color_spec(hex_color_chars(c)) == Ok::<RgbColor, ColorError>(c),
{
    let s = hex_color_chars(c);
    assert forall|d: nat| d <= 15 implies is_hex_digit(hex_digit_char(d)) && hex_val(
        hex_digit_char(d),
    ) == d by {
        if d < 10 {
            assert(hex_digit_char(d) as u32 == 48 + d);
        } else {
            assert(hex_digit_char(d) as u32 == 87 + d);
        }
    }
    assert(is_ascii_chars(s)) by {
        assert forall|i: int| 0 <= i < s.len() implies '\0' <= #[trigger] s[i] <= '\u{7f}' by {
            if i >= 1 {
                lemma_nibbles(c.r as nat);
                lemma_nibbles(c.g as nat);
                lemma_nibbles(c.b as nat);
            }
        }
    }
    lemma_nibbles(c.r as nat);
    lemma_nibbles(c.g as nat);
    lemma_nibbles(c.b as nat);
    assert(hex_byte(s[1], s[2]) == c.r);
    assert(hex_byte(s[3], s[4]) == c.g);
    assert(hex_byte(s[5], s[6]) == c.b);
}

/// A channel byte splits into two digits below sixteen that reassemble to
/// the byte.
proof fn lemma_nibbles(v: nat)
    requires
        v <= 255,
    ensures
        v / 16 <= 15,
        v % 16 <= 15,
        (v / 16) * 16 + v % 16 == v,
{
    lemma_fundamental_div_mod(v as int, 16);
    lemma_mod_division_less_than_divisor(v as int, 16);
}

} // verus!

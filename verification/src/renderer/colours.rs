//! An RGBA colour and the named palette the renderer draws with.

use vstd::prelude::*;
use vstd::string::*;

verus! {

/// A colour with 8-bit red, green, blue and alpha channels.
#[derive(Clone, Copy, Debug, PartialEq, Eq, Structural)]
pub struct Colour {
    pub r: u8,
    pub g: u8,
    pub b: u8,
    pub a: u8,
}

/// Whether `c` is an ASCII hexadecimal digit.
pub open spec fn is_hex_digit(c: char) -> bool {
    ('0' <= c && c <= '9') || ('a' <= c && c <= 'f') || ('A' <= c && c <= 'F')
}

/// The value of the hexadecimal digit `c`.
pub open spec fn hex_val(c: char) -> int {
    if '0' <= c && c <= '9' {
        c as int - '0' as int
    } else if 'a' <= c && c <= 'f' {
        c as int - 'a' as int + 10
    } else {
        c as int - 'A' as int + 10
    }
}

/// The byte written by the two hexadecimal digits at `i` and `i + 1` of `s`.
pub open spec fn hex_byte(s: Seq<char>, i: int) -> int {
    hex_val(s[i]) * 16 + hex_val(s[i + 1])
}

/// Whether the first `n` characters of `s` are all hexadecimal digits.
pub open spec fn hex_prefix(s: Seq<char>, n: int) -> bool {
    forall|i: int| 0 <= i < n ==> is_hex_digit(#[trigger] s[i])
}

/// The colour written as `RRGGBB`: black when `s` is too short or a digit is
/// malformed, else the three parsed channels with full opacity.
pub open spec fn spec_hex_colour(s: Seq<char>) -> Colour {
    if s.len() < 6 || !hex_prefix(s, 6) {
        spec_black()
    } else {
        Colour {
            r: hex_byte(s, 0) as u8,
            g: hex_byte(s, 2) as u8,
            b: hex_byte(s, 4) as u8,
            a: 0xFF,
        }
    }
}

/// The colour written as `RRGGBBAA`: black when `s` is too short or a digit
/// is malformed, else the four parsed channels.
pub open spec fn spec_hex_alpha_colour(s: Seq<char>) -> Colour {
    if s.len() < 8 || !hex_prefix(s, 8) {
        spec_black()
    } else {
        Colour {
            r: hex_byte(s, 0) as u8,
            g: hex_byte(s, 2) as u8,
            b: hex_byte(s, 4) as u8,
            a: hex_byte(s, 6) as u8,
        }
    }
}

pub open spec fn spec_black() -> Colour {
    Colour { r: 0x2e, g: 0x34, b: 0x36, a: 0xFF }
}

/// Whether `c` is an ASCII hexadecimal digit.
fn hex_digit(c: char) -> (r: bool)
    ensures
        r == is_hex_digit(c),
{
    ('0' <= c && c <= '9') || ('a' <= c && c <= 'f') || ('A' <= c && c <= 'F')
}

/// The value of the hexadecimal digit `c`.
fn hex_digit_value(c: char) -> (r: u8)
    requires
        is_hex_digit(c),
    ensures
        r == hex_val(c),
{
    if '0' <= c && c <= '9' {
        (c as u32 - '0' as u32) as u8
    } else if 'a' <= c && c <= 'f' {
        (c as u32 - 'a' as u32 + 10) as u8
    } else {
        (c as u32 - 'A' as u32 + 10) as u8
    }
}

/// The byte written by the two hexadecimal digits of `s` at `i` and `i + 1`.
fn hex_byte_value(s: &str, i: usize) -> (r: u8)
    requires
        i + 2 <= s@.len(),
        i + 2 <= usize::MAX,
        is_hex_digit(s@[i as int]),
        is_hex_digit(s@[i + 1]),
    ensures
        r == hex_byte(s@, i as int),
{
    let hi = hex_digit_value(s.get_char(i));
    let lo = hex_digit_value(s.get_char(i + 1));
    hi * 16 + lo
}

impl Colour {
    /// An opaque colour from its red, green and blue channels.
    pub fn rgb(r: u8, g: u8, b: u8) -> (c: Colour)
        ensures
            c == (Colour { r, g, b, a: 0xFF }),
    {
        Colour { r, g, b, a: 0xFF }
    }

    /// A colour from all four channels.
    pub fn rgba(r: u8, g: u8, b: u8, a: u8) -> (c: Colour)
        ensures
            c == (Colour { r, g, b, a }),
    {
        Colour { r, g, b, a }
    }

    /// Parse an opaque colour written as `RRGGBB`; black when the text is too
    /// short or one of the six leading characters is not a hexadecimal digit.
    pub fn hex(hex: &str) -> (c: Colour)
        ensures
            c == spec_hex_colour(hex@),
    {
        if hex.unicode_len() < 6 {
            return Colour::black();
        }
        let mut i: usize = 0;
        while i < 6
            invariant
                0 <= i <= 6,
                hex@.len() >= 6,
                hex_prefix(hex@, i as int),
            decreases 6 - i,
        {
            if !hex_digit(hex.get_char(i)) {
                return Colour::black();
            }
            i = i + 1;
        }
        Colour {
            r: hex_byte_value(hex, 0),
            g: hex_byte_value(hex, 2),
            b: hex_byte_value(hex, 4),
            a: 0xFF,
        }
    }

    /// Parse a colour written as `RRGGBBAA`; black when the text is too short
    /// or one of the eight leading characters is not a hexadecimal digit.
    pub fn hex_alpha(hex: &str) -> (c: Colour)
        ensures
            c == spec_hex_alpha_colour(hex@),
    {
        if hex.unicode_len() < 8 {
            return Colour::black();
        }
        let mut i: usize = 0;
        while i < 8
            invariant
                0 <= i <= 8,
                hex@.len() >= 8,
                hex_prefix(hex@, i as int),
            decreases 8 - i,
        {
            if !hex_digit(hex.get_char(i)) {
                return Colour::black();
            }
            i = i + 1;
        }
        Colour {
            r: hex_byte_value(hex, 0),
            g: hex_byte_value(hex, 2),
            b: hex_byte_value(hex, 4),
            a: hex_byte_value(hex, 6),
        }
    }

    pub fn black() -> (c: Colour)
        ensures
            c == spec_black(),
    {
        Colour::rgb(0x2e, 0x34, 0x36)
    }

    pub fn dark_red() -> (c: Colour)
        ensures
            c == (Colour { r: 0xcc, g: 0x00, b: 0x00, a: 0xFF }),
    {
        Colour::rgb(0xcc, 0x00, 0x00)
    }

    pub fn dark_green() -> (c: Colour)
        ensures
            c == (Colour { r: 0x4e, g: 0x9a, b: 0x06, a: 0xFF }),
    {
        Colour::rgb(0x4e, 0x9a, 0x06)
    }

    pub fn dark_yellow() -> (c: Colour)
        ensures
            c == (Colour { r: 0xc4, g: 0xa0, b: 0x00, a: 0xFF }),
    {
        Colour::rgb(0xc4, 0xa0, 0x00)
    }

    pub fn dark_blue() -> (c: Colour)
        ensures
            c == (Colour { r: 0x34, g: 0x65, b: 0xa4, a: 0xFF }),
    {
        Colour::rgb(0x34, 0x65, 0xa4)
    }

    pub fn dark_purple() -> (c: Colour)
        ensures
            c == (Colour { r: 0x75, g: 0x50, b: 0x7b, a: 0xFF }),
    {
        Colour::rgb(0x75, 0x50, 0x7b)
    }

    pub fn dark_cyan() -> (c: Colour)
        ensures
            c == (Colour { r: 0x06, g: 0x98, b: 0x9a, a: 0xFF }),
    {
        Colour::rgb(0x06, 0x98, 0x9a)
    }

    pub fn gray() -> (c: Colour)
        ensures
            c == (Colour { r: 0xd3, g: 0xd7, b: 0xcf, a: 0xFF }),
    {
        Colour::rgb(0xd3, 0xd7, 0xcf)
    }

    pub fn dark_gray() -> (c: Colour)
        ensures
            c == (Colour { r: 0x55, g: 0x57, b: 0x53, a: 0xFF }),
    {
        Colour::rgb(0x55, 0x57, 0x53)
    }

    pub fn red() -> (c: Colour)
        ensures
            c == (Colour { r: 0xef, g: 0x29, b: 0x29, a: 0xFF }),
    {
        Colour::rgb(0xef, 0x29, 0x29)
    }

    pub fn green() -> (c: Colour)
        ensures
            c == (Colour { r: 0x8a, g: 0xe2, b: 0x34, a: 0xFF }),
    {
        Colour::rgb(0x8a, 0xe2, 0x34)
    }

    pub fn yellow() -> (c: Colour)
        ensures
            c == (Colour { r: 0xfc, g: 0xe9, b: 0x4f, a: 0xFF }),
    {
        Colour::rgb(0xfc, 0xe9, 0x4f)
    }

    pub fn blue() -> (c: Colour)
        ensures
            c == (Colour { r: 0x72, g: 0x9f, b: 0xcf, a: 0xFF }),
    {
        Colour::rgb(0x72, 0x9f, 0xcf)
    }

    pub fn purple() -> (c: Colour)
        ensures
            c == (Colour { r: 0xad, g: 0x7f, b: 0xa8, a: 0xFF }),
    {
        Colour::rgb(0xad, 0x7f, 0xa8)
    }

    pub fn cyan() -> (c: Colour)
        ensures
            c == (Colour { r: 0x34, g: 0xe2, b: 0xe2, a: 0xFF }),
    {
        Colour::rgb(0x34, 0xe2, 0xe2)
    }

    pub fn white() -> (c: Colour)
        ensures
            c == (Colour { r: 0xee, g: 0xee, b: 0xec, a: 0xFF }),
    {
        Colour::rgb(0xee, 0xee, 0xec)
    }
}

} // verus!

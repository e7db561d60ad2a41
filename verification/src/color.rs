//! RGBA colors and parsing of `#RRGGBB` / `#RRGGBBAA` hex strings.

use vstd::prelude::*;
use vstd::string::StrSliceExecFns;

verus! {

/// RGBA color. Alpha 255 = fully opaque, 0 = fully transparent.
/// Channels are unpremultiplied bytes; no implicit clamping happens anywhere.
#[derive(Debug, Clone, Copy, PartialEq, Eq, Structural)]
pub struct Color {
    pub r: u8,
    pub g: u8,
    pub b: u8,
    pub a: u8,
}

/// Whether `c` is an ASCII hexadecimal digit (either case).
pub open spec fn is_hex_digit(c: char) -> bool {
    ('0' <= c && c <= '9') || ('a' <= c && c <= 'f') || ('A' <= c && c <= 'F')
}

/// Numeric value of a hexadecimal digit.
pub open spec fn hex_val(c: char) -> int {
    if '0' <= c && c <= '9' {
        c as int - '0' as int
    } else if 'a' <= c && c <= 'f' {
        c as int - 'a' as int + 10
    } else {
        c as int - 'A' as int + 10
    }
}

/// Value of the two-digit hexadecimal number `c1 c2`.
pub open spec fn hex_pair(c1: char, c2: char) -> int {
    16 * hex_val(c1) + hex_val(c2)
}

/// Every character of `s` is a hexadecimal digit.
pub open spec fn all_hex_digits(s: Seq<char>) -> bool {
    forall|i: int| 0 <= i < s.len() ==> is_hex_digit(#[trigger] s[i])
}

/// `s` with one leading `#` removed, if present.
pub open spec fn hex_body(s: Seq<char>) -> Seq<char> {
    if s.len() > 0 && s[0] == '#' {
        s.skip(1)
    } else {
        s
    }
}

/// The color denoted by a hex color string: `RRGGBB` or `RRGGBBAA`, with an
/// optional leading `#`. Any other shape or a non-hex character means `None`.
pub open spec fn parse_hex_color(s: Seq<char>) -> Option<Color> {
    let b = hex_body(s);
    if b.len() == 6 && all_hex_digits(b) {
        Some(Color {
            r: hex_pair(b[0], b[1]) as u8,
            g: hex_pair(b[2], b[3]) as u8,
            b: hex_pair(b[4], b[5]) as u8,
            a: 255,
        })
    } else if b.len() == 8 && all_hex_digits(b) {
        Some(Color {
            r: hex_pair(b[0], b[1]) as u8,
            g: hex_pair(b[2], b[3]) as u8,
            b: hex_pair(b[4], b[5]) as u8,
            a: hex_pair(b[6], b[7]) as u8,
        })
    } else {
        None
    }
}

/// Numeric value of one hexadecimal digit character, `None` for any other
/// character.
fn hex_digit_value(c: char) -> (r: Option<u8>)
    ensures
        is_hex_digit(c) ==> r == Some(hex_val(c) as u8),
        !is_hex_digit(c) ==> r is None,
        r is Some ==> r->0 < 16,
{
    if '0' <= c && c <= '9' {
        Some((c as u32 - '0' as u32) as u8)
    } else if 'a' <= c && c <= 'f' {
        Some((c as u32 - 'a' as u32 + 10) as u8)
    } else if 'A' <= c && c <= 'F' {
        Some((c as u32 - 'A' as u32 + 10) as u8)
    } else {
        None
    }
}

/// Byte value of the two hexadecimal digits of `s` at character positions
/// `i` and `i + 1`, `None` if either character is not a hexadecimal digit.
fn hex_byte_at(s: &str, i: usize) -> (r: Option<u8>)
    requires
        i + 2 <= s@.len(),
        i + 2 <= usize::MAX,
    ensures
        is_hex_digit(s@[i as int]) && is_hex_digit(s@[i + 1]) ==> r == Some(
            hex_pair(s@[i as int], s@[i + 1]) as u8,
        ),
        !(is_hex_digit(s@[i as int]) && is_hex_digit(s@[i + 1])) ==> r is None,
{
    let hi = hex_digit_value(s.get_char(i));
    let lo = hex_digit_value(s.get_char(i + 1));
    match (hi, lo) {
        (Some(h), Some(l)) => Some(16 * h + l),
        _ => None,
    }
}

impl Color {
    /// Build a color from the four channel bytes.
    pub fn rgba(r: u8, g: u8, b: u8, a: u8) -> (c: Self)
        ensures
            c == (Color { r, g, b, a }),
    {
        Self { r, g, b, a }
    }

    /// Build a fully opaque color from the three channel bytes.
    pub fn rgb(r: u8, g: u8, b: u8) -> (c: Self)
        ensures
            c == (Color { r, g, b, a: 255u8 }),
    {
        Self::rgba(r, g, b, 255)
    }

    /// Parse `#RRGGBB` or `#RRGGBBAA` hex color strings (leading `#`
    /// optional, digits in either case).
    pub fn from_hex(s: &str) -> (c: Option<Self>)
        ensures
            c == parse_hex_color(s@),
    {
        let n = s.unicode_len();
        let off: usize = if n > 0 && s.get_char(0) == '#' {
            1
        } else {
            0
        };
        let len = n - off;
        proof {
            assert(hex_body(s@) =~= s@.skip(off as int));
        }
        if len == 6 {
            let r = hex_byte_at(s, off);
            let g = hex_byte_at(s, off + 2);
            let b = hex_byte_at(s, off + 4);
            match (r, g, b) {
                (Some(r), Some(g), Some(b)) => {
                    proof {
                        let body = hex_body(s@);
                        assert forall|i: int| 0 <= i < body.len() implies is_hex_digit(
                            #[trigger] body[i],
                        ) by {
                            assert(body[i] == s@[off + i]);
                        }
                    }
                    Some(Self::rgb(r, g, b))
                },
                _ => {
                    proof {
                        let body = hex_body(s@);
                        assert(!all_hex_digits(body)) by {
                            if all_hex_digits(body) {
                                assert(is_hex_digit(body[0]) && is_hex_digit(body[1]));
                                assert(is_hex_digit(body[2]) && is_hex_digit(body[3]));
                                assert(is_hex_digit(body[4]) && is_hex_digit(body[5]));
                            }
                        }
                    }
                    None
                },
            }
        } else if len == 8 {
            let r = hex_byte_at(s, off);
            let g = hex_byte_at(s, off + 2);
            let b = hex_byte_at(s, off + 4);
            let a = hex_byte_at(s, off + 6);
            match (r, g, b, a) {
                (Some(r), Some(g), Some(b), Some(a)) => {
                    proof {
                        let body = hex_body(s@);
                        assert forall|i: int| 0 <= i < body.len() implies is_hex_digit(
                            #[trigger] body[i],
                        ) by {
                            assert(body[i] == s@[off + i]);
                        }
                    }
                    Some(Self::rgba(r, g, b, a))
                },
                _ => {
                    proof {
                        let body = hex_body(s@);
                        assert(!all_hex_digits(body)) by {
                            if all_hex_digits(body) {
                                assert(is_hex_digit(body[0]) && is_hex_digit(body[1]));
                                assert(is_hex_digit(body[2]) && is_hex_digit(body[3]));
                                assert(is_hex_digit(body[4]) && is_hex_digit(body[5]));
                                assert(is_hex_digit(body[6]) && is_hex_digit(body[7]));
                            }
                        }
                    }
                    None
                },
            }
        } else {
            None
        }
    }

    /// This color with the alpha channel replaced by `a`.
    pub fn with_alpha(self, a: u8) -> (c: Self)
        ensures
            c == (Color { a, ..self }),
    {
        Self { a, ..self }
    }
}

} // verus!

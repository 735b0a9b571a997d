//! RGBA colors as plain bytes, with the hex notation used for user overrides.

use vstd::prelude::*;
use vstd::string::StrSliceExecFns;

verus! {

/// A 24-bit color with an alpha channel, as used in ANSI escape sequences.
#[derive(Clone, Copy, PartialEq, Eq, Structural, Debug)]
pub struct Color {
    pub r: u8,
    pub g: u8,
    pub b: u8,
    pub a: u8,
}

/// Whether `c` is a hexadecimal digit.
pub open spec fn is_hex_digit(c: char) -> bool {
    (0x30 <= c as u32 && c as u32 <= 0x39)  // '0'..='9'
    || (0x61 <= c as u32 && c as u32 <= 0x66)  // 'a'..='f'
    || (0x41 <= c as u32 && c as u32 <= 0x46)  // 'A'..='F'
}

/// The value of the hexadecimal digit `c` (meaningful only when `is_hex_digit(c)`).
pub open spec fn hex_digit_val(c: char) -> int {
    if 0x30 <= c as u32 && c as u32 <= 0x39 {
        c as u32 - 0x30
    } else if 0x61 <= c as u32 && c as u32 <= 0x66 {
        c as u32 - 0x61 + 10
    } else {
        c as u32 - 0x41 + 10
    }
}

pub open spec fn all_hex_digits(s: Seq<char>) -> bool {
    forall|i: int| 0 <= i < s.len() ==> is_hex_digit(s[i])
}

/// The value of a two-digit hexadecimal byte.
pub open spec fn hex_byte(hi: char, lo: char) -> int {
    hex_digit_val(hi) * 16 + hex_digit_val(lo)
}

/// How a color override string is read: a `#` followed by 3 single hex
/// digits, 6 hex digits (byte pairs), or 8 hex digits (byte pairs with
/// alpha). Anything else is no color.
pub open spec fn spec_parse_color(s: Seq<char>) -> Option<Color> {
    if s.len() >= 1 && s[0] == '#' && all_hex_digits(s.skip(1)) {
        let d = s.skip(1);
        if d.len() == 3 {
            Some(Color {
                r: hex_digit_val(d[0]) as u8,
                g: hex_digit_val(d[1]) as u8,
                b: hex_digit_val(d[2]) as u8,
                a: 255,
            })
        } else if d.len() == 6 {
            Some(Color {
                r: hex_byte(d[0], d[1]) as u8,
                g: hex_byte(d[2], d[3]) as u8,
                b: hex_byte(d[4], d[5]) as u8,
                a: 255,
            })
        } else if d.len() == 8 {
            Some(Color {
                r: hex_byte(d[0], d[1]) as u8,
                g: hex_byte(d[2], d[3]) as u8,
                b: hex_byte(d[4], d[5]) as u8,
                a: hex_byte(d[6], d[7]) as u8,
            })
        } else {
            None
        }
    } else {
        None
    }
}

fn hex_val(c: char) -> (r: Option<u8>)
    ensures
        match r {
            Some(v) => is_hex_digit(c) && v == hex_digit_val(c),
            None => !is_hex_digit(c),
        },
{
    let n = c as u32;
    if 0x30 <= n && n <= 0x39 {
        Some((n - 0x30) as u8)
    } else if 0x61 <= n && n <= 0x66 {
        Some((n - 0x61 + 10) as u8)
    } else if 0x41 <= n && n <= 0x46 {
        Some((n - 0x41 + 10) as u8)
    } else {
        None
    }
}

/// The collected hex digit values of `s` after the leading `#`.
pub open spec fn digits_match(s: Seq<char>, vals: Seq<u8>) -> bool {
    forall|j: int|
        0 <= j < vals.len() ==> is_hex_digit(#[trigger] s[j + 1]) && vals[j] == hex_digit_val(
            s[j + 1],
        )
}

/// Read a color override, accepting exactly what `spec_parse_color` accepts.
pub fn parse_color(s: &str) -> (r: Option<Color>)
    ensures
        r == spec_parse_color(s@),
{
    let n = s.unicode_len();
    if n == 0 || s.get_char(0) != '#' {
        return None;
    }
    let mut vals: Vec<u8> = Vec::new();
    let mut i: usize = 1;
    while i < n
        invariant
            1 <= i <= n,
            n == s@.len(),
            s@[0] == '#',
            vals@.len() == i - 1,
            digits_match(s@, vals@),
        decreases n - i,
    {
        let ghost prev = vals@;
        let c = s.get_char(i);
        match hex_val(c) {
            Some(v) => {
                vals.push(v);
                proof {
                    assert(vals@ =~= prev.push(v));
                    assert forall|j: int| 0 <= j < vals@.len() implies is_hex_digit(
                        #[trigger] s@[j + 1],
                    ) && vals@[j] == hex_digit_val(s@[j + 1]) by {
                        if j < prev.len() {
                            assert(vals@[j] == prev[j]);
                            assert(is_hex_digit(s@[j + 1]) && prev[j] == hex_digit_val(s@[j + 1]));
                        } else {
                            assert(vals@[j] == v);
                            assert(j + 1 == i);
                        }
                    }
                    assert(digits_match(s@, vals@));
                }
            },
            None => {
                proof {
                    assert(s@.skip(1)[i - 1] == s@[i as int]);
                    assert(!all_hex_digits(s@.skip(1)));
                }
                return None;
            },
        }
        i += 1;
    }
    proof {
        let ghost d = s@.skip(1);
        assert forall|j: int| 0 <= j < d.len() implies is_hex_digit(#[trigger] d[j]) by {
            assert(d[j] == s@[j + 1]);
            assert(is_hex_digit(s@[j + 1]) && vals@[j] == hex_digit_val(s@[j + 1]));
        }
        assert forall|j: int| 0 <= j < vals@.len() implies #[trigger] vals@[j] == hex_digit_val(
            d[j],
        ) && vals@[j] < 16 by {
            assert(d[j] == s@[j + 1]);
            assert(is_hex_digit(s@[j + 1]) && vals@[j] == hex_digit_val(s@[j + 1]));
        }
    }
    if vals.len() == 3 {
        Some(Color { r: vals[0], g: vals[1], b: vals[2], a: 255 })
    } else if vals.len() == 6 {
        Some(
            Color {
                r: vals[0] * 16 + vals[1],
                g: vals[2] * 16 + vals[3],
                b: vals[4] * 16 + vals[5],
                a: 255,
            },
        )
    } else if vals.len() == 8 {
        Some(
            Color {
                r: vals[0] * 16 + vals[1],
                g: vals[2] * 16 + vals[3],
                b: vals[4] * 16 + vals[5],
                a: vals[6] * 16 + vals[7],
            },
        )
    } else {
        None
    }
}

} // verus!

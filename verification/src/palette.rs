//! Palettes written as packed hexadecimal colour stops.

use vstd::prelude::*;
use vstd::string::is_ascii_spec_bytes;
use crate::color::NormalizedColor;
use crate::error::InvalidPaletteError;

verus! {

/// The denominator of every channel of a palette stop.
pub const STOP_DEN: i128 = 255;

/// The fewest stops that make a palette.
pub const MIN_STOPS: usize = 4;

/// `c` is one of the digits `0-9`, `a-f`, `A-F`.
pub open spec fn is_hex_digit(c: char) -> bool {
    ||| '0' <= c <= '9'
    ||| 'a' <= c <= 'f'
    ||| 'A' <= c <= 'F'
}

/// The value of a hexadecimal digit, from 0 to 15.
pub open spec fn hex_digit_value(c: char) -> int
    recommends
        is_hex_digit(c),
{
    if '0' <= c <= '9' {
        c as int - '0' as int
    } else if 'a' <= c <= 'f' {
        c as int - 'a' as int + 10
    } else {
        c as int - 'A' as int + 10
    }
}

/// The value of two hexadecimal digits, the first being the higher.
pub open spec fn hex_pair_value(hi: char, lo: char) -> int {
    16 * hex_digit_value(hi) + hex_digit_value(lo)
}

/// A specifier is valid when its length is a multiple of six and all its
/// characters are hexadecimal digits.
pub open spec fn valid_specifier(s: Seq<char>) -> bool {
    &&& s.len() % 6 == 0
    &&& forall|i: int| 0 <= i < s.len() ==> is_hex_digit(#[trigger] s[i])
}

/// The stop that the `k`-th group of six digits describes: two digits each for
/// red, green and blue, over 255, and full alpha.
pub open spec fn stop_at(s: Seq<char>, k: int) -> NormalizedColor {
    NormalizedColor {
        r: hex_pair_value(s[6 * k], s[6 * k + 1]) as i128,
        g: hex_pair_value(s[6 * k + 2], s[6 * k + 3]) as i128,
        b: hex_pair_value(s[6 * k + 4], s[6 * k + 5]) as i128,
        a: STOP_DEN,
        den: STOP_DEN,
    }
}

/// The stops of a specifier, in its order.
pub open spec fn parsed_stops(s: Seq<char>) -> Seq<NormalizedColor> {
    Seq::new((s.len() / 6) as nat, |k: int| stop_at(s, k))
}

/// A palette stop: red, green and blue are whole steps of 1/255, and alpha is
/// full.
pub open spec fn is_stop(c: NormalizedColor) -> bool {
    &&& c.den == STOP_DEN
    &&& 0 <= c.r <= STOP_DEN
    &&& 0 <= c.g <= STOP_DEN
    &&& 0 <= c.b <= STOP_DEN
    &&& c.a == STOP_DEN
}

/// A palette is a sequence of at least four stops.
pub open spec fn is_palette(stops: Seq<NormalizedColor>) -> bool {
    &&& stops.len() >= MIN_STOPS
    &&& forall|i: int| 0 <= i < stops.len() ==> is_stop(#[trigger] stops[i])
}

/// Reads one hexadecimal digit from its ASCII code.
fn hex_digit(b: u8) -> (res: Option<u8>)
    ensures
        res is Some <==> is_hex_digit(b as char),
        res matches Some(v) ==> v == hex_digit_value(b as char),
{
    if b >= 48 && b <= 57 {
        Some(b - 48)
    } else if b >= 97 && b <= 102 {
        Some(b - 87)
    } else if b >= 65 && b <= 70 {
        Some(b - 55)
    } else {
        None
    }
}

/// Reads two hexadecimal digits from their ASCII codes.
fn hex_pair(hi: u8, lo: u8) -> (res: Option<u8>)
    ensures
        res is Some <==> is_hex_digit(hi as char) && is_hex_digit(lo as char),
        res matches Some(v) ==> v == hex_pair_value(hi as char, lo as char),
{
    match hex_digit(hi) {
        Some(h) => match hex_digit(lo) {
            Some(l) => Some(16 * h + l),
            None => None,
        },
        None => None,
    }
}

/// Parses a palette specifier into its stops.
///
/// The specifier is cut into groups of six characters, and each group is read
/// as three two-digit hexadecimal numbers: red, green and blue over 255.
pub fn get_colors(specifier: &str) -> (res: Result<Vec<NormalizedColor>, InvalidPaletteError>)
    ensures
        res is Ok <==> valid_specifier(specifier@),
        res matches Ok(stops) ==> {
            &&& stops@ == parsed_stops(specifier@)
            &&& 6 * stops@.len() == specifier@.len()
            &&& forall|i: int|
                0 <= i < stops@.len() ==> is_stop(#[trigger] stops@[i]) && stops@[i].in_unit_range()
        },
{
    if !specifier.is_ascii() {
        proof {
            let i = choose|i: int|
                0 <= i < specifier@.len() && !('\0' <= #[trigger] specifier@[i] <= '\u{7f}');
            assert(!is_hex_digit(specifier@[i]));
        }
        return Err(InvalidPaletteError);
    }
    let bytes = specifier.as_bytes();
    proof {
        is_ascii_spec_bytes(specifier);
    }
    let len = bytes.len();
    if len % 6 != 0 {
        return Err(InvalidPaletteError);
    }
    let num_colors = len / 6;
    let mut colors: Vec<NormalizedColor> = Vec::new();
    let mut i: usize = 0;
    while i < num_colors
        invariant
            len == specifier@.len(),
            bytes@.len() == len,
            len == 6 * num_colors,
            i <= num_colors,
            forall|j: int| 0 <= j < len ==> '\0' <= #[trigger] specifier@[j] <= '\u{7f}',
            forall|j: int| 0 <= j < len ==> #[trigger] bytes@[j] == specifier@[j] as u8,
            colors@.len() == i,
            forall|k: int| 0 <= k < i ==> #[trigger] colors@[k] == stop_at(specifier@, k),
            forall|k: int| 0 <= k < i ==> is_stop(#[trigger] colors@[k]),
            forall|j: int| 0 <= j < 6 * i ==> is_hex_digit(#[trigger] specifier@[j]),
        decreases num_colors - i,
    {
        let at = 6 * i;
        proof {
            assert forall|j: int| at <= j < at + 6 implies bytes@[j] as char == specifier@[j] by {
                assert('\0' <= specifier@[j] <= '\u{7f}');
                assert(bytes@[j] == specifier@[j] as u8);
            }
        }
        let r = hex_pair(bytes[at], bytes[at + 1]);
        let g = hex_pair(bytes[at + 2], bytes[at + 3]);
        let b = hex_pair(bytes[at + 4], bytes[at + 5]);
        match (r, g, b) {
            (Some(r), Some(g), Some(b)) => {
                colors.push(
                    NormalizedColor {
                        r: r as i128,
                        g: g as i128,
                        b: b as i128,
                        a: STOP_DEN,
                        den: STOP_DEN,
                    },
                );
                proof {
                    assert forall|j: int| 0 <= j < 6 * (i + 1) implies is_hex_digit(
                        #[trigger] specifier@[j],
                    ) by {
                        if j >= at {
                            assert(bytes@[j] as char == specifier@[j]);
                        }
                    }
                }
            },
            _ => {
                proof {
                    assert(exists|j: int| at <= j < at + 6 && !is_hex_digit(specifier@[j])) by {
                        assert(forall|j: int| at <= j < at + 6 ==> bytes@[j] as char == specifier@[j]);
                    }
                }
                return Err(InvalidPaletteError);
            },
        }
        i = i + 1;
    }
    proof {
        assert(colors@ =~= parsed_stops(specifier@));
    }
    Ok(colors)
}

} // verus!

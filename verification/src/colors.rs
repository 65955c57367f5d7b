//! Small readers of the colour configuration: a colour written as six hex
//! digits, and a value list split at its top-level separators (commas
//! inside `[...]` belong to the item).
use vstd::prelude::*;
use vstd::string::{StrSliceExecFns, StringSliceAdditionalSpecFns};
use vstd::utf8::is_char_boundary;
use crate::keys::sat_sub;
use crate::text::{chars_of, trim, trim_spec};

verus! {

/// The value of an ASCII hex digit byte (either case).
pub open spec fn hex_byte(b: u8) -> Option<u8> {
    if 48 <= b <= 57 {
        Some((b - 48) as u8)
    } else if 97 <= b <= 102 {
        Some((b - 87) as u8)
    } else if 65 <= b <= 70 {
        Some((b - 55) as u8)
    } else {
        None
    }
}

/// Two bytes read as `u8::from_str_radix(_, 16)` reads them: two hex
/// digits, or a `+` sign and one digit.
pub open spec fn radix16_pair(b0: u8, b1: u8) -> Option<u8> {
    if b0 == 43 {
        hex_byte(b1)
    } else {
        match (hex_byte(b0), hex_byte(b1)) {
            (Some(x), Some(y)) => Some((x * 16 + y) as u8),
            _ => None,
        }
    }
}

fn hex_byte_of(b: u8) -> (r: Option<u8>)
    ensures
        r == hex_byte(b),
{
    if 48 <= b && b <= 57 {
        Some(b - 48)
    } else if 97 <= b && b <= 102 {
        Some(b - 87)
    } else if 65 <= b && b <= 70 {
        Some(b - 55)
    } else {
        None
    }
}

fn radix16_pair_of(b0: u8, b1: u8) -> (r: Option<u8>)
    ensures
        r == radix16_pair(b0, b1),
{
    if b0 == 43 {
        hex_byte_of(b1)
    } else {
        match (hex_byte_of(b0), hex_byte_of(b1)) {
            (Some(x), Some(y)) => Some(x * 16 + y),
            _ => None,
        }
    }
}

/// Reads the first six bytes of `s` as three hex pairs (red, green, blue);
/// `None` when `s` is shorter or a pair is not a hex number.
pub fn parse_hex3(s: &str) -> (r: Option<[u8; 3]>)
    requires
        s.spec_bytes().len() >= 6 ==> is_char_boundary(s.spec_bytes(), 2) && is_char_boundary(
            s.spec_bytes(),
            4,
        ) && is_char_boundary(s.spec_bytes(), 6),
    ensures
        ({
            let b = s.spec_bytes();
            if b.len() < 6 {
                r is None
            } else {
                match (radix16_pair(b[0], b[1]), radix16_pair(b[2], b[3]), radix16_pair(b[4], b[5])) {
                    (Some(x), Some(y), Some(z)) => r matches Some(a) && a@ == seq![x, y, z],
                    _ => r is None,
                }
            }
        }),
{
    let b = s.as_bytes();
    if b.len() < 6 {
        return None;
    }
    let x = match radix16_pair_of(b[0], b[1]) {
        Some(v) => v,
        None => {
            return None;
        },
    };
    let y = match radix16_pair_of(b[2], b[3]) {
        Some(v) => v,
        None => {
            return None;
        },
    };
    let z = match radix16_pair_of(b[4], b[5]) {
        Some(v) => v,
        None => {
            return None;
        },
    };
    let a = [x, y, z];
    assert(a@ =~= seq![x, y, z]);
    Some(a)
}

/// Bracket depth before position `i`: `[` opens, `]` closes (never below
/// zero).
pub open spec fn depth_before(s: Seq<char>, i: int) -> int
    decreases i,
{
    if i <= 0 {
        0
    } else {
        let d = depth_before(s, i - 1);
        if s[i - 1] == '[' {
            d + 1
        } else if s[i - 1] == ']' {
            sat_sub(d, 1)
        } else {
            d
        }
    }
}

/// The trimmed pieces of `s` from position `i` on, the current piece having
/// begun at `last`: a separator outside brackets ends a piece.
pub open spec fn pieces_from(s: Seq<char>, sep: char, i: int, last: int) -> Seq<Seq<char>>
    decreases s.len() - i,
{
    if i >= s.len() {
        seq![trim_spec(s.subrange(last, s.len() as int))]
    } else if s[i] != '[' && s[i] != ']' && s[i] == sep && depth_before(s, i) == 0 {
        seq![trim_spec(s.subrange(last, i))] + pieces_from(s, sep, i + 1, i + 1)
    } else {
        pieces_from(s, sep, i + 1, last)
    }
}

/// Splits `s` at each `sep` outside square brackets and trims the pieces.
pub fn split_top_level<'a>(s: &'a str, sep: char) -> (r: Vec<&'a str>)
    requires
        (sep as u32) < 128,
        forall|i: int| 0 <= i <= s@.len() ==> #[trigger] depth_before(s@, i) < 256,
    ensures
        r@.map_values(|p: &str| p@) == pieces_from(s@, sep, 0, 0),
{
    let ch = chars_of(s);
    let mut parts: Vec<&'a str> = Vec::new();
    let mut depth: u8 = 0;
    let mut last: usize = 0;
    let mut i: usize = 0;
    while i < ch.len()
        invariant
            ch@ == s@,
            i <= ch@.len(),
            last <= i,
            depth == depth_before(s@, i as int),
            forall|j: int| 0 <= j <= s@.len() ==> #[trigger] depth_before(s@, j) < 256,
            pieces_from(s@, sep, 0, 0) == parts@.map_values(|p: &str| p@) + pieces_from(
                s@,
                sep,
                i as int,
                last as int,
            ),
        decreases ch@.len() - i,
    {
        let c = ch[i];
        let ghost before = parts@;
        assert(depth_before(s@, i + 1) < 256);
        if c == '[' {
            depth = depth + 1;
        } else if c == ']' {
            depth = depth.saturating_sub(1);
        } else if c == sep && depth == 0 {
            let piece = trim(s.substring_char(last, i));
            parts.push(piece);
            assert(parts@.map_values(|p: &str| p@) =~= before.map_values(|p: &str| p@).push(piece@));
            assert(seq![piece@] + pieces_from(s@, sep, i + 1, i + 1) == pieces_from(
                s@,
                sep,
                i as int,
                last as int,
            ));
            assert(before.map_values(|p: &str| p@).push(piece@) + pieces_from(s@, sep, i + 1, i + 1)
                =~= before.map_values(|p: &str| p@) + (seq![piece@] + pieces_from(s@, sep, i + 1, i + 1)));
            last = i + 1;
        }
        i += 1;
    }
    let piece = trim(s.substring_char(last, ch.len()));
    let ghost before = parts@;
    parts.push(piece);
    assert(parts@.map_values(|p: &str| p@) =~= before.map_values(|p: &str| p@) + seq![piece@]);
    parts
}

} // verus!

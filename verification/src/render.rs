//! What the viewer shows for a byte or a character: the text of a byte in
//! the data column, the group used for alternating shades, the colours of
//! the background modes and of the 256-colour palette, the help text, and
//! the reading of a hexadecimal offset typed by the user.
use vstd::prelude::*;
use vstd::string::StringExecFns;
use crate::app::{lemma_wf_parts, lemma_wf_records, App, DisplayMode, InputMode};
use crate::text::{chars_of, hex_value, string_from, trim, trim_spec};

verus! {

/// Lower-case hexadecimal digit of a value below 16.
pub open spec fn hex_digit(v: int) -> char {
    if v < 10 {
        (('0' as int) + v) as char
    } else {
        (('a' as int) + v - 10) as char
    }
}

/// A byte as two lower-case hexadecimal digits (`{:02x}`).
pub open spec fn hex2(b: u8) -> Seq<char> {
    seq![hex_digit((b / 16) as int), hex_digit((b % 16) as int)]
}

pub(crate) fn hex_digit_char(v: u8) -> (c: char)
    requires
        v < 16,
    ensures
        c == hex_digit(v as int),
{
    if v < 10 {
        ((48u8 + v) as char)
    } else {
        ((87u8 + v) as char)
    }
}

/// The two hexadecimal digits of `b`.
pub(crate) fn hex2_string(b: u8) -> (r: String)
    ensures
        r@ == hex2(b),
{
    let mut v: Vec<char> = Vec::new();
    v.push(hex_digit_char(b / 16));
    v.push(hex_digit_char(b % 16));
    proof {
        assert(v@ =~= hex2(b));
    }
    string_from(&v)
}

/// Text of a byte in the data column, as the viewer shows it.
pub open spec fn disp_spec(b: u8, mode: DisplayMode) -> Seq<char> {
    match mode {
        DisplayMode::Ascii => if b == 0 {
            ". "@
        } else if b == 0x09 {
            "↹ "@
        } else if b == 0x0d {
            "↵ "@
        } else if b == 10 {
            "⏎ "@
        } else if b == 0x1b {
            "\\e"@
        } else if 0x01 <= b <= 0x1f {
            hex2(b)
        } else if b == 0x20 {
            "· "@
        } else if 0x21 <= b <= 0x7e {
            seq![b as char, ' ']
        } else {
            hex2(b)
        },
        _ => hex2(b),
    }
}

/// Text of a byte in the data column: in ASCII mode a printable character
/// followed by a space, a symbol for NUL, tab, CR, LF, ESC and space, two
/// hex digits otherwise; two hex digits in the other modes.
pub fn byte_disp(b: u8, mode: DisplayMode) -> (r: String)
    ensures
        r@ == disp_spec(b, mode),
{
    match mode {
        DisplayMode::Ascii => {
            if b == 0 {
                String::from_str(". ")
            } else if b == 0x09 {
                String::from_str("↹ ")
            } else if b == 0x0d {
                String::from_str("↵ ")
            } else if b == 10 {
                String::from_str("⏎ ")
            } else if b == 0x1b {
                String::from_str("\\e")
            } else if 0x01 <= b && b <= 0x1f {
                hex2_string(b)
            } else if b == 0x20 {
                String::from_str("· ")
            } else if 0x21 <= b && b <= 0x7e {
                let mut v: Vec<char> = Vec::new();
                v.push(b as char);
                v.push(' ');
                proof {
                    assert(v@ =~= seq![b as char, ' ']);
                }
                string_from(&v)
            } else {
                hex2_string(b)
            }
        },
        _ => hex2_string(b),
    }
}

/// Text of a byte in the earlier renderer: as `byte_disp`, but CR shows as
/// `\r` and a tab as its hex digits.
pub open spec fn display_spec(b: u8, mode: DisplayMode) -> Seq<char> {
    match mode {
        DisplayMode::Ascii => if b == 0 {
            ". "@
        } else if b == 0x0d {
            "\\r"@
        } else if b == 10 {
            "⏎ "@
        } else if b == 0x1b {
            "\\e"@
        } else if 0x01 <= b <= 0x1f {
            hex2(b)
        } else if b == 0x20 {
            "· "@
        } else if 0x21 <= b <= 0x7e {
            seq![b as char, ' ']
        } else {
            hex2(b)
        },
        _ => hex2(b),
    }
}

/// Text of a byte as the earlier renderer showed it (see `display_spec`).
pub fn byte_display(b: u8, mode: DisplayMode) -> (r: String)
    ensures
        r@ == display_spec(b, mode),
{
    match mode {
        DisplayMode::Ascii => {
            if b == 0 {
                String::from_str(". ")
            } else if b == 0x0d {
                String::from_str("\\r")
            } else if b == 10 {
                String::from_str("⏎ ")
            } else if b == 0x1b {
                String::from_str("\\e")
            } else if 0x01 <= b && b <= 0x1f {
                hex2_string(b)
            } else if b == 0x20 {
                String::from_str("· ")
            } else if 0x21 <= b && b <= 0x7e {
                let mut v: Vec<char> = Vec::new();
                v.push(b as char);
                v.push(' ');
                proof {
                    assert(v@ =~= seq![b as char, ' ']);
                }
                string_from(&v)
            } else {
                hex2_string(b)
            }
        },
        _ => hex2_string(b),
    }
}

/// Group of a byte for alternating shades: bytes of one group in a row are
/// shaded alternately. 0 in UTF-8 mode.
pub open spec fn byte_group_spec(b: u8, mode: DisplayMode) -> u8 {
    match mode {
        DisplayMode::Ascii => if b == 0 {
            1
        } else if b == 0x0d {
            2
        } else if b == 10 || b == 0x20 {
            3
        } else if b == 0x1b || (0x01 <= b <= 0x1f) {
            4
        } else if 0x21 <= b <= 0x7e {
            5
        } else if 0x80 <= b <= 0xbf {
            6
        } else {
            7
        },
        DisplayMode::Hex => if 0x20 <= b <= 0x7e {
            1
        } else if b == 0 {
            2
        } else if b == 0x0d {
            3
        } else if b == 10 {
            4
        } else if b == 0x1b || (0x01 <= b <= 0x1f) {
            5
        } else if 0x80 <= b <= 0xbf {
            6
        } else {
            7
        },
        DisplayMode::Utf8 => 0,
    }
}

pub fn byte_type_group(b: u8, mode: DisplayMode) -> (r: u8)
    ensures
        r == byte_group_spec(b, mode),
{
    match mode {
        DisplayMode::Ascii => {
            if b == 0 {
                1
            } else if b == 0x0d {
                2
            } else if b == 10 || b == 0x20 {
                3
            } else if b == 0x1b || (0x01 <= b && b <= 0x1f) {
                4
            } else if 0x21 <= b && b <= 0x7e {
                5
            } else if 0x80 <= b && b <= 0xbf {
                6
            } else {
                7
            }
        },
        DisplayMode::Hex => {
            if 0x20 <= b && b <= 0x7e {
                1
            } else if b == 0 {
                2
            } else if b == 0x0d {
                3
            } else if b == 10 {
                4
            } else if b == 0x1b || (0x01 <= b && b <= 0x1f) {
                5
            } else if 0x80 <= b && b <= 0xbf {
                6
            } else {
                7
            }
        },
        DisplayMode::Utf8 => 0,
    }
}

/// Group of a decoded character for alternating shades, by Unicode block:
/// printable ASCII, common controls, other controls, CJK ideographs, Hangul,
/// CJK symbols and kana, general punctuation, the rest.
pub open spec fn char_group_spec(ch: char) -> u8 {
    let cp = ch as u32;
    if 0x21 <= cp <= 0x7e {
        1
    } else if ch == '\n' || ch == '\r' || ch == '\t' {
        2
    } else if cp < 0x20 {
        3
    } else if 0x4E00 <= cp <= 0x9FFF {
        4
    } else if 0xAC00 <= cp <= 0xD7AF {
        5
    } else if 0x3000 <= cp <= 0x30FF {
        6
    } else if 0x2000 <= cp <= 0x206F {
        7
    } else {
        8
    }
}

pub fn char_type_group(ch: char) -> (r: u8)
    ensures
        r == char_group_spec(ch),
{
    let cp = ch as u32;
    if cp >= 0x21 && cp <= 0x7e {
        1
    } else if ch == '\n' || ch == '\r' || ch == '\t' {
        2
    } else if cp < 0x20 {
        3
    } else if cp >= 0x4E00 && cp <= 0x9FFF {
        4
    } else if cp >= 0xAC00 && cp <= 0xD7AF {
        5
    } else if cp >= 0x3000 && cp <= 0x30FF {
        6
    } else if cp >= 0x2000 && cp <= 0x206F {
        7
    } else {
        8
    }
}

/// Level of one axis of the 6×6×6 colour cube.
pub open spec fn cube_level(v: int) -> u8 {
    if v == 0 {
        0
    } else {
        (55 + v * 40) as u8
    }
}

/// RGB of an index of the 256-colour cube (16 to 231).
pub fn cube_rgb(idx: u8) -> (r: (u8, u8, u8))
    requires
        idx >= 16,
    ensures
        ({
            let i = idx - 16;
            r == (cube_level(i / 36), cube_level((i / 6) % 6), cube_level(i % 6))
        }),
{
    let i = (idx - 16) as usize;
    let r = i / 36;
    let g = (i / 6) % 6;
    let b = i % 6;
    (
        if r == 0 {
            0
        } else {
            (55 + r * 40) as u8
        },
        if g == 0 {
            0
        } else {
            (55 + g * 40) as u8
        },
        if b == 0 {
            0
        } else {
            (55 + b * 40) as u8
        },
    )
}

/// RGB of an index of the 24 grays (232 to 255).
pub fn gray_rgb(idx: u8) -> (r: (u8, u8, u8))
    requires
        idx >= 232,
    ensures
        r.0 == 8 + (idx - 232) * 10 && r.1 == r.0 && r.2 == r.0,
{
    let v = 8 + (idx - 232) * 10;
    (v, v, v)
}

/// The sixteen standard and bright colours.
pub open spec fn base_rgb(idx: u8) -> (u8, u8, u8) {
    if idx == 0 {
        (0, 0, 0)
    } else if idx == 1 {
        (170, 0, 0)
    } else if idx == 2 {
        (0, 170, 0)
    } else if idx == 3 {
        (170, 85, 0)
    } else if idx == 4 {
        (0, 0, 170)
    } else if idx == 5 {
        (170, 0, 170)
    } else if idx == 6 {
        (0, 170, 170)
    } else if idx == 7 {
        (170, 170, 170)
    } else if idx == 8 {
        (85, 85, 85)
    } else if idx == 9 {
        (255, 85, 85)
    } else if idx == 10 {
        (85, 255, 85)
    } else if idx == 11 {
        (255, 255, 85)
    } else if idx == 12 {
        (85, 85, 255)
    } else if idx == 13 {
        (255, 85, 255)
    } else if idx == 14 {
        (85, 255, 255)
    } else {
        (255, 255, 255)
    }
}

/// RGB of any index of the 256-colour palette.
pub fn indexed_rgb(idx: u8) -> (r: (u8, u8, u8))
    ensures
        idx < 16 ==> r == base_rgb(idx),
        16 <= idx <= 231 ==> ({
            let i = idx - 16;
            r == (cube_level(i / 36), cube_level((i / 6) % 6), cube_level(i % 6))
        }),
        idx >= 232 ==> r.0 == 8 + (idx - 232) * 10 && r.1 == r.0 && r.2 == r.0,
{
    let std_colors: [(u8, u8, u8); 8] = [
        (0, 0, 0),
        (170, 0, 0),
        (0, 170, 0),
        (170, 85, 0),
        (0, 0, 170),
        (170, 0, 170),
        (0, 170, 170),
        (170, 170, 170),
    ];
    let bright_colors: [(u8, u8, u8); 8] = [
        (85, 85, 85),
        (255, 85, 85),
        (85, 255, 85),
        (255, 255, 85),
        (85, 85, 255),
        (255, 85, 255),
        (85, 255, 255),
        (255, 255, 255),
    ];
    if idx <= 7 {
        std_colors[idx as usize]
    } else if idx <= 15 {
        bright_colors[(idx - 8) as usize]
    } else if idx <= 231 {
        cube_rgb(idx)
    } else {
        gray_rgb(idx)
    }
}

/// Gray background of a byte: its value on all three channels.
pub fn gray_bg(b: u8) -> (r: (u8, u8, u8))
    ensures
        r == (b, b, b),
{
    (b, b, b)
}

/// Heat-map background of a byte: black → blue → red → yellow → white in
/// four linear steps of 64 values (each channel taken modulo 256).
pub open spec fn heat_spec(b: u8) -> (u8, u8, u8) {
    let v = b as int;
    if v < 64 {
        (0, 0, (v * 4) as u8)
    } else if v < 128 {
        (((v - 64) * 4) as u8, 0, ((128 - v) * 4) as u8)
    } else if v < 192 {
        (255, ((v - 128) * 4) as u8, 0)
    } else {
        (255, 255, ((v - 192) * 4) as u8)
    }
}

pub fn heat_bg(b: u8) -> (r: (u8, u8, u8))
    ensures
        r == heat_spec(b),
{
    let v = b as u16;
    let (r, g, bl): (u16, u16, u16) = if v < 64 {
        (0, 0, v * 4)
    } else if v < 128 {
        ((v - 64) * 4, 0, (128 - v) * 4)
    } else if v < 192 {
        (255, (v - 128) * 4, 0)
    } else {
        (255, 255, (v - 192) * 4)
    };
    (r as u8, g as u8, bl as u8)
}

/// Bit-split background of a byte `0bRR_GGGG_BB`: red and blue from 2 bits
/// (×85), green from 4 bits (×17).
pub fn rgbbit_bg(b: u8) -> (r: (u8, u8, u8))
    ensures
        r.0 == ((b >> 6u8) & 3) * 85,
        r.1 == ((b >> 2u8) & 15) * 17,
        r.2 == (b & 3) * 85,
{
    assert((b >> 6u8) & 3 <= 3 && (b >> 2u8) & 15 <= 15 && b & 3 <= 3) by (bit_vector);
    let r = ((b >> 6u8) & 0x03) * 85;
    let g = ((b >> 2u8) & 0x0F) * 17;
    let bl = (b & 0x03) * 85;
    (r, g, bl)
}

/// Neighbour background of the byte at `off`: red from the byte before,
/// green from the byte, blue from the byte after; at the file's ends the
/// byte 16 further on stands in (0 past the data).
pub open spec fn rgb_spec(data: Seq<u8>, off: int, file_size: int) -> (u8, u8, u8) {
    let far = if off + 16 < data.len() {
        data[off + 16]
    } else {
        0
    };
    (if off > 0 {
        data[off - 1]
    } else {
        far
    }, data[off], if off + 1 < file_size {
        data[off + 1]
    } else {
        far
    })
}

pub fn rgb_bg(data: &[u8], off: usize, file_size: usize) -> (r: (u8, u8, u8))
    requires
        off < data@.len(),
        off + 1 < file_size ==> off + 1 < data@.len(),
        off + 16 <= usize::MAX,
    ensures
        r == rgb_spec(data@, off as int, file_size as int),
{
    let far = if off + 16 < data.len() {
        data[off + 16]
    } else {
        0
    };
    let r = if off > 0 {
        data[off - 1]
    } else {
        far
    };
    let g = data[off];
    let b = if off + 1 < file_size {
        data[off + 1]
    } else {
        far
    };
    (r, g, b)
}

/// Value of a run of hexadecimal digits, most significant first.
pub open spec fn hex_number(s: Seq<char>) -> int
    decreases s.len(),
{
    if s.len() == 0 {
        0
    } else {
        hex_number(s.drop_last()) * 16 + hex_value(s.last())->0
    }
}

/// The ASCII hexadecimal digits of `s`, in order.
pub open spec fn hex_digits_of(s: Seq<char>) -> Seq<char> {
    s.filter(hex_pred())
}

pub open spec fn hex_pred() -> spec_fn(char) -> bool {
    |c: char| hex_value(c) is Some
}

/// The text after an optional `0x` or `0X` prefix.
pub open spec fn without_0x(s: Seq<char>) -> Seq<char> {
    if s.len() >= 2 && s[0] == '0' && (s[1] == 'x' || s[1] == 'X') {
        s.subrange(2, s.len() as int)
    } else {
        s
    }
}

/// How a data cell is set off.
#[derive(Debug, Clone, Copy, PartialEq, Eq, Structural)]
pub enum Emphasis {
    /// The cursor is on it.
    Cursor,
    /// It lies in the current match.
    Match,
    /// The selection starts at it.
    SelectionStart,
    /// It lies in the selection.
    Selected,
    /// Shown dimmed (edit mode without the gray background).
    Dimmed,
    /// As its byte says.
    Plain,
}

/// The emphasis of the cell at `off`, by priority: the focused cursor; the
/// current match `mr` (start, end) when the cell lies in it; the selection,
/// when both its ends are set and the cell lies between them (inclusive),
/// its first end told apart; dimmed when `dim` holds; else plain.
pub open spec fn emphasis_spec(
    off: usize,
    focused: bool,
    cursor: usize,
    mr: Option<(usize, usize)>,
    sel_start: Option<usize>,
    sel_end: Option<usize>,
    dim: bool,
) -> Emphasis {
    if focused && cursor == off {
        Emphasis::Cursor
    } else if mr is Some && (mr->0).0 <= off && off < (mr->0).1 {
        Emphasis::Match
    } else if sel_start is Some && sel_end is Some && ({
        let a = sel_start->0;
        let b = sel_end->0;
        (a <= off && off <= b) || (b <= off && off <= a)
    }) {
        if off == sel_start->0 {
            Emphasis::SelectionStart
        } else {
            Emphasis::Selected
        }
    } else if dim {
        Emphasis::Dimmed
    } else {
        Emphasis::Plain
    }
}

/// The emphasis of a data cell (see `emphasis_spec`).
pub fn cell_emphasis(
    off: usize,
    focused: bool,
    cursor: usize,
    mr: Option<(usize, usize)>,
    sel_start: Option<usize>,
    sel_end: Option<usize>,
    dim: bool,
) -> (r: Emphasis)
    ensures
        r == emphasis_spec(off, focused, cursor, mr, sel_start, sel_end, dim),
{
    if focused && cursor == off {
        return Emphasis::Cursor;
    }
    if let Some((ms, me)) = mr {
        if ms <= off && off < me {
            return Emphasis::Match;
        }
    }
    if let (Some(a), Some(b)) = (sel_start, sel_end) {
        if (a <= off && off <= b) || (b <= off && off <= a) {
            if off == a {
                return Emphasis::SelectionStart;
            } else {
                return Emphasis::Selected;
            }
        }
    }
    if dim {
        Emphasis::Dimmed
    } else {
        Emphasis::Plain
    }
}

/// Reads an offset typed in hexadecimal: the text is trimmed, a `0x` or
/// `0X` prefix dropped, and every character that is not a hex digit
/// ignored. No digits, or a value beyond `usize`, give `None`.
pub fn parse_hex_input(s: &str) -> (r: Option<usize>)
    ensures
        ({
            let d = hex_digits_of(without_0x(trim_spec(s@)));
            if d.len() == 0 || hex_number(d) > usize::MAX {
                r is None
            } else {
                r == Some(hex_number(d) as usize)
            }
        }),
{
    let t = chars_of(trim(s));
    let ghost ts = t@;
    let start: usize = if t.len() >= 2 && t[0] == '0' && (t[1] == 'x' || t[1] == 'X') {
        2
    } else {
        0
    };
    let ghost body = without_0x(ts);
    assert(body == ts.subrange(start as int, ts.len() as int));
    let mut i = start;
    let mut count: usize = 0;
    let mut value: usize = 0;
    let mut overflow = false;
    let ghost mut digits: Seq<char> = seq![];
    while i < t.len()
        invariant
            t@ == ts,
            start <= i <= ts.len(),
            body == ts.subrange(start as int, ts.len() as int),
            digits == hex_digits_of(ts.subrange(start as int, i as int)),
            count == digits.len(),
            !overflow ==> value == hex_number(digits),
            overflow ==> hex_number(digits) > usize::MAX,
        decreases ts.len() - i,
    {
        let c = t[i];
        proof {
            let pre = ts.subrange(start as int, i as int);
            assert(ts.subrange(start as int, i + 1) =~= pre.push(c));
            lemma_filter_push(pre, c);
        }
        match crate::search::hv(c) {
            Some(d) => {
                let ghost prev = digits;
                proof {
                    digits = digits.push(c);
                    lemma_hex_number_push(prev, c);
                    lemma_hex_number_nonneg(prev);
                }
                if !overflow {
                    if value > (usize::MAX - d as usize) / 16 {
                        overflow = true;
                        proof {
                            assert(hex_number(digits) > usize::MAX) by (nonlinear_arith)
                                requires
                                    hex_number(digits) == value * 16 + d,
                                    value > (usize::MAX - d) / 16,
                                    d < 16,
                            ;
                        }
                    } else {
                        assert(value * 16 + d <= usize::MAX) by (nonlinear_arith)
                            requires
                                value <= (usize::MAX - d) / 16,
                                d < 16,
                        ;
                        value = value * 16 + d as usize;
                    }
                }
                count += 1;
            },
            None => {},
        }
        i += 1;
    }
    if count == 0 || overflow {
        None
    } else {
        Some(value)
    }
}

proof fn lemma_filter_push(s: Seq<char>, c: char)
    ensures
        hex_digits_of(s.push(c)) == if hex_value(c) is Some {
            hex_digits_of(s).push(c)
        } else {
            hex_digits_of(s)
        },
{
    s.lemma_filter_push(c, hex_pred());
}

proof fn lemma_hex_number_push(s: Seq<char>, c: char)
    requires
        hex_value(c) is Some,
    ensures
        hex_number(s.push(c)) == hex_number(s) * 16 + hex_value(c)->0,
{
    assert(s.push(c).drop_last() =~= s);
}

pub(crate) proof fn lemma_hex_number_nonneg(s: Seq<char>)
    ensures
        hex_number(s) >= 0,
    decreases s.len(),
{
    if s.len() > 0 {
        lemma_hex_number_nonneg(s.drop_last());
    }
}

/// The help text, line by line.
pub open spec fn help_text() -> Seq<&'static str> {
    seq![
        "=== READ_BIN HELP ===",
        "",
        "Navigation (non-search mode):",
        "  hjkl / ←→↑↓            Move cursor / scroll",
        "  H / L                   Jump ±16 packs",
        "  J / K                   Scroll one screen",
        "  PGUP / PGDN             Scroll half screen",
        "  HOME                    Go to first pack",
        "  g                       Go to pack (hex input)",
        "",
        "Search mode (after pressing f/F):",
        "  ↑ / ↓ (or j/k)          Navigate matches within current pack",
        "  ← / → (or h/l)          Jump to global next/prev match",
        "  O / P                   Jump ±1MB block",
        "  H / L                   Jump ±16 packs",
        "  HOME                    Jump to first match in file",
        "  ESC                     Clear search highlight",
        "",
        "Search input:",
        "  f                       Search hex / regex / advanced hex (x/z)",
        "  F                       Search plain UTF-8 string",
        "",
        "Edit mode (press i):",
        "  ESC                     Exit edit mode",
        "  ←→↑↓                    Move cursor",
        "  0-9a-fA-F               Edit nibble (hex mode)",
        "  Enter                   Insert newline (\\n)",
        "  Tab                     Insert tab (\\t)",
        "  any character           Insert byte (ASCII mode)",
        "",
        "Other:",
        "  m                       Toggle display mode (ASCII / HEX / UTF8)",
        "  q                       Quit (with save prompt if modified)",
        "  ?                       Show this help",
        "",
        "Press any key to close",
    ]
}

/// The lines of the help popup.
pub fn help_lines() -> (r: Vec<&'static str>)
    ensures
        r@ == help_text(),
{
    let r = vec![
        "=== READ_BIN HELP ===",
        "",
        "Navigation (non-search mode):",
        "  hjkl / ←→↑↓            Move cursor / scroll",
        "  H / L                   Jump ±16 packs",
        "  J / K                   Scroll one screen",
        "  PGUP / PGDN             Scroll half screen",
        "  HOME                    Go to first pack",
        "  g                       Go to pack (hex input)",
        "",
        "Search mode (after pressing f/F):",
        "  ↑ / ↓ (or j/k)          Navigate matches within current pack",
        "  ← / → (or h/l)          Jump to global next/prev match",
        "  O / P                   Jump ±1MB block",
        "  H / L                   Jump ±16 packs",
        "  HOME                    Jump to first match in file",
        "  ESC                     Clear search highlight",
        "",
        "Search input:",
        "  f                       Search hex / regex / advanced hex (x/z)",
        "  F                       Search plain UTF-8 string",
        "",
        "Edit mode (press i):",
        "  ESC                     Exit edit mode",
        "  ←→↑↓                    Move cursor",
        "  0-9a-fA-F               Edit nibble (hex mode)",
        "  Enter                   Insert newline (\\n)",
        "  Tab                     Insert tab (\\t)",
        "  any character           Insert byte (ASCII mode)",
        "",
        "Other:",
        "  m                       Toggle display mode (ASCII / HEX / UTF8)",
        "  q                       Quit (with save prompt if modified)",
        "  ?                       Show this help",
        "",
        "Press any key to close",
    ];
    proof {
        assert(r@ =~= help_text());
    }
    r
}

/// How many cells before cell `i` belong to the same run of equal groups
/// (a run may also begin with group 0, which the row starts from).
pub open spec fn run_count(g: Seq<u8>, i: int) -> int
    decreases i,
{
    if i <= 0 {
        if g[0] == 0 {
            1
        } else {
            0
        }
    } else if g[i] == g[i - 1] {
        run_count(g, i - 1) + 1
    } else {
        0
    }
}

/// Alternate shading within runs of cells of the same group: the second,
/// fourth, ... cell of each run is dimmed.
pub fn alternate_dims(groups: &Vec<u8>) -> (r: Vec<bool>)
    ensures
        r@.len() == groups@.len(),
        forall|i: int| 0 <= i < groups@.len() ==> r@[i] == (run_count(groups@, i) % 2 == 1),
{
    let mut r: Vec<bool> = Vec::new();
    let mut prev: u8 = 0;
    let mut count: usize = 0;
    let mut i: usize = 0;
    while i < groups.len()
        invariant
            i <= groups@.len(),
            r@.len() == i,
            count <= i,
            i > 0 ==> count == run_count(groups@, i - 1) && prev == groups@[i - 1],
            i == 0 ==> count == 0 && prev == 0,
            forall|j: int| 0 <= j < i ==> r@[j] == (run_count(groups@, j) % 2 == 1),
        decreases groups@.len() - i,
    {
        if groups[i] == prev {
            count += 1;
        } else {
            count = 0;
            prev = groups[i];
        }
        r.push(count % 2 == 1);
        i += 1;
    }
    r
}


/// One data cell of a row shown in a byte mode.
#[derive(Debug, Clone)]
pub struct Cell {
    /// The file offset of the byte.
    pub off: usize,
    /// The byte shown: the edited value, else the file's.
    pub byte: u8,
    /// Its text in the data column.
    pub text: String,
    /// Shaded as every second cell of a run of one group, when no background
    /// mode is on.
    pub shade: bool,
    /// The byte was edited: it is shown in italics.
    pub italic: bool,
    /// How the cell is set off.
    pub emphasis: Emphasis,
}

impl App {
    /// Whether a background colour mode is on.
    pub open spec fn any_bg_spec(&self) -> bool {
        self.is_color256 || self.is_rgb_bg || self.is_hsl_bg || self.is_gray_bg || self.is_heat_bg
            || self.is_hslbit_bg || self.is_rgbbit_bg
    }

    /// Number of bytes on the row `grow` of the file: 16, fewer on the last
    /// row, none past the end.
    pub open spec fn row_len(&self, grow: int) -> int {
        let base = grow * 16;
        if base >= self.file_size {
            0
        } else if self.file_size - base < 16 {
            self.file_size - base
        } else {
            16
        }
    }

    /// The groups of the bytes shown on row `grow`, by which cells are shaded.
    pub open spec fn row_groups(&self, data: Seq<u8>, grow: int) -> Seq<u8> {
        Seq::new(
            self.row_len(grow) as nat,
            |i: int| byte_group_spec(self.shown(data, grow * 16 + i), self.mode),
        )
    }

    /// The cell of the byte at `off` on a row whose groups are `groups`, the
    /// byte being the `k`-th of its row.
    pub open spec fn cell_spec(&self, data: Seq<u8>, groups: Seq<u8>, k: int, off: int, c: Cell) -> bool {
        let mr = if self.search_active && self.current_match is Some {
            Some((self.current_match->0, (self.current_match->0 + self.search_len) as usize))
        } else {
            None::<(usize, usize)>
        };
        &&& c.off == off
        &&& c.byte == self.shown(data, off)
        &&& c.text@ == disp_spec(c.byte, self.mode)
        &&& c.shade == (run_count(groups, k) % 2 == 1 && !self.any_bg_spec())
        &&& c.italic == self.modified.has(off)
        &&& c.emphasis == emphasis_spec(
            off as usize,
            self.cursor_focused,
            self.cursor_byte,
            mr,
            self.sel_start,
            self.sel_end,
            self.input_mode == InputMode::Edit && !self.is_gray_bg,
        )
    }

    /// The cells of row `grow` in a byte mode: for each byte of the row, the
    /// byte shown and its text, its shade, whether it was edited (italics),
    /// and its emphasis (cursor, current match, selection, dimmed in edit
    /// mode without the gray background).
    pub fn row_cells(&self, data: &[u8], grow: usize) -> (r: Vec<Cell>)
        requires
            self.wf(),
            self.mode != DisplayMode::Utf8,
            self.file_size <= data@.len(),
            grow <= self.file_size / 16,
            self.current_match matches Some(p) ==> p + self.search_len <= usize::MAX,
        ensures
            r@.len() == self.row_len(grow as int),
            forall|k: int|
                0 <= k < r@.len() ==> self.cell_spec(
                    data@,
                    self.row_groups(data@, grow as int),
                    k,
                    grow * 16 + k,
                    #[trigger] r@[k],
                ),
    {
        proof {
            lemma_wf_parts(*self);
            lemma_wf_records(*self);
        }
        let base: usize = grow * 16;
        let count: usize = if self.file_size - base < 16 {
            self.file_size - base
        } else {
            16
        };
        let ghost groups = self.row_groups(data@, grow as int);
        let mut gs: Vec<u8> = Vec::new();
        let mut i: usize = 0;
        while i < count
            invariant
                count == self.row_len(grow as int),
                base == grow * 16,
                base + count <= self.file_size,
                self.file_size <= data@.len(),
                groups == self.row_groups(data@, grow as int),
                i <= count,
                gs@ =~= groups.take(i as int),
            decreases count - i,
        {
            let b = self.byte_at(data, base + i);
            gs.push(byte_type_group(b, self.mode));
            i += 1;
        }
        assert(gs@ =~= groups);
        let dims = alternate_dims(&gs);
        let bg = self.is_color256 || self.is_rgb_bg || self.is_hsl_bg || self.is_gray_bg
            || self.is_heat_bg || self.is_hslbit_bg || self.is_rgbbit_bg;
        let mr = self.current_match_range();
        let dim = self.input_mode == InputMode::Edit && !self.is_gray_bg;
        let mut r: Vec<Cell> = Vec::new();
        let mut j: usize = 0;
        while j < count
            invariant
                self.wf(),
                self.modified.wf(),
                self.file_size < crate::modified::OFFSET_LIMIT,
                count == self.row_len(grow as int),
                base == grow * 16,
                base + count <= self.file_size,
                self.file_size <= data@.len(),
                groups == self.row_groups(data@, grow as int),
                dims@.len() == count,
                forall|k: int| 0 <= k < count ==> dims@[k] == (run_count(groups, k) % 2 == 1),
                bg == self.any_bg_spec(),
                dim == (self.input_mode == InputMode::Edit && !self.is_gray_bg),
                mr == if self.search_active && self.current_match is Some {
                    Some((self.current_match->0, (self.current_match->0 + self.search_len) as usize))
                } else {
                    None::<(usize, usize)>
                },
                j <= count,
                r@.len() == j,
                forall|k: int| 0 <= k < j ==> self.cell_spec(data@, groups, k, grow * 16 + k, #[trigger] r@[k]),
            decreases count - j,
        {
            let off = base + j;
            let b = self.byte_at(data, off);
            let c = Cell {
                off,
                byte: b,
                text: byte_disp(b, self.mode),
                shade: dims[j] && !bg,
                italic: self.modified.is_modified(off),
                emphasis: cell_emphasis(
                    off,
                    self.cursor_focused,
                    self.cursor_byte,
                    mr,
                    self.sel_start,
                    self.sel_end,
                    dim,
                ),
            };
            r.push(c);
            j += 1;
        }
        r
    }
}

/// Value of a hexadecimal digit character (-1 for any other character).
pub open spec fn digit_value(c: char) -> int {
    let u = c as u32;
    if 48 <= u <= 57 {
        u - 48
    } else if 97 <= u <= 102 {
        u - 87
    } else {
        -1
    }
}

/// Two hex digits of a byte read back as the byte.
pub proof fn law_hex2_reads_back(b: u8)
    ensures
        hex2(b).len() == 2,
        0 <= digit_value(hex2(b)[0]) < 16,
        0 <= digit_value(hex2(b)[1]) < 16,
        digit_value(hex2(b)[0]) * 16 + digit_value(hex2(b)[1]) == b,
{
    let hi = (b / 16) as int;
    let lo = (b % 16) as int;
    assert(digit_value(hex_digit(hi)) == hi);
    assert(digit_value(hex_digit(lo)) == lo);
}

/// In ASCII mode a printable byte (`!` to `~`) shows as the character of its
/// own code followed by a space, and a byte above `~` (or a control without
/// a symbol of its own) as two hex digits that read back as the byte; in
/// hex and UTF-8 mode every byte shows as two hex digits that read back as
/// the byte.
pub proof fn law_byte_cell_text(b: u8)
    ensures
        0x21 <= b <= 0x7e ==> {
            let t = disp_spec(b, DisplayMode::Ascii);
            t.len() == 2 && t[0] as u32 == b as u32 && t[1] == ' '
        },
        (b >= 0x7f || (0x01 <= b <= 0x1f && b != 0x09 && b != 0x0a && b != 0x0d && b != 0x1b)) ==> {
            let t = disp_spec(b, DisplayMode::Ascii);
            t.len() == 2 && digit_value(t[0]) * 16 + digit_value(t[1]) == b
        },
        ({
            let t = disp_spec(b, DisplayMode::Hex);
            t.len() == 2 && 0 <= digit_value(t[0]) && 0 <= digit_value(t[1]) && digit_value(t[0]) * 16
                + digit_value(t[1]) == b
        }),
        ({
            let t = disp_spec(b, DisplayMode::Utf8);
            t.len() == 2 && digit_value(t[0]) * 16 + digit_value(t[1]) == b
        }),
{
    law_hex2_reads_back(b);
}

} // verus!

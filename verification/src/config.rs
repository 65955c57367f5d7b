//! The colour configuration file: colours written as names or `[r, g, b]`,
//! styles written as `{ fg: ..., bg: ... }`, and the style of a key looked
//! up at the start of a line.
use vstd::prelude::*;
use crate::app::DisplayMode;
use crate::colors::{pieces_from, split_top_level, depth_before};
use crate::text::{chars_of, string_from, trim, trim_spec, trim_start_spec, same_text, is_space_char};
use crate::utf8::ByteClass;
use crate::tui::{find_char, is_char, lemma_first_where_at, occurs_at, same_chars, slice_chars, trimmed};

verus! {

/// A colour of the configuration: a named terminal colour or an RGB triple.
#[derive(Debug, Clone, Copy, PartialEq, Eq, Structural)]
pub enum ConfColor {
    Black,
    Red,
    Green,
    Yellow,
    Blue,
    Magenta,
    Cyan,
    White,
    DarkGray,
    Rgb(u8, u8, u8),
}

/// A style of the configuration: foreground and background, each optional.
#[derive(Debug, Clone, Copy, PartialEq, Eq, Structural)]
pub struct StyleSpec {
    pub fg: Option<ConfColor>,
    pub bg: Option<ConfColor>,
}

/// The foreground that `fg: auto` stands for: chosen at drawing time from
/// the background's brightness.
pub open spec fn auto_fg() -> ConfColor {
    ConfColor::Rgb(1, 1, 1)
}

/// The pieces of `s` from position `i` between separators `sep`, the
/// current piece having begun at `last`.
pub open spec fn split_all(s: Seq<char>, sep: char, i: int, last: int) -> Seq<Seq<char>>
    decreases s.len() - i,
{
    if i >= s.len() {
        seq![s.subrange(last, s.len() as int)]
    } else if s[i] == sep {
        seq![s.subrange(last, i)] + split_all(s, sep, i + 1, i + 1)
    } else {
        split_all(s, sep, i + 1, last)
    }
}

/// Value of a run of decimal digits.
pub open spec fn digits_value(d: Seq<char>) -> int
    decreases d.len(),
{
    if d.len() == 0 {
        0
    } else {
        digits_value(d.drop_last()) * 10 + (d.last() as int - '0' as int)
    }
}

pub open spec fn all_digits(d: Seq<char>) -> bool {
    forall|i: int| 0 <= i < d.len() ==> '0' <= #[trigger] d[i] <= '9'
}

/// `s` read as `str::parse::<u8>` reads it: an optional `+`, then one or
/// more decimal digits with a value up to 255.
pub open spec fn dec_u8(s: Seq<char>) -> Option<u8> {
    let d = if s.len() > 0 && s[0] == '+' {
        s.drop_first()
    } else {
        s
    };
    if d.len() > 0 && all_digits(d) && digits_value(d) <= 255 {
        Some(digits_value(d) as u8)
    } else {
        None
    }
}

/// `s` without a leading `[` and a trailing `]`; `None` without both.
pub open spec fn inside_brackets(s: Seq<char>) -> Option<Seq<char>> {
    if s.len() >= 2 && s[0] == '[' && s.last() == ']' {
        Some(s.subrange(1, s.len() - 1))
    } else {
        None
    }
}

/// The value of component `k` of a list of numbers (0 when absent).
pub open spec fn component(ps: Seq<Seq<char>>, k: int) -> u8 {
    if k < ps.len() {
        dec_u8(trim_spec(ps[k]))->0
    } else {
        0
    }
}

/// `[r, g, b]`: at most three comma-separated numbers (see `dec_u8`, blanks
/// around them ignored) in square brackets, missing ones 0.
pub open spec fn rgb_spec(s: Seq<char>) -> Option<ConfColor> {
    match inside_brackets(s) {
        None => None,
        Some(inner) => {
            let ps = split_all(inner, ',', 0, 0);
            if ps.len() <= 3 && forall|k: int| 0 <= k < ps.len() ==> (#[trigger] dec_u8(trim_spec(ps[k]))) is Some {
                Some(ConfColor::Rgb(component(ps, 0), component(ps, 1), component(ps, 2)))
            } else {
                None
            }
        },
    }
}

/// A colour value: one of the nine names (`darkgray` also as `dark_gray`),
/// else an RGB list; `auto` is no colour.
pub open spec fn color_spec(v: Seq<char>) -> Option<ConfColor> {
    if v == "black"@ {
        Some(ConfColor::Black)
    } else if v == "red"@ {
        Some(ConfColor::Red)
    } else if v == "green"@ {
        Some(ConfColor::Green)
    } else if v == "yellow"@ {
        Some(ConfColor::Yellow)
    } else if v == "blue"@ {
        Some(ConfColor::Blue)
    } else if v == "magenta"@ {
        Some(ConfColor::Magenta)
    } else if v == "cyan"@ {
        Some(ConfColor::Cyan)
    } else if v == "white"@ {
        Some(ConfColor::White)
    } else if v == "darkgray"@ || v == "dark_gray"@ {
        Some(ConfColor::DarkGray)
    } else if v == "auto"@ {
        None
    } else {
        rgb_spec(v)
    }
}

/// The value of a run of decimal digits, `None` above 255.
fn digits_u8(d: &Vec<char>, lo: usize) -> (r: Option<u8>)
    requires
        lo <= d@.len(),
    ensures
        ({
            let t = d@.subrange(lo as int, d@.len() as int);
            if t.len() > 0 && all_digits(t) && digits_value(t) <= 255 {
                r == Some(digits_value(t) as u8)
            } else {
                r is None
            }
        }),
{
    let ghost t = d@.subrange(lo as int, d@.len() as int);
    if lo == d.len() {
        return None;
    }
    let mut v: u32 = 0;
    let mut i = lo;
    while i < d.len()
        invariant
            lo <= i <= d@.len(),
            t == d@.subrange(lo as int, d@.len() as int),
            all_digits(d@.subrange(lo as int, i as int)),
            v == digits_value(d@.subrange(lo as int, i as int)),
            v <= 255,
        decreases d@.len() - i,
    {
        let c = d[i];
        assert(d@.subrange(lo as int, i + 1).drop_last() =~= d@.subrange(lo as int, i as int));
        if !('0' <= c && c <= '9') {
            assert(!all_digits(t)) by {
                assert(t[i - lo] == c);
            }
            return None;
        }
        let nv = v * 10 + (c as u32 - '0' as u32);
        if nv > 255 {
            proof {
                assert(t.subrange(0, i - lo + 1) =~= d@.subrange(lo as int, i + 1));
                if all_digits(t) {
                    lemma_digits_value_grows(t, (i - lo + 1) as int);
                }
            }
            return None;
        }
        v = nv;
        i += 1;
    }
    assert(d@.subrange(lo as int, i as int) =~= t);
    Some(v as u8)
}

/// A longer run of digits has at least the value of its start.
proof fn lemma_digits_value_grows(t: Seq<char>, n: int)
    requires
        0 <= n <= t.len(),
        all_digits(t),
    ensures
        digits_value(t) >= digits_value(t.subrange(0, n)),
    decreases t.len() - n,
{
    if n < t.len() {
        lemma_digits_value_grows(t, n + 1);
        assert(t.subrange(0, n + 1).drop_last() =~= t.subrange(0, n));
        lemma_digits_value_nonneg(t.subrange(0, n));
    } else {
        assert(t.subrange(0, n) =~= t);
    }
}

proof fn lemma_digits_value_nonneg(t: Seq<char>)
    requires
        all_digits(t),
    ensures
        digits_value(t) >= 0,
    decreases t.len(),
{
    if t.len() > 0 {
        lemma_digits_value_nonneg(t.drop_last());
    }
}

/// `s` read as a number up to 255 (see `dec_u8`).
fn parse_u8(s: &Vec<char>) -> (r: Option<u8>)
    ensures
        r == dec_u8(s@),
{
    if s.len() > 0 && s[0] == '+' {
        assert(s@.drop_first() =~= s@.subrange(1, s@.len() as int));
        digits_u8(s, 1)
    } else {
        assert(s@ =~= s@.subrange(0, s@.len() as int));
        digits_u8(s, 0)
    }
}

/// The pieces of `v` between commas (see `split_all`).
fn split_commas(v: &Vec<char>) -> (r: Vec<Vec<char>>)
    ensures
        r@.map_values(|p: Vec<char>| p@) == split_all(v@, ',', 0, 0),
{
    let mut out: Vec<Vec<char>> = Vec::new();
    let mut last: usize = 0;
    let mut i: usize = 0;
    while i < v.len()
        invariant
            last <= i <= v@.len(),
            split_all(v@, ',', 0, 0) == out@.map_values(|p: Vec<char>| p@) + split_all(
                v@,
                ',',
                i as int,
                last as int,
            ),
        decreases v@.len() - i,
    {
        if v[i] == ',' {
            let piece = slice_chars(v, last, i);
            let ghost before = out@.map_values(|p: Vec<char>| p@);
            out.push(piece);
            proof {
                assert(out@.map_values(|p: Vec<char>| p@) =~= before.push(piece@));
                assert(before.push(piece@) + split_all(v@, ',', i + 1, i + 1) =~= before + (seq![piece@]
                    + split_all(v@, ',', i + 1, i + 1)));
            }
            last = i + 1;
        }
        i += 1;
    }
    let piece = slice_chars(v, last, v.len());
    let ghost before = out@.map_values(|p: Vec<char>| p@);
    out.push(piece);
    proof {
        assert(out@.map_values(|p: Vec<char>| p@) =~= before.push(piece@));
        assert(before + seq![piece@] =~= before.push(piece@));
    }
    out
}

/// Reads `[r, g, b]` (see `rgb_spec`).
pub fn parse_rgb(s: &str) -> (r: Option<ConfColor>)
    ensures
        r == rgb_spec(s@),
{
    let c = chars_of(s);
    if !(c.len() >= 2 && c[0] == '[' && c[c.len() - 1] == ']') {
        return None;
    }
    let inner = slice_chars(&c, 1, c.len() - 1);
    let parts = split_commas(&inner);
    let ghost ps = split_all(inner@, ',', 0, 0);
    assert(inside_brackets(s@) == Some(inner@));
    if parts.len() > 3 {
        return None;
    }
    let mut nums: Vec<u8> = vec![0, 0, 0];
    let mut k: usize = 0;
    while k < parts.len()
        invariant
            parts@.map_values(|p: Vec<char>| p@) == ps,
            ps == split_all(inner@, ',', 0, 0),
            inside_brackets(s@) == Some(inner@),
            parts@.len() <= 3,
            k <= parts@.len(),
            nums@.len() == 3,
            forall|j: int| 0 <= j < k ==> (#[trigger] dec_u8(trim_spec(ps[j]))) is Some,
            forall|j: int| 0 <= j < k ==> nums@[j] == component(ps, j),
            forall|j: int| k <= j < 3 ==> nums@[j] == 0,
        decreases parts@.len() - k,
    {
        let t = chars_of(trimmed(&parts[k]).as_str());
        assert(ps[k as int] == parts@[k as int]@);
        match parse_u8(&t) {
            Some(n) => {
                nums.set(k, n);
            },
            None => {
                assert(!(dec_u8(trim_spec(ps[k as int])) is Some));
                return None;
            },
        }
        k += 1;
    }
    Some(ConfColor::Rgb(nums[0], nums[1], nums[2]))
}

/// Reads a colour value (see `color_spec`).
pub fn parse_color(v: &str) -> (r: Option<ConfColor>)
    ensures
        r == color_spec(v@),
{
    if same_text(v, "black") {
        Some(ConfColor::Black)
    } else if same_text(v, "red") {
        Some(ConfColor::Red)
    } else if same_text(v, "green") {
        Some(ConfColor::Green)
    } else if same_text(v, "yellow") {
        Some(ConfColor::Yellow)
    } else if same_text(v, "blue") {
        Some(ConfColor::Blue)
    } else if same_text(v, "magenta") {
        Some(ConfColor::Magenta)
    } else if same_text(v, "cyan") {
        Some(ConfColor::Cyan)
    } else if same_text(v, "white") {
        Some(ConfColor::White)
    } else if same_text(v, "darkgray") || same_text(v, "dark_gray") {
        Some(ConfColor::DarkGray)
    } else if same_text(v, "auto") {
        None
    } else {
        parse_rgb(v)
    }
}


/// Index of the `}` that closes a brace entered at depth `d` before index
/// `i`; the depth is counted in a byte, so a nesting deeper than 255 has no
/// answer, and neither has a text that ends first.
pub open spec fn style_close(v: Seq<char>, i: int, d: int) -> Option<int>
    decreases v.len() - i,
{
    if i < 0 || i >= v.len() {
        None
    } else if v[i] == '{' {
        if d >= 255 {
            None
        } else {
            style_close(v, i + 1, d + 1)
        }
    } else if v[i] == '}' {
        if d <= 1 {
            Some(i)
        } else {
            style_close(v, i + 1, d - 1)
        }
    } else {
        style_close(v, i + 1, d)
    }
}

/// Square brackets nest at most 255 deep in `s`.
pub open spec fn brackets_ok(s: Seq<char>) -> bool {
    forall|i: int| 0 <= i <= s.len() ==> #[trigger] depth_before(s, i) < 256
}

/// The text between the first `{` of the trimmed value `t` and its `}`,
/// trimmed.
pub open spec fn style_inner(t: Seq<char>) -> Seq<char> {
    let b = find_char(t, 0, '{');
    trim_spec(t.subrange(b + 1, style_close(t, b + 1, 1)->0))
}

/// The style values that can be read: `{}`, a value without `{`, or one
/// whose first `{` is closed and whose brackets nest at most 255 deep.
pub open spec fn style_val_ok(val: Seq<char>) -> bool {
    let t = trim_spec(val);
    let b = find_char(t, 0, '{');
    t == "{}"@ || b >= t.len() || (style_close(t, b + 1, 1) is Some && brackets_ok(style_inner(t)))
}

/// One `key: value` entry applied to the style read so far and the flag of
/// `fg: auto`; entries without a colon, with another key, or with a value
/// that is no colour change nothing.
pub open spec fn apply_piece(acc: (StyleSpec, bool), p: Seq<char>) -> (StyleSpec, bool) {
    let c = find_char(p, 0, ':');
    if c >= p.len() {
        acc
    } else {
        let k = trim_spec(p.subrange(0, c));
        let w = trim_spec(p.subrange(c + 1, p.len() as int));
        if k == "fg"@ && w == "auto"@ {
            (acc.0, true)
        } else {
            match color_spec(w) {
                Some(col) => if k == "fg"@ {
                    (StyleSpec { fg: Some(col), bg: acc.0.bg }, acc.1)
                } else if k == "bg"@ {
                    (StyleSpec { fg: acc.0.fg, bg: Some(col) }, acc.1)
                } else {
                    acc
                },
                None => acc,
            }
        }
    }
}

/// The first `n` entries applied in order to the empty style.
pub open spec fn fold_pieces(ps: Seq<Seq<char>>, n: int) -> (StyleSpec, bool)
    decreases n,
{
    if n <= 0 {
        (StyleSpec { fg: None, bg: None }, false)
    } else {
        apply_piece(fold_pieces(ps, n - 1), ps[n - 1])
    }
}

/// A style value `{ fg: .., bg: .. }`: `{}` is the empty style; the entries
/// between the first `{` and its `}` are split at top-level commas and
/// applied in order; `fg: auto` stands for `auto_fg()` when a background is
/// set. A value without `{` is no style.
pub open spec fn style_spec(val: Seq<char>) -> Option<StyleSpec> {
    let t = trim_spec(val);
    if t == "{}"@ {
        Some(StyleSpec { fg: None, bg: None })
    } else if find_char(t, 0, '{') >= t.len() {
        None
    } else {
        let ps = pieces_from(style_inner(t), ',', 0, 0);
        let acc = fold_pieces(ps, ps.len() as int);
        if acc.1 && acc.0.bg is Some {
            Some(StyleSpec { fg: Some(auto_fg()), bg: acc.0.bg })
        } else {
            Some(acc.0)
        }
    }
}

/// First index at or after `from` holding `ch` (the length when none).
fn find_char_from(v: &Vec<char>, from: usize, ch: char) -> (r: usize)
    requires
        from <= v@.len(),
    ensures
        r == find_char(v@, from as int, ch),
        r <= v@.len(),
{
    let mut i = from;
    while i < v.len() && v[i] != ch
        invariant
            from <= i <= v@.len(),
            forall|j: int| from <= j < i ==> !is_char(ch)(#[trigger] v@[j]),
        decreases v@.len() - i,
    {
        i += 1;
    }
    proof {
        lemma_first_where_at(v@, from as int, i as int, is_char(ch));
    }
    i
}

/// The index of the `}` closing the brace entered just before `from` (see
/// `style_close`).
fn find_close(t: &Vec<char>, from: usize) -> (r: Option<usize>)
    requires
        from <= t@.len(),
    ensures
        match r {
            Some(e) => style_close(t@, from as int, 1) == Some(e as int) && from <= e < t@.len(),
            None => style_close(t@, from as int, 1) is None,
        },
{
    let mut depth: u8 = 1;
    let mut i = from;
    let n = t.len();
    while i < n
        invariant
            n == t@.len(),
            from <= i <= n,
            1 <= depth <= 255,
            style_close(t@, i as int, depth as int) == style_close(t@, from as int, 1),
        decreases n - i,
    {
        let c = t[i];
        if c == '{' {
            if depth == 255 {
                return None;
            }
            depth = depth + 1;
        } else if c == '}' {
            if depth == 1 {
                return Some(i);
            }
            depth = depth - 1;
        }
        i += 1;
    }
    None
}

/// Whether square brackets nest at most 255 deep in `s` (see `brackets_ok`).
fn brackets_fit(s: &Vec<char>) -> (r: bool)
    ensures
        r == brackets_ok(s@),
{
    let n = s.len();
    let mut d: usize = 0;
    let mut i: usize = 0;
    while i < n
        invariant
            n == s@.len(),
            i <= n,
            d == depth_before(s@, i as int),
            d < 256,
            forall|j: int| 0 <= j <= i ==> #[trigger] depth_before(s@, j) < 256,
        decreases n - i,
    {
        if s[i] == '[' {
            d = d + 1;
        } else if s[i] == ']' {
            d = d.saturating_sub(1);
        }
        i += 1;
        if d >= 256 {
            assert(!(depth_before(s@, i as int) < 256));
            return false;
        }
    }
    true
}

/// Whether a style value can be read (see `style_val_ok`).
pub fn style_val_readable(val: &str) -> (r: bool)
    ensures
        r == style_val_ok(val@),
{
    let tv = trim(val);
    if same_text(tv, "{}") {
        return true;
    }
    let t = chars_of(tv);
    let b = find_char_from(&t, 0, '{');
    if b >= t.len() {
        return true;
    }
    match find_close(&t, b + 1) {
        None => false,
        Some(e) => {
            let inner = chars_of(trimmed(&slice_chars(&t, b + 1, e)).as_str());
            brackets_fit(&inner)
        },
    }
}

/// Applies one entry (see `apply_piece`).
fn apply_piece_of(st: StyleSpec, auto: bool, p: &str) -> (r: (StyleSpec, bool))
    ensures
        r == apply_piece((st, auto), p@),
{
    let v = chars_of(p);
    let c = find_char_from(&v, 0, ':');
    if c >= v.len() {
        return (st, auto);
    }
    let k = trimmed(&slice_chars(&v, 0, c));
    let w = trimmed(&slice_chars(&v, c + 1, v.len()));
    if same_text(k.as_str(), "fg") && same_text(w.as_str(), "auto") {
        return (st, true);
    }
    match parse_color(w.as_str()) {
        Some(col) => if same_text(k.as_str(), "fg") {
            (StyleSpec { fg: Some(col), bg: st.bg }, auto)
        } else if same_text(k.as_str(), "bg") {
            (StyleSpec { fg: st.fg, bg: Some(col) }, auto)
        } else {
            (st, auto)
        },
        None => (st, auto),
    }
}

/// Reads a style value (see `style_spec`).
pub fn parse_style_val(val: &str) -> (r: Option<StyleSpec>)
    requires
        style_val_ok(val@),
    ensures
        r == style_spec(val@),
{
    let tv = trim(val);
    if same_text(tv, "{}") {
        return Some(StyleSpec { fg: None, bg: None });
    }
    let t = chars_of(tv);
    let b = find_char_from(&t, 0, '{');
    if b >= t.len() {
        return None;
    }
    let e = match find_close(&t, b + 1) {
        Some(e) => e,
        None => {
            return None;
        },
    };
    let inner = trimmed(&slice_chars(&t, b + 1, e));
    assert(inner@ == style_inner(t@));
    let parts = split_top_level(inner.as_str(), ',');
    let ghost ps = pieces_from(inner@, ',', 0, 0);
    let mut st = StyleSpec { fg: None, bg: None };
    let mut auto = false;
    let mut k: usize = 0;
    while k < parts.len()
        invariant
            parts@.map_values(|p: &str| p@) == ps,
            k <= parts@.len(),
            (st, auto) == fold_pieces(ps, k as int),
        decreases parts@.len() - k,
    {
        assert(ps[k as int] == parts@[k as int]@);
        let r = apply_piece_of(st, auto, parts[k]);
        st = r.0;
        auto = r.1;
        k += 1;
    }
    if auto && st.bg.is_some() {
        Some(StyleSpec { fg: Some(ConfColor::Rgb(1, 1, 1)), bg: st.bg })
    } else {
        Some(st)
    }
}

/// The first occurrence of `key` at or after `i` that begins a line; an
/// occurrence inside a line is passed over whole.
pub open spec fn key_line(b: Seq<char>, key: Seq<char>, i: int) -> Option<int>
    decreases b.len() - i,
{
    if key.len() == 0 || i < 0 || i >= b.len() {
        None
    } else if occurs_at(b, i, key) {
        if i == 0 || b[i - 1] == '\n' {
            Some(i)
        } else {
            key_line(b, key, i + key.len())
        }
    } else {
        key_line(b, key, i + 1)
    }
}

/// `s` without as many leading copies of `key` as it begins with.
pub open spec fn strip_repeated(s: Seq<char>, key: Seq<char>) -> Seq<char>
    decreases s.len(),
{
    if key.len() > 0 && key.len() <= s.len() && s.subrange(0, key.len() as int) == key {
        strip_repeated(s.subrange(key.len() as int, s.len() as int), key)
    } else {
        s
    }
}

/// The text after `key:` on the line that `key` begins (the copies of the
/// key and blanks before the colon, and blanks after it, skipped); `None`
/// when no line begins with the key or no colon follows it.
pub open spec fn key_value(b: Seq<char>, key: Seq<char>) -> Option<Seq<char>> {
    match key_line(b, key, 0) {
        None => None,
        Some(k) => {
            let a = trim_start_spec(strip_repeated(b.subrange(k, b.len() as int), key));
            if a.len() > 0 && a[0] == ':' {
                Some(trim_start_spec(a.drop_first()))
            } else {
                None
            }
        },
    }
}

/// The style of `key` in the configuration text `b`.
pub open spec fn yaml_style_spec(b: Seq<char>, key: Seq<char>) -> Option<StyleSpec> {
    match key_value(b, key) {
        Some(v) => style_spec(v),
        None => None,
    }
}

/// Whether all of `t` occurs in `v` at index `i`.
fn occurs_in(v: &Vec<char>, i: usize, t: &Vec<char>) -> (r: bool)
    requires
        i <= v@.len(),
    ensures
        r == occurs_at(v@, i as int, t@),
{
    if t.len() > v.len() - i {
        return false;
    }
    let piece = slice_chars(v, i, i + t.len());
    same_chars(&piece, t)
}

/// The index where the line of `key` begins (see `key_line`).
fn key_line_of(b: &Vec<char>, key: &Vec<char>) -> (r: Option<usize>)
    requires
        key@.len() > 0,
    ensures
        match r {
            Some(k) => key_line(b@, key@, 0) == Some(k as int) && k <= b@.len(),
            None => key_line(b@, key@, 0) is None,
        },
{
    let n = b.len();
    let mut i: usize = 0;
    while i < n
        invariant
            n == b@.len(),
            i <= n,
            key@.len() > 0,
            key_line(b@, key@, i as int) == key_line(b@, key@, 0),
        decreases n - i,
    {
        if occurs_in(b, i, key) {
            if i == 0 || b[i - 1] == '\n' {
                return Some(i);
            }
            i = i + key.len();
        } else {
            i += 1;
        }
    }
    None
}

/// `v` without its leading whitespace.
fn trim_start_of(v: &Vec<char>) -> (r: Vec<char>)
    ensures
        r@ == trim_start_spec(v@),
{
    let n = v.len();
    let mut i: usize = 0;
    assert(v@.subrange(0, n as int) =~= v@);
    while i < n && is_space_char(v[i])
        invariant
            n == v@.len(),
            i <= n,
            trim_start_spec(v@.subrange(i as int, n as int)) == trim_start_spec(v@),
        decreases n - i,
    {
        assert(v@.subrange(i as int, n as int).drop_first() =~= v@.subrange(i + 1, n as int));
        i += 1;
    }
    slice_chars(v, i, n)
}

/// `s` without its leading copies of `key` (see `strip_repeated`).
fn strip_repeated_of(s: &Vec<char>, key: &Vec<char>) -> (r: Vec<char>)
    requires
        key@.len() > 0,
    ensures
        r@ == strip_repeated(s@, key@),
{
    let n = s.len();
    let mut i: usize = 0;
    assert(s@.subrange(0, n as int) =~= s@);
    while occurs_in(s, i, key)
        invariant
            n == s@.len(),
            i <= n,
            key@.len() > 0,
            strip_repeated(s@.subrange(i as int, n as int), key@) == strip_repeated(s@, key@),
        decreases n - i,
    {
        proof {
            let sub = s@.subrange(i as int, n as int);
            assert(sub.subrange(0, key@.len() as int) =~= s@.subrange(i as int, i + key@.len()));
            assert(sub.subrange(key@.len() as int, sub.len() as int) =~= s@.subrange(
                i + key@.len(),
                n as int,
            ));
        }
        i = i + key.len();
    }
    proof {
        let sub = s@.subrange(i as int, n as int);
        if key@.len() <= sub.len() {
            assert(sub.subrange(0, key@.len() as int) =~= s@.subrange(i as int, i + key@.len()));
        }
    }
    slice_chars(s, i, n)
}

/// The value text of `key` in the configuration text `block` (see
/// `key_value`).
pub fn key_value_of(block: &str, key: &str) -> (r: Option<String>)
    requires
        key@.len() > 0,
    ensures
        match r {
            Some(v) => key_value(block@, key@) == Some(v@),
            None => key_value(block@, key@) is None,
        },
{
    let b = chars_of(block);
    let kv = chars_of(key);
    let k = match key_line_of(&b, &kv) {
        Some(k) => k,
        None => {
            return None;
        },
    };
    let rest = slice_chars(&b, k, b.len());
    let a = trim_start_of(&strip_repeated_of(&rest, &kv));
    if a.len() == 0 || a[0] != ':' {
        return None;
    }
    let after = slice_chars(&a, 1, a.len());
    assert(after@ =~= a@.drop_first());
    Some(string_from(&trim_start_of(&after)))
}

/// Reads the style of `key` from the configuration text `block` (see
/// `yaml_style_spec`).
pub fn yaml_parse_style(block: &str, key: &str) -> (r: Option<StyleSpec>)
    requires
        key@.len() > 0,
        key_value(block@, key@) matches Some(v) ==> style_val_ok(v),
    ensures
        r == yaml_style_spec(block@, key@),
{
    match key_value_of(block, key) {
        Some(v) => parse_style_val(v.as_str()),
        None => None,
    }
}

/// The configured styles, one per kind of text on screen.
#[derive(Debug, Clone, Copy, PartialEq, Eq, Structural)]
pub enum StyleSlot {
    Null,
    Head2,
    Tail,
    Control,
    Ascii,
    Head3,
    Head4,
    Hex,
    Found,
    Selection,
    Cursor,
    Plain,
}

/// The slot of a byte shown in the given mode: NUL, CR, LF and space,
/// other controls, printable ASCII (hex mode: printable ASCII first), UTF-8
/// continuation bytes, the rest; in UTF-8 mode every byte is plain text.
pub open spec fn byte_slot(b: u8, mode: DisplayMode) -> StyleSlot {
    match mode {
        DisplayMode::Ascii => if b == 0 {
            StyleSlot::Null
        } else if b == 0x0d {
            StyleSlot::Head2
        } else if b == 10 || b == 0x20 {
            StyleSlot::Ascii
        } else if b == 0x1b || (0x01 <= b <= 0x1f) {
            StyleSlot::Control
        } else if 0x21 <= b <= 0x7e {
            StyleSlot::Ascii
        } else if 0x80 <= b <= 0xbf {
            StyleSlot::Head3
        } else {
            StyleSlot::Head4
        },
        DisplayMode::Hex => if 0x20 <= b <= 0x7e {
            StyleSlot::Hex
        } else if b == 0 {
            StyleSlot::Null
        } else if b == 0x0d {
            StyleSlot::Head2
        } else if b == 10 {
            StyleSlot::Ascii
        } else if b == 0x1b || (0x01 <= b <= 0x1f) {
            StyleSlot::Control
        } else if 0x80 <= b <= 0xbf {
            StyleSlot::Head3
        } else {
            StyleSlot::Head4
        },
        DisplayMode::Utf8 => StyleSlot::Ascii,
    }
}

/// The slot of a byte in the given mode (see `byte_slot`).
pub fn byte_style(b: u8, mode: DisplayMode) -> (r: StyleSlot)
    ensures
        r == byte_slot(b, mode),
{
    match mode {
        DisplayMode::Ascii => {
            if b == 0 {
                StyleSlot::Null
            } else if b == 0x0d {
                StyleSlot::Head2
            } else if b == 10 || b == 0x20 {
                StyleSlot::Ascii
            } else if b == 0x1b || (0x01 <= b && b <= 0x1f) {
                StyleSlot::Control
            } else if 0x21 <= b && b <= 0x7e {
                StyleSlot::Ascii
            } else if 0x80 <= b && b <= 0xbf {
                StyleSlot::Head3
            } else {
                StyleSlot::Head4
            }
        },
        DisplayMode::Hex => {
            if 0x20 <= b && b <= 0x7e {
                StyleSlot::Hex
            } else if b == 0 {
                StyleSlot::Null
            } else if b == 0x0d {
                StyleSlot::Head2
            } else if b == 10 {
                StyleSlot::Ascii
            } else if b == 0x1b || (0x01 <= b && b <= 0x1f) {
                StyleSlot::Control
            } else if 0x80 <= b && b <= 0xbf {
                StyleSlot::Head3
            } else {
                StyleSlot::Head4
            }
        },
        DisplayMode::Utf8 => StyleSlot::Ascii,
    }
}

/// The slot of a decoded character, by Unicode block.
pub open spec fn char_slot(ch: char) -> StyleSlot {
    let cp = ch as u32;
    if 0x21 <= cp <= 0x7e {
        StyleSlot::Ascii
    } else if ch == '\n' || ch == '\r' || ch == '\t' {
        StyleSlot::Head3
    } else if cp < 0x20 {
        StyleSlot::Control
    } else if 0x80 <= cp <= 0xBF {
        StyleSlot::Tail
    } else if 0x2000 <= cp <= 0x206F {
        StyleSlot::Head4
    } else if 0x4E00 <= cp <= 0x9FFF {
        StyleSlot::Head2
    } else if 0xAC00 <= cp <= 0xD7AF {
        StyleSlot::Head3
    } else if 0x3000 <= cp <= 0x30FF {
        StyleSlot::Head4
    } else {
        StyleSlot::Hex
    }
}

/// The slot of a decoded character (see `char_slot`).
pub fn utf8_char_style(ch: char) -> (r: StyleSlot)
    ensures
        r == char_slot(ch),
{
    let cp = ch as u32;
    if cp >= 0x21 && cp <= 0x7e {
        StyleSlot::Ascii
    } else if ch == '\n' || ch == '\r' || ch == '\t' {
        StyleSlot::Head3
    } else if cp < 0x20 {
        StyleSlot::Control
    } else if cp >= 0x80 && cp <= 0xBF {
        StyleSlot::Tail
    } else if cp >= 0x2000 && cp <= 0x206F {
        StyleSlot::Head4
    } else if cp >= 0x4E00 && cp <= 0x9FFF {
        StyleSlot::Head2
    } else if cp >= 0xAC00 && cp <= 0xD7AF {
        StyleSlot::Head3
    } else if cp >= 0x3000 && cp <= 0x30FF {
        StyleSlot::Head4
    } else {
        StyleSlot::Hex
    }
}

/// The slot of a UTF-8 byte class: lead bytes by length, continuation
/// bytes; an invalid byte has no configured style.
pub open spec fn class_slot(c: ByteClass) -> StyleSlot {
    match c {
        ByteClass::Ascii => StyleSlot::Ascii,
        ByteClass::Duo => StyleSlot::Head2,
        ByteClass::Trio => StyleSlot::Head3,
        ByteClass::Quo => StyleSlot::Head4,
        ByteClass::Tail => StyleSlot::Tail,
        ByteClass::Invalid => StyleSlot::Plain,
    }
}

/// The slot of a UTF-8 byte class (see `class_slot`).
pub fn utf8_cls_style(c: ByteClass) -> (r: StyleSlot)
    ensures
        r == class_slot(c),
{
    match c {
        ByteClass::Ascii => StyleSlot::Ascii,
        ByteClass::Duo => StyleSlot::Head2,
        ByteClass::Trio => StyleSlot::Head3,
        ByteClass::Quo => StyleSlot::Head4,
        ByteClass::Tail => StyleSlot::Tail,
        ByteClass::Invalid => StyleSlot::Plain,
    }
}

/// The styles read from the configuration text.
#[derive(Debug, Clone, Copy, PartialEq, Eq, Structural)]
pub struct ColorStyles {
    pub null: StyleSpec,
    pub control: StyleSpec,
    pub blank: StyleSpec,
    pub ascii: StyleSpec,
    pub hex: StyleSpec,
    pub head2: StyleSpec,
    pub head3: StyleSpec,
    pub head4: StyleSpec,
    pub tail: StyleSpec,
    pub unknown: StyleSpec,
    pub cursor: StyleSpec,
    pub found: StyleSpec,
    pub selection: StyleSpec,
    pub focused_button: StyleSpec,
}

/// The style of a text key that the configuration leaves out: light gray.
pub open spec fn text_default() -> StyleSpec {
    StyleSpec { fg: Some(ConfColor::Rgb(220, 220, 220)), bg: None }
}

/// The empty style.
pub open spec fn no_style() -> StyleSpec {
    StyleSpec { fg: None, bg: None }
}

/// The style of `key` in `b`, else `d`.
pub open spec fn style_or(b: Seq<char>, key: Seq<char>, d: StyleSpec) -> StyleSpec {
    match yaml_style_spec(b, key) {
        Some(st) => st,
        None => d,
    }
}

/// The value of `key` in `b`, if there is one, can be read as a style.
pub open spec fn key_readable(b: Seq<char>, key: Seq<char>) -> bool {
    key_value(b, key) matches Some(v) ==> style_val_ok(v)
}

/// Every key of the configuration can be read.
pub open spec fn styles_ok(b: Seq<char>) -> bool {
    &&& key_readable(b, "null"@)
    &&& key_readable(b, "control"@)
    &&& key_readable(b, "blank"@)
    &&& key_readable(b, "ascii"@)
    &&& key_readable(b, "hex"@)
    &&& key_readable(b, "head2"@)
    &&& key_readable(b, "head3"@)
    &&& key_readable(b, "head4"@)
    &&& key_readable(b, "tail"@)
    &&& key_readable(b, "unknown"@)
    &&& key_readable(b, "cursor"@)
    &&& key_readable(b, "found"@)
    &&& key_readable(b, "selection"@)
    &&& key_readable(b, "focused_button"@)
}

/// Whether the value of `key` can be read (see `key_readable`).
fn key_readable_of(yaml: &str, key: &str) -> (r: bool)
    requires
        key@.len() > 0,
    ensures
        r == key_readable(yaml@, key@),
{
    match key_value_of(yaml, key) {
        Some(v) => style_val_readable(v.as_str()),
        None => true,
    }
}

/// The style of `key`, else `d`.
fn key_style(yaml: &str, key: &str, d: StyleSpec) -> (r: StyleSpec)
    requires
        key@.len() > 0,
        key_readable(yaml@, key@),
    ensures
        r == style_or(yaml@, key@, d),
{
    match yaml_parse_style(yaml, key) {
        Some(st) => st,
        None => d,
    }
}

/// Whether every key of the configuration text can be read (see
/// `styles_ok`).
pub fn styles_readable(yaml: &str) -> (r: bool)
    ensures
        r == styles_ok(yaml@),
{
    proof {
        reveal_strlit("null");
        reveal_strlit("control");
        reveal_strlit("blank");
        reveal_strlit("ascii");
        reveal_strlit("hex");
        reveal_strlit("head2");
        reveal_strlit("head3");
        reveal_strlit("head4");
        reveal_strlit("tail");
        reveal_strlit("unknown");
        reveal_strlit("cursor");
        reveal_strlit("found");
        reveal_strlit("selection");
        reveal_strlit("focused_button");
    }
    key_readable_of(yaml, "null") && key_readable_of(yaml, "control") && key_readable_of(yaml, "blank")
        && key_readable_of(yaml, "ascii") && key_readable_of(yaml, "hex") && key_readable_of(
        yaml,
        "head2",
    ) && key_readable_of(yaml, "head3") && key_readable_of(yaml, "head4") && key_readable_of(
        yaml,
        "tail",
    ) && key_readable_of(yaml, "unknown") && key_readable_of(yaml, "cursor") && key_readable_of(
        yaml,
        "found",
    ) && key_readable_of(yaml, "selection") && key_readable_of(yaml, "focused_button")
}

impl ColorStyles {
    /// Reads every style of the configuration text: the text keys fall back
    /// to light gray, the others to the empty style.
    pub fn parse(yaml: &str) -> (r: ColorStyles)
        requires
            styles_ok(yaml@),
        ensures
            r.null == style_or(yaml@, "null"@, text_default()),
            r.control == style_or(yaml@, "control"@, text_default()),
            r.blank == style_or(yaml@, "blank"@, text_default()),
            r.ascii == style_or(yaml@, "ascii"@, text_default()),
            r.hex == style_or(yaml@, "hex"@, text_default()),
            r.head2 == style_or(yaml@, "head2"@, no_style()),
            r.head3 == style_or(yaml@, "head3"@, no_style()),
            r.head4 == style_or(yaml@, "head4"@, no_style()),
            r.tail == style_or(yaml@, "tail"@, no_style()),
            r.unknown == style_or(yaml@, "unknown"@, no_style()),
            r.cursor == style_or(yaml@, "cursor"@, no_style()),
            r.found == style_or(yaml@, "found"@, no_style()),
            r.selection == style_or(yaml@, "selection"@, no_style()),
            r.focused_button == style_or(yaml@, "focused_button"@, no_style()),
    {
        proof {
            reveal_strlit("null");
            reveal_strlit("control");
            reveal_strlit("blank");
            reveal_strlit("ascii");
            reveal_strlit("hex");
            reveal_strlit("head2");
            reveal_strlit("head3");
            reveal_strlit("head4");
            reveal_strlit("tail");
            reveal_strlit("unknown");
            reveal_strlit("cursor");
            reveal_strlit("found");
            reveal_strlit("selection");
            reveal_strlit("focused_button");
        }
        let d = StyleSpec { fg: Some(ConfColor::Rgb(220, 220, 220)), bg: None };
        let e = StyleSpec { fg: None, bg: None };
        ColorStyles {
            null: key_style(yaml, "null", d),
            control: key_style(yaml, "control", d),
            blank: key_style(yaml, "blank", d),
            ascii: key_style(yaml, "ascii", d),
            hex: key_style(yaml, "hex", d),
            head2: key_style(yaml, "head2", e),
            head3: key_style(yaml, "head3", e),
            head4: key_style(yaml, "head4", e),
            tail: key_style(yaml, "tail", e),
            unknown: key_style(yaml, "unknown", e),
            cursor: key_style(yaml, "cursor", e),
            found: key_style(yaml, "found", e),
            selection: key_style(yaml, "selection", e),
            focused_button: key_style(yaml, "focused_button", e),
        }
    }

    /// The style of a slot.
    pub open spec fn slot_spec(self, slot: StyleSlot) -> StyleSpec {
        match slot {
            StyleSlot::Null => self.null,
            StyleSlot::Head2 => self.head2,
            StyleSlot::Tail => self.tail,
            StyleSlot::Control => self.control,
            StyleSlot::Ascii => self.ascii,
            StyleSlot::Head3 => self.head3,
            StyleSlot::Head4 => self.head4,
            StyleSlot::Hex => self.hex,
            StyleSlot::Found => self.found,
            StyleSlot::Selection => self.selection,
            StyleSlot::Cursor => self.cursor,
            StyleSlot::Plain => no_style(),
        }
    }

    /// The style of a slot (see `slot_spec`).
    pub fn sp(&self, slot: StyleSlot) -> (r: StyleSpec)
        ensures
            r == self.slot_spec(slot),
    {
        match slot {
            StyleSlot::Null => self.null,
            StyleSlot::Head2 => self.head2,
            StyleSlot::Tail => self.tail,
            StyleSlot::Control => self.control,
            StyleSlot::Ascii => self.ascii,
            StyleSlot::Head3 => self.head3,
            StyleSlot::Head4 => self.head4,
            StyleSlot::Hex => self.hex,
            StyleSlot::Found => self.found,
            StyleSlot::Selection => self.selection,
            StyleSlot::Cursor => self.cursor,
            StyleSlot::Plain => StyleSpec { fg: None, bg: None },
        }
    }
}

} // verus!

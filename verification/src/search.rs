//! Search patterns: exact bytes typed as hex, nibble patterns (`4x`,
//! `[0-3]f`, `z`) and plain strings, with the matching of a nibble pattern
//! against the bytes of the file.
use vstd::prelude::*;
use vstd::string::StringExecFns;
use crate::text::{
    chars_of, hex_value, is_ascii_space, is_ascii_space_char, is_hex_digit, is_hex_digit_char, is_space,
    is_space_char, trim, trim_spec, trim_start_spec,
};

verus! {

/// One nibble of a byte pattern: a fixed value, an inclusive range, or any.
#[derive(Debug, Clone, Copy, PartialEq, Eq, Structural)]
pub enum NibAtom {
    Exact(u8),
    Range(u8, u8),
    Any,
}

/// What a search looks for: a byte string, or a nibble pattern (two atoms a byte).
#[derive(Debug, Clone, PartialEq, Eq)]
pub enum Needle {
    Lit(Vec<u8>),
    Pat(Vec<NibAtom>),
}

/// A parsed search expression with the text it was typed as.
#[derive(Debug)]
pub enum SearchKind {
    Hex { bytes: Vec<u8>, label: String },
    Pat { pat: Vec<NibAtom>, label: String },
}

/// Results a scanning worker reports: the matches of one chunk, or the end.
#[derive(Debug, Clone, PartialEq, Eq)]
pub enum SearchEvent {
    Chunk { matches: Vec<(usize, usize)> },
    Done,
}

pub open spec fn nib_ok(a: NibAtom, v: u8) -> bool {
    match a {
        NibAtom::Exact(n) => v == n,
        NibAtom::Range(lo, hi) => lo <= v && v <= hi,
        NibAtom::Any => true,
    }
}

/// Whether the nibble value `val` satisfies the atom.
pub fn nib_match(a: &NibAtom, val: u8) -> (r: bool)
    ensures
        r == nib_ok(*a, val),
{
    match a {
        NibAtom::Exact(n) => val == *n,
        NibAtom::Range(lo, hi) => val >= *lo && val <= *hi,
        NibAtom::Any => true,
    }
}

/// Number of bytes a nibble pattern spans (a trailing odd atom covers a byte).
pub open spec fn atoms_span(atoms: Seq<NibAtom>) -> int {
    (atoms.len() as int + 1) / 2
}

/// Byte `i` of the data from `pos` satisfies atom pair `i` (high nibble first).
pub open spec fn pair_ok(atoms: Seq<NibAtom>, data: Seq<u8>, pos: int, i: int) -> bool {
    let b = data[pos + i];
    &&& nib_ok(atoms[2 * i], b >> 4)
    &&& (2 * i + 1 < atoms.len() ==> nib_ok(atoms[2 * i + 1], b & 0x0f))
}

/// The bytes from `pos` match the nibble pattern.
pub open spec fn atoms_ok(atoms: Seq<NibAtom>, data: Seq<u8>, pos: int) -> bool {
    forall|i: int| 0 <= i < atoms_span(atoms) ==> #[trigger] pair_ok(atoms, data, pos, i)
}

/// Whether the bytes of `data` from `pos` match the nibble pattern.
pub fn atoms_match(atoms: &[NibAtom], data: &[u8], pos: usize) -> (r: bool)
    requires
        pos + atoms_span(atoms@) <= data@.len(),
    ensures
        r == atoms_ok(atoms@, data@, pos as int),
{
    let n = atoms.len();
    let span = n / 2 + n % 2;
    let mut i: usize = 0;
    while i < span
        invariant
            n == atoms@.len(),
            span == atoms_span(atoms@),
            pos + span <= data.len(),
            i <= span,
            forall|k: int| 0 <= k < i ==> #[trigger] pair_ok(atoms@, data@, pos as int, k),
        decreases span - i,
    {
        let b = data[pos + i];
        let hi_ok = nib_match(&atoms[2 * i], b >> 4);
        let lo_ok = if 2 * i + 1 < n {
            nib_match(&atoms[2 * i + 1], b & 0x0f)
        } else {
            true
        };
        if !(hi_ok && lo_ok) {
            assert(!pair_ok(atoms@, data@, pos as int, i as int));
            return false;
        }
        i += 1;
    }
    true
}

/// Value of a hexadecimal digit.
pub fn hv(c: char) -> (r: Option<u8>)
    ensures
        r == hex_value(c),
{
    if '0' <= c && c <= '9' {
        Some((c as u32 - '0' as u32) as u8)
    } else if 'a' <= c && c <= 'f' {
        Some((c as u32 - 'a' as u32 + 10) as u8)
    } else if 'A' <= c && c <= 'F' {
        Some((c as u32 - 'A' as u32 + 10) as u8)
    } else {
        None
    }
}

/// Value of a two-character radix-16 number as `u8::from_str_radix` reads it:
/// two hex digits, or `+` and one hex digit.
pub open spec fn hex_pair(a: char, b: char) -> Option<u8> {
    match (hex_value(a), hex_value(b)) {
        (Some(x), Some(y)) => Some((x * 16 + y) as u8),
        (None, Some(y)) => if a == '+' {
            Some(y)
        } else {
            None
        },
        _ => None,
    }
}

/// Bytes of consecutive character pairs, or `None` if a pair is no number.
pub open spec fn hex_bytes(s: Seq<char>) -> Option<Seq<u8>>
    decreases s.len(),
{
    if s.len() < 2 {
        Some(Seq::empty())
    } else {
        match (hex_pair(s[0], s[1]), hex_bytes(s.subrange(2, s.len() as int))) {
            (Some(b), Some(rest)) => Some(seq![b] + rest),
            _ => None,
        }
    }
}

proof fn lemma_hex_bytes_step(s: Seq<char>, i: int, acc: Seq<u8>)
    requires
        0 <= i,
        i + 2 <= s.len(),
        hex_bytes(s) == (match hex_bytes(s.subrange(i, s.len() as int)) {
            Some(r) => Some(acc + r),
            None => None::<Seq<u8>>,
        }),
    ensures
        hex_bytes(s) == (match hex_bytes(s.subrange(i + 2, s.len() as int)) {
            Some(r) => match hex_pair(s[i], s[i + 1]) {
                Some(b) => Some(acc.push(b) + r),
                None => None::<Seq<u8>>,
            },
            None => None::<Seq<u8>>,
        }),
{
    let t = s.subrange(i, s.len() as int);
    assert(t[0] == s[i]);
    assert(t[1] == s[i + 1]);
    assert(t.subrange(2, t.len() as int) == s.subrange(i + 2, s.len() as int));
    match (hex_pair(s[i], s[i + 1]), hex_bytes(s.subrange(i + 2, s.len() as int))) {
        (Some(b), Some(r)) => {
            assert(acc + (seq![b] + r) == acc.push(b) + r);
        },
        _ => {},
    }
}

/// Decodes the pairs of an even-length hex text into bytes.
fn decode_hex(s: &[char]) -> (r: Option<Vec<u8>>)
    requires
        s@.len() % 2 == 0,
    ensures
        r matches Some(v) ==> hex_bytes(s@) == Some(v@),
        r is None ==> hex_bytes(s@) is None,
{
    let mut out: Vec<u8> = Vec::new();
    let mut i: usize = 0;
    assert(s@.subrange(0, s@.len() as int) == s@);
    assert(out@ + seq![] == out@);
    while i < s.len()
        invariant
            i % 2 == 0,
            i <= s@.len(),
            s@.len() % 2 == 0,
            hex_bytes(s@) == (match hex_bytes(s@.subrange(i as int, s@.len() as int)) {
                Some(r) => Some(out@ + r),
                None => None::<Seq<u8>>,
            }),
        decreases s@.len() - i,
    {
        proof {
            lemma_hex_bytes_step(s@, i as int, out@);
        }
        let a = s[i];
        let b = s[i + 1];
        let v = match (hv(a), hv(b)) {
            (Some(x), Some(y)) => x * 16 + y,
            (None, Some(y)) => {
                if a == '+' {
                    y
                } else {
                    return None;
                }
            },
            _ => {
                return None;
            },
        };
        out.push(v);
        i += 2;
    }
    assert(s@.subrange(i as int, s@.len() as int).len() == 0);
    assert(out@ + Seq::<u8>::empty() == out@);
    Some(out)
}

/// ASCII upper-case letters lowered; every other character kept.
pub open spec fn lower(c: char) -> char {
    if 'A' <= c && c <= 'Z' {
        ((c as u32 + 32) as u8) as char
    } else {
        c
    }
}

pub open spec fn lower_seq(s: Seq<char>) -> Seq<char> {
    Seq::new(s.len(), |i: int| lower(s[i]))
}

/// Least index in `i..j` holding `c`.
pub open spec fn find_in(s: Seq<char>, i: int, j: int, c: char) -> Option<int>
    decreases j - i,
{
    if i >= j || i < 0 || j > s.len() {
        None
    } else if s[i] == c {
        Some(i)
    } else {
        find_in(s, i + 1, j, c)
    }
}

/// First character that is not whitespace.
pub open spec fn first_nonspace(s: Seq<char>) -> Option<char> {
    let t = trim_start_spec(s);
    if t.len() > 0 {
        Some(t[0])
    } else {
        None
    }
}

/// A bracketed range `[lo-hi]` starting at `i`: the atom and the index after `]`.
/// Only the first non-blank character on each side of the first `-` counts;
/// the bounds are put in order.
pub open spec fn bracket_at(ch: Seq<char>, i: int) -> Option<(NibAtom, int)> {
    match find_in(ch, i + 1, ch.len() as int, ']') {
        None => None,
        Some(e) => match find_in(ch, i + 1, e, '-') {
            None => None,
            Some(d) => match (first_nonspace(ch.subrange(i + 1, d)), first_nonspace(
                ch.subrange(d + 1, e),
            )) {
                (Some(a), Some(b)) => match (hex_value(a), hex_value(b)) {
                    (Some(lo), Some(hi)) => Some(
                        (
                            NibAtom::Range(
                                if lo <= hi {
                                    lo
                                } else {
                                    hi
                                },
                                if lo <= hi {
                                    hi
                                } else {
                                    lo
                                },
                            ),
                            e + 1,
                        ),
                    ),
                    _ => None,
                },
                _ => None,
            },
        },
    }
}

/// Atoms of the (lower-cased) pattern text from index `i`: ASCII blanks are
/// skipped, `z` is a whole byte of any value, `x` one nibble of any value,
/// `[lo-hi]` a nibble range, a hex digit an exact nibble; anything else fails.
pub open spec fn tokens_from(ch: Seq<char>, i: int) -> Option<Seq<NibAtom>>
    decreases (if i < ch.len() { ch.len() - i } else { 0 }),
{
    if i >= ch.len() || i < 0 {
        Some(Seq::empty())
    } else {
        let c = ch[i];
        if is_ascii_space(c) {
            tokens_from(ch, i + 1)
        } else if c == 'z' {
            match tokens_from(ch, i + 1) {
                Some(r) => Some(seq![NibAtom::Any, NibAtom::Any] + r),
                None => None,
            }
        } else if c == 'x' {
            match tokens_from(ch, i + 1) {
                Some(r) => Some(seq![NibAtom::Any] + r),
                None => None,
            }
        } else if c == '[' {
            match bracket_at(ch, i) {
                None => None,
                Some((a, next)) => {
                    if next > i {
                        match tokens_from(ch, next) {
                            Some(r) => Some(seq![a] + r),
                            None => None,
                        }
                    } else {
                        None
                    }
                },
            }
        } else {
            match hex_value(c) {
                Some(v) => match tokens_from(ch, i + 1) {
                    Some(r) => Some(seq![NibAtom::Exact(v)] + r),
                    None => None,
                },
                None => None,
            }
        }
    }
}

pub open spec fn tokenize_spec(s: Seq<char>) -> Option<Seq<NibAtom>> {
    tokens_from(lower_seq(s), 0)
}

/// A nibble pattern: at least one byte and whole bytes only.
pub open spec fn compile_pat_spec(s: Seq<char>) -> Option<Seq<NibAtom>> {
    match tokenize_spec(s) {
        Some(a) => if a.len() > 0 && a.len() % 2 == 0 {
            Some(a)
        } else {
            None
        },
        None => None,
    }
}

proof fn lemma_find_in_bound(s: Seq<char>, i: int, j: int, c: char)
    ensures
        find_in(s, i, j, c) matches Some(k) ==> i <= k < j && k < s.len() && s[k] == c
            && forall|m: int| i <= m < k ==> s[m] != c,
        find_in(s, i, j, c) is None ==> (0 <= i && j <= s.len() ==> forall|m: int|
            i <= m < j ==> s[m] != c),
    decreases j - i,
{
    if i >= j || i < 0 || j > s.len() {
    } else if s[i] == c {
    } else {
        lemma_find_in_bound(s, i + 1, j, c);
    }
}

fn find_char(ch: &Vec<char>, from: usize, to: usize, c: char) -> (r: Option<usize>)
    requires
        from <= to <= ch@.len(),
    ensures
        r matches Some(k) ==> find_in(ch@, from as int, to as int, c) == Some(k as int),
        r is None ==> find_in(ch@, from as int, to as int, c) is None,
{
    let mut k = from;
    while k < to
        invariant
            from <= k <= to <= ch@.len(),
            find_in(ch@, from as int, to as int, c) == find_in(ch@, k as int, to as int, c),
        decreases to - k,
    {
        if ch[k] == c {
            return Some(k);
        }
        k += 1;
    }
    None
}

fn first_nonspace_in(ch: &Vec<char>, from: usize, to: usize) -> (r: Option<char>)
    requires
        from <= to <= ch@.len(),
    ensures
        r == first_nonspace(ch@.subrange(from as int, to as int)),
{
    let mut k = from;
    while k < to
        invariant
            from <= k <= to <= ch@.len(),
            trim_start_spec(ch@.subrange(from as int, to as int)) == trim_start_spec(
                ch@.subrange(k as int, to as int),
            ),
        decreases to - k,
    {
        let c = ch[k];
        assert(ch@.subrange(k as int, to as int)[0] == c);
        if !is_space_char(c) {
            return Some(c);
        }
        assert(ch@.subrange(k as int, to as int).drop_first() == ch@.subrange(
            k + 1,
            to as int,
        ));
        k += 1;
    }
    assert(ch@.subrange(k as int, to as int).len() == 0);
    None
}

fn lower_char(c: char) -> (r: char)
    ensures
        r == lower(c),
{
    if 'A' <= c && c <= 'Z' {
        ((c as u32 + 32) as u8) as char
    } else {
        c
    }
}

/// Splits a nibble-pattern text into atoms (see [`tokens_from`]).
pub fn tokenize(s: &str) -> (r: Option<Vec<NibAtom>>)
    ensures
        r matches Some(v) ==> tokenize_spec(s@) == Some(v@),
        r is None ==> tokenize_spec(s@) is None,
{
    let raw = chars_of(s);
    let mut ch: Vec<char> = Vec::new();
    let mut j: usize = 0;
    while j < raw.len()
        invariant
            j <= raw@.len(),
            raw@ == s@,
            ch@ == lower_seq(s@).take(j as int),
        decreases raw@.len() - j,
    {
        ch.push(lower_char(raw[j]));
        j += 1;
    }
    assert(ch@ == lower_seq(s@));
    let mut atoms: Vec<NibAtom> = Vec::new();
    let mut i: usize = 0;
    while i < ch.len()
        invariant
            i <= ch@.len(),
            ch@ == lower_seq(s@),
            tokenize_spec(s@) == (match tokens_from(ch@, i as int) {
                Some(r) => Some(atoms@ + r),
                None => None::<Seq<NibAtom>>,
            }),
        decreases ch@.len() - i,
    {
        let c = ch[i];
        let ghost old_atoms = atoms@;
        if is_ascii_space_char(c) {
            i += 1;
        } else if c == 'z' {
            atoms.push(NibAtom::Any);
            atoms.push(NibAtom::Any);
            proof {
                match tokens_from(ch@, i + 1) {
                    Some(r) => {
                        assert(old_atoms + (seq![NibAtom::Any, NibAtom::Any] + r) == atoms@ + r);
                    },
                    None => {},
                }
            }
            i += 1;
        } else if c == 'x' {
            atoms.push(NibAtom::Any);
            proof {
                match tokens_from(ch@, i + 1) {
                    Some(r) => {
                        assert(old_atoms + (seq![NibAtom::Any] + r) == atoms@ + r);
                    },
                    None => {},
                }
            }
            i += 1;
        } else if c == '[' {
            proof {
                lemma_find_in_bound(ch@, i + 1, ch@.len() as int, ']');
            }
            let e = match find_char(&ch, i + 1, ch.len(), ']') {
                Some(e) => e,
                None => {
                    return None;
                },
            };
            proof {
                lemma_find_in_bound(ch@, i + 1, e as int, '-');
            }
            let d = match find_char(&ch, i + 1, e, '-') {
                Some(d) => d,
                None => {
                    return None;
                },
            };
            let a = match first_nonspace_in(&ch, i + 1, d) {
                Some(a) => a,
                None => {
                    return None;
                },
            };
            let b = match first_nonspace_in(&ch, d + 1, e) {
                Some(b) => b,
                None => {
                    return None;
                },
            };
            let lo = match hv(a) {
                Some(v) => v,
                None => {
                    return None;
                },
            };
            let hi = match hv(b) {
                Some(v) => v,
                None => {
                    return None;
                },
            };
            let atom = NibAtom::Range(
                if lo <= hi {
                    lo
                } else {
                    hi
                },
                if lo <= hi {
                    hi
                } else {
                    lo
                },
            );
            atoms.push(atom);
            proof {
                assert(bracket_at(ch@, i as int) == Some((atom, e + 1)));
                match tokens_from(ch@, e + 1) {
                    Some(r) => {
                        assert(old_atoms + (seq![atom] + r) == atoms@ + r);
                    },
                    None => {},
                }
            }
            i = e + 1;
        } else {
            match hv(c) {
                Some(v) => {
                    atoms.push(NibAtom::Exact(v));
                    proof {
                        match tokens_from(ch@, i + 1) {
                            Some(r) => {
                                assert(old_atoms + (seq![NibAtom::Exact(v)] + r) == atoms@ + r);
                            },
                            None => {},
                        }
                    }
                    i += 1;
                },
                None => {
                    return None;
                },
            }
        }
    }
    assert(atoms@ + Seq::<NibAtom>::empty() == atoms@);
    Some(atoms)
}

/// A nibble pattern of at least one whole byte, or `None`.
pub fn compile_pat(s: &str) -> (r: Option<Vec<NibAtom>>)
    ensures
        r matches Some(v) ==> compile_pat_spec(s@) == Some(v@),
        r is None ==> compile_pat_spec(s@) is None,
{
    let atoms = match tokenize(s) {
        Some(a) => a,
        None => {
            return None;
        },
    };
    if atoms.len() == 0 {
        return None;
    }
    if atoms.len() % 2 != 0 {
        return None;
    }
    Some(atoms)
}

/// The characters that are not whitespace, in order.
pub open spec fn strip_spaces(s: Seq<char>) -> Seq<char>
    decreases s.len(),
{
    if s.len() == 0 {
        s
    } else if is_space(s.last()) {
        strip_spaces(s.drop_last())
    } else {
        strip_spaces(s.drop_last()).push(s.last())
    }
}

/// Text that is nothing but an even, non-zero number of hex digits once its
/// whitespace is left out.
pub open spec fn is_pure_hex(t: Seq<char>) -> bool {
    let h = strip_spaces(t);
    h.len() > 0 && h.len() % 2 == 0 && forall|i: int| 0 <= i < h.len() ==> is_hex_digit(h[i])
}

proof fn lemma_hex_bytes_of_digits(s: Seq<char>)
    requires
        s.len() % 2 == 0,
        forall|i: int| 0 <= i < s.len() ==> is_hex_digit(s[i]),
    ensures
        hex_bytes(s) is Some,
    decreases s.len(),
{
    if s.len() >= 2 {
        let t = s.subrange(2, s.len() as int);
        assert forall|i: int| 0 <= i < t.len() implies is_hex_digit(t[i]) by {
            assert(t[i] == s[i + 2]);
        }
        lemma_hex_bytes_of_digits(t);
        assert(is_hex_digit(s[0]) && is_hex_digit(s[1]));
    }
}

/// Reads a search expression. After trimming, text that is only hex digits
/// (blanks aside, an even number of them) is an exact byte search; otherwise
/// it is tried as a nibble pattern; empty or unreadable text gives `None`.
/// The label is the trimmed text.
pub fn parse_input(s: &str) -> (r: Option<SearchKind>)
    ensures
        ({
            let t = trim_spec(s@);
            &&& r matches Some(SearchKind::Hex { bytes, label }) ==> t.len() > 0 && is_pure_hex(t)
                && hex_bytes(strip_spaces(t)) == Some(bytes@) && label@ == t
            &&& r matches Some(SearchKind::Pat { pat, label }) ==> t.len() > 0 && !is_pure_hex(t)
                && compile_pat_spec(t) == Some(pat@) && label@ == t
            &&& r is None ==> t.len() == 0 || (!is_pure_hex(t) && compile_pat_spec(t) is None)
        }),
{
    let t = trim(s);
    if t.is_empty() {
        return None;
    }
    let tc = chars_of(t);
    let mut hex: Vec<char> = Vec::new();
    let mut i: usize = 0;
    while i < tc.len()
        invariant
            i <= tc@.len(),
            tc@ == t@,
            hex@ == strip_spaces(t@.take(i as int)),
        decreases tc@.len() - i,
    {
        assert(t@.take(i + 1).drop_last() == t@.take(i as int));
        let c = tc[i];
        if !is_space_char(c) {
            hex.push(c);
        }
        i += 1;
    }
    assert(t@.take(tc@.len() as int) == t@);
    let mut all_hex = true;
    let mut k: usize = 0;
    while k < hex.len()
        invariant
            k <= hex@.len(),
            all_hex == forall|m: int| 0 <= m < k ==> is_hex_digit(hex@[m]),
        decreases hex@.len() - k,
    {
        if !is_hex_digit_char(hex[k]) {
            all_hex = false;
        }
        k += 1;
    }
    if hex.len() != 0 && hex.len() % 2 == 0 && all_hex {
        proof {
            lemma_hex_bytes_of_digits(hex@);
        }
        if let Some(bytes) = decode_hex(hex.as_slice()) {
            return Some(SearchKind::Hex { bytes, label: String::from_str(t) });
        }
    }
    if let Some(pat) = compile_pat(t) {
        return Some(SearchKind::Pat { pat, label: String::from_str(t) });
    }
    None
}

/// Reads a plain-string search: the trimmed text in double quotes as label,
/// and its UTF-8 bytes; `None` for blank text.
pub fn parse_str_input(s: &str) -> (r: Option<(String, Vec<u8>)>)
    ensures
        r is None <==> trim_spec(s@).len() == 0,
        r matches Some((label, bytes)) ==> label@ == seq!['"'] + trim_spec(s@) + seq!['"']
            && bytes@ == vstd::utf8::encode_utf8(trim_spec(s@)),
{
    let t = trim(s);
    if t.is_empty() {
        return None;
    }
    let mut label = String::from_str("\"");
    label.append(t);
    label.append("\"");
    proof {
        reveal_strlit("\"");
    }
    let raw = t.as_bytes();
    let mut bytes: Vec<u8> = Vec::new();
    let mut i: usize = 0;
    while i < raw.len()
        invariant
            i <= raw@.len(),
            bytes@ == raw@.take(i as int),
        decreases raw@.len() - i,
    {
        bytes.push(raw[i]);
        i += 1;
    }
    assert(raw@.take(raw@.len() as int) == raw@);
    Some((label, bytes))
}

/// Literal matches `(p, p + needle.len())` for every start `p` from `pos`
/// whose match ends by `chunk_end`, in increasing order; none for an empty needle.
pub open spec fn literal_at(needle: Seq<u8>, data: Seq<u8>, p: int) -> bool {
    p + needle.len() <= data.len() && data.subrange(p, p + needle.len()) == needle
}

pub fn literal_matches_at(needle: &[u8], data: &[u8], p: usize) -> (r: bool)
    requires
        p + needle@.len() <= data@.len(),
    ensures
        r == literal_at(needle@, data@, p as int),
{
    let n = needle.len();
    let mut j: usize = 0;
    while j < n
        invariant
            n == needle@.len(),
            p + n <= data.len(),
            j <= n,
            forall|m: int| 0 <= m < j ==> data@[p + m] == needle@[m],
        decreases n - j,
    {
        if data[p + j] != needle[j] {
            assert(data@.subrange(p as int, p + n)[j as int] != needle@[j as int]);
            return false;
        }
        j += 1;
    }
    assert(data@.subrange(p as int, p + n) == needle@);
    true
}

/// The literal matches of `needle` that start at or after `pos` and end at or
/// before `chunk_end`, as `(start, end)` pairs in increasing order; a scanning
/// worker reports these for each chunk.
pub fn chunk_matches(needle: &[u8], data: &[u8], pos: usize, chunk_end: usize) -> (out: Vec<
    (usize, usize),
>)
    requires
        chunk_end <= data@.len(),
        needle@.len() > 0,
    ensures
        forall|k: int|
            0 <= k < out@.len() ==> pos <= (#[trigger] out@[k]).0 && out@[k].1 == out@[k].0
                + needle@.len() && out@[k].1 <= chunk_end && literal_at(
                needle@,
                data@,
                out@[k].0 as int,
            ),
        forall|k: int, m: int| 0 <= k < m < out@.len() ==> out@[k].0 < out@[m].0,
        forall|p: int|
            pos <= p && p + needle@.len() <= chunk_end && literal_at(needle@, data@, p)
                ==> exists|k: int| 0 <= k < out@.len() && (#[trigger] out@[k]).0 == p,
{
    let n = needle.len();
    let mut out: Vec<(usize, usize)> = Vec::new();
    let mut p = pos;
    while p <= chunk_end && n <= chunk_end - p
        invariant
            n == needle@.len(),
            n > 0,
            chunk_end <= data.len(),
            pos <= p,
            forall|k: int|
                0 <= k < out@.len() ==> pos <= (#[trigger] out@[k]).0 < p && out@[k].1
                    == out@[k].0 + n && out@[k].1 <= chunk_end && literal_at(
                    needle@,
                    data@,
                    out@[k].0 as int,
                ),
            forall|k: int, m: int| 0 <= k < m < out@.len() ==> out@[k].0 < out@[m].0,
            forall|q: int|
                pos <= q < p && q + n <= chunk_end && literal_at(needle@, data@, q) ==> exists|
                    k: int,
                | 0 <= k < out@.len() && (#[trigger] out@[k]).0 == q,
        decreases chunk_end - p,
    {
        let ghost old_out = out@;
        let hit = literal_matches_at(needle, data, p);
        if hit {
            out.push((p, p + n));
        }
        assert forall|q: int|
            pos <= q < p + 1 && q + n <= chunk_end && literal_at(needle@, data@, q) implies exists|
                k: int,
            | 0 <= k < out@.len() && (#[trigger] out@[k]).0 == q by {
            if q == p {
                assert(out@[out@.len() - 1].0 == p);
            } else {
                let k = choose|k: int| 0 <= k < old_out.len() && (#[trigger] old_out[k]).0 == q;
                assert(out@[k] == old_out[k]);
            }
        }
        p += 1;
    }
    out
}

} // verus!

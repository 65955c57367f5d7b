//! Byte patterns of the compact search: each byte is matched under a mask
//! (whole byte, high half, low half, or anything), compiled from hex text
//! with `x` for an unknown half and `z` for an unknown byte.
use vstd::prelude::*;
use crate::search::hv;
use crate::text::{chars_of, hex_value};

verus! {

/// The lower-case form of `s`, as `str::to_lowercase` gives it.
pub uninterp spec fn lowercase(s: Seq<char>) -> Seq<char>;

/// `str::to_lowercase`. Its result is named, not stated: it follows the
/// Unicode lower-case mappings, which the documentation does not spell out.
#[verifier::external_body]
pub(crate) fn to_lowercase(s: &str) -> (r: String)
    ensures
        r@ == lowercase(s@),
{
    s.to_lowercase()
}

/// One byte of a pattern: a byte `b` matches when `b & mask == val`.
#[derive(Clone, Copy)]
pub struct BytePat {
    mask: u8,
    val: u8,
}

impl BytePat {
    pub closed spec fn mask_of(self) -> u8 {
        self.mask
    }

    pub closed spec fn val_of(self) -> u8 {
        self.val
    }

    /// Whether byte `b` matches.
    pub open spec fn accepts(self, b: u8) -> bool {
        b & self.mask_of() == self.val_of()
    }

    /// Exactly byte `b`.
    pub fn exact(b: u8) -> (r: Self)
        ensures
            r.mask_of() == 0xff && r.val_of() == b,
    {
        BytePat { mask: 0xff, val: b }
    }

    /// High half `hi`, any low half.
    pub fn hi_nibble(hi: u8) -> (r: Self)
        ensures
            r.mask_of() == 0xf0 && r.val_of() == hi << 4u8,
    {
        BytePat { mask: 0xf0, val: hi << 4u8 }
    }

    /// Low half `lo`, any high half.
    pub fn lo_nibble(lo: u8) -> (r: Self)
        ensures
            r.mask_of() == 0x0f && r.val_of() == lo,
    {
        BytePat { mask: 0x0f, val: lo }
    }

    /// Any byte.
    pub fn any() -> (r: Self)
        ensures
            r.mask_of() == 0 && r.val_of() == 0,
    {
        BytePat { mask: 0x00, val: 0 }
    }

    /// Whether byte `b` matches.
    pub fn matches(&self, b: u8) -> (r: bool)
        ensures
            r == self.accepts(b),
    {
        b & self.mask == self.val
    }
}

/// A sequence of byte patterns matched at consecutive bytes.
pub struct BytesPattern {
    pub pats: Vec<BytePat>,
}

/// Whether `pats` match `data` from `i` on.
pub open spec fn matches_at(pats: Seq<BytePat>, data: Seq<u8>, i: int) -> bool {
    0 <= i && i + pats.len() <= data.len() && forall|j: int|
        0 <= j < pats.len() ==> #[trigger] pats[j].accepts(data[i + j])
}

impl BytesPattern {
    /// The first offset at or after `start` where the whole pattern matches;
    /// `None` for an empty pattern.
    pub fn find_in(&self, data: &[u8], start: usize) -> (r: Option<usize>)
        requires
            start + self.pats@.len() <= usize::MAX,
        ensures
            match r {
                Some(i) => self.pats@.len() > 0 && start <= i && matches_at(self.pats@, data@, i as int)
                    && forall|k: int| start <= k < i ==> !matches_at(self.pats@, data@, k),
                None => self.pats@.len() == 0 || forall|k: int|
                    start <= k ==> !matches_at(self.pats@, data@, k),
            },
    {
        let nlen = self.pats.len();
        if nlen == 0 || start + nlen > data.len() {
            return None;
        }
        let last = data.len() - nlen;
        let mut i = start;
        while i <= last
            invariant
                nlen == self.pats@.len(),
                nlen > 0,
                last + nlen == data@.len(),
                data@.len() == data.len(),
                start <= i <= last + 1,
                forall|k: int| start <= k < i ==> !matches_at(self.pats@, data@, k),
            decreases last + 1 - i,
        {
            let mut j: usize = 0;
            let mut ok = true;
            while j < nlen
                invariant
                    nlen == self.pats@.len(),
                    i <= last,
                    last + nlen == data@.len(),
                    data@.len() == data.len(),
                    j <= nlen,
                    ok == forall|m: int| 0 <= m < j ==> #[trigger] self.pats@[m].accepts(data@[i + m]),
                decreases nlen - j,
            {
                if !self.pats[j].matches(data[i + j]) {
                    ok = false;
                }
                j += 1;
            }
            if ok {
                return Some(i);
            }
            i += 1;
        }
        None
    }
}

/// Whether `c` is kept in an advanced pattern: a hex digit, `x` or `z`.
pub open spec fn pattern_char(c: char) -> bool {
    hex_value(c) is Some || c == 'x' || c == 'z'
}

pub open spec fn pattern_pred() -> spec_fn(char) -> bool {
    |c: char| pattern_char(c)
}

/// The pattern written by the cleaned text `ch` from index `i`: `z` is any
/// byte; otherwise two characters make one byte, `x` standing for an
/// unknown half (`xx` for an unknown byte); a lone last character, or a
/// non-digit where a digit is needed, spoils it.
pub open spec fn pattern_from(ch: Seq<char>, i: int) -> Option<Seq<(u8, u8)>>
    decreases ch.len() - i,
{
    if i < 0 || i >= ch.len() {
        Some(seq![])
    } else if ch[i] == 'z' {
        match pattern_from(ch, i + 1) {
            Some(rest) => Some(seq![(0u8, 0u8)] + rest),
            None => None,
        }
    } else if i + 1 >= ch.len() {
        None
    } else {
        let a = ch[i];
        let b = ch[i + 1];
        let this: Option<(u8, u8)> = if a != 'x' && b != 'x' {
            match (hex_value(a), hex_value(b)) {
                (Some(x), Some(y)) => Some((0xffu8, (x * 16 + y) as u8)),
                _ => None,
            }
        } else if a != 'x' && b == 'x' {
            match hex_value(a) {
                Some(x) => Some((0xf0u8, x << 4u8)),
                None => None,
            }
        } else if a == 'x' && b != 'x' {
            match hex_value(b) {
                Some(y) => Some((0x0fu8, y)),
                None => None,
            }
        } else {
            Some((0u8, 0u8))
        };
        match (this, pattern_from(ch, i + 2)) {
            (Some(p), Some(rest)) => Some(seq![p] + rest),
            _ => None,
        }
    }
}

/// A pattern as (mask, value) pairs.
pub open spec fn pats_view(pats: Seq<BytePat>) -> Seq<(u8, u8)> {
    pats.map_values(|p: BytePat| (p.mask_of(), p.val_of()))
}

proof fn lemma_push_concat(a: Seq<(u8, u8)>, x: (u8, u8), r: Seq<(u8, u8)>)
    ensures
        a.push(x) + r == a + (seq![x] + r),
{
    assert(a.push(x) + r =~= a + (seq![x] + r));
}

/// Compiles an advanced hex pattern: the text is lower-cased, everything but
/// hex digits, `x` and `z` dropped, and the rest read as `pattern_from`
/// says. Empty text gives `None`.
pub fn compile_bytes_pattern(s: &str) -> (r: Option<BytesPattern>)
    ensures
        ({
            let clean = lowercase(s@).filter(pattern_pred());
            match r {
                Some(p) => clean.len() > 0 && pattern_from(clean, 0) == Some(pats_view(p.pats@)),
                None => clean.len() == 0 || pattern_from(clean, 0) is None,
            }
        }),
{
    let low = to_lowercase(s);
    let all = chars_of(low.as_str());
    let ghost src = all@;
    let mut ch: Vec<char> = Vec::new();
    let mut k: usize = 0;
    while k < all.len()
        invariant
            all@ == src,
            src == lowercase(s@),
            k <= src.len(),
            ch@ == src.subrange(0, k as int).filter(pattern_pred()),
        decreases src.len() - k,
    {
        let c = all[k];
        proof {
            assert(src.subrange(0, k + 1) =~= src.subrange(0, k as int).push(c));
            src.subrange(0, k as int).lemma_filter_push(c, pattern_pred());
        }
        if hv(c).is_some() || c == 'x' || c == 'z' {
            ch.push(c);
        }
        k += 1;
    }
    proof {
        assert(src.subrange(0, src.len() as int) =~= src);
    }
    if ch.len() == 0 {
        return None;
    }
    let ghost clean = ch@;
    let mut pats: Vec<BytePat> = Vec::new();
    let mut i: usize = 0;
    while i < ch.len()
        invariant
            ch@ == clean,
            clean == lowercase(s@).filter(pattern_pred()),
            clean.len() > 0,
            i <= clean.len(),
            pattern_from(clean, 0) == match pattern_from(clean, i as int) {
                Some(rest) => Some(pats_view(pats@) + rest),
                None => None::<Seq<(u8, u8)>>,
            },
        decreases clean.len() - i,
    {
        let ghost before = pats@;
        if ch[i] == 'z' {
            pats.push(BytePat::any());
            i += 1;
        } else if i + 1 >= ch.len() {
            return None;
        } else {
            let a = ch[i];
            let b = ch[i + 1];
            let p = if a != 'x' && b != 'x' {
                match (hv(a), hv(b)) {
                    (Some(x), Some(y)) => BytePat::exact(x * 16 + y),
                    _ => {
                        return None;
                    },
                }
            } else if a != 'x' && b == 'x' {
                match hv(a) {
                    Some(x) => BytePat::hi_nibble(x),
                    None => {
                        return None;
                    },
                }
            } else if a == 'x' && b != 'x' {
                match hv(b) {
                    Some(y) => BytePat::lo_nibble(y),
                    None => {
                        return None;
                    },
                }
            } else {
                BytePat::any()
            };
            pats.push(p);
            i += 2;
        }
        proof {
            let last = (pats@.last().mask_of(), pats@.last().val_of());
            assert(pats_view(pats@) =~= pats_view(before).push(last));
            if let Some(rest) = pattern_from(clean, i as int) {
                lemma_push_concat(pats_view(before), last, rest);
            }
        }
    }
    proof {
        assert(pats_view(pats@) + seq![] =~= pats_view(pats@));
    }
    Some(BytesPattern { pats })
}

/// The pattern of the fallback reading of `ch` from index `i`: two hex
/// digits in a row (not after a backslash) make one exact byte; any other
/// character stands for the low byte of its code point.
pub open spec fn fallback_from(ch: Seq<char>, i: int) -> Seq<u8>
    decreases ch.len() - i,
{
    if i < 0 || i >= ch.len() {
        seq![]
    } else if i + 1 < ch.len() && hex_value(ch[i]) is Some && hex_value(ch[i + 1]) is Some && (i == 0
        || ch[i - 1] != '\\') {
        seq![(hex_value(ch[i])->0 * 16 + hex_value(ch[i + 1])->0) as u8] + fallback_from(ch, i + 2)
    } else {
        seq![(ch[i] as u32) as u8] + fallback_from(ch, i + 1)
    }
}

/// Reads text as exact bytes (see `fallback_from`); empty text gives `None`.
pub fn compile_fallback_pat(s: &str) -> (r: Option<BytesPattern>)
    ensures
        match r {
            Some(p) => s@.len() > 0 && p.pats@.len() > 0 && forall|j: int|
                0 <= j < p.pats@.len() ==> (#[trigger] p.pats@[j]).mask_of() == 0xff,
            None => s@.len() == 0,
        },
        r matches Some(p) ==> p.pats@.map_values(|q: BytePat| q.val_of()) == fallback_from(s@, 0),
{
    let ch = chars_of(s);
    let ghost c = ch@;
    let mut pats: Vec<BytePat> = Vec::new();
    let mut i: usize = 0;
    while i < ch.len()
        invariant
            ch@ == c,
            i <= c.len(),
            i > 0 ==> pats@.len() > 0,
            forall|j: int| 0 <= j < pats@.len() ==> (#[trigger] pats@[j]).mask_of() == 0xff,
            fallback_from(c, 0) == pats@.map_values(|q: BytePat| q.val_of()) + fallback_from(c, i as int),
        decreases c.len() - i,
    {
        let ghost before = pats@;
        if i + 1 < ch.len() && hv(ch[i]).is_some() && hv(ch[i + 1]).is_some() && (i == 0 || ch[i - 1]
            != '\\') {
            let x = hv(ch[i]).unwrap();
            let y = hv(ch[i + 1]).unwrap();
            pats.push(BytePat::exact(x * 16 + y));
            i += 2;
        } else {
            pats.push(BytePat::exact((ch[i] as u32) as u8));
            i += 1;
        }
        proof {
            assert(pats@.map_values(|q: BytePat| q.val_of()) =~= before.map_values(|q: BytePat| q.val_of()).push(
                pats@.last().val_of(),
            ));
        }
    }
    proof {
        assert(pats@.map_values(|q: BytePat| q.val_of()) + seq![] =~= pats@.map_values(|q: BytePat| q.val_of()));
    }
    if pats.len() == 0 {
        None
    } else {
        Some(BytesPattern { pats })
    }
}

} // verus!

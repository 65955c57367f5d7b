//! Search over a file: the next and previous match of a needle, found by
//! comparing bytes, and a four-level bitmap (which 1 GiB blocks, which 1 MiB
//! blocks, which 4 KiB pages and which bytes start a match, 804 bytes) with
//! the count of matches, filled by scanning the file a chunk at a time.
use vstd::prelude::*;
use vstd::std_specs::bits::{
    axiom_u8_leading_zeros, axiom_u8_trailing_zeros, u8_leading_zeros, u8_trailing_zeros,
};
use crate::search::{atoms_match, atoms_ok, atoms_span, literal_at, literal_matches_at, Needle};

verus! {

broadcast use vstd::array::group_array_axioms;

pub const L0_BITS: usize = 4096;

pub const L1_BITS: usize = 256;

pub const L2_BITS: usize = 1024;

pub const L3_BITS: usize = 1024;

pub const PAGE_SIZE: usize = 4096;

pub const MB_SIZE: usize = 1048576;

pub const GB_SIZE: usize = 1073741824;

pub const SCAN_CHUNK: usize = 1048576;

/// Bit `j` (0 = least significant) of a byte.
pub open spec fn bit_of(b: u8, j: int) -> bool {
    0 <= j < 8 && (b >> (j as u8)) & 1u8 == 1u8
}

/// Bit `i` of a bitmap, bit `i % 8` of byte `i / 8`.
pub open spec fn bit_at(bm: Seq<u8>, i: int) -> bool {
    0 <= i < 8 * bm.len() && bit_of(bm[i / 8], i % 8)
}

proof fn lemma_or_bit(b: u8, k: u8, j: u8)
    requires
        k < 8,
        j < 8,
    ensures
        ((b | (1u8 << k)) >> j) & 1u8 == 1u8 <==> (j == k || (b >> j) & 1u8 == 1u8),
{
    assert(k < 8 && j < 8 ==> (((b | (1u8 << k)) >> j) & 1u8 == 1u8 <==> (j == k || (b >> j)
        & 1u8 == 1u8))) by (bit_vector);
}

proof fn lemma_zero_bits(j: u8)
    ensures
        (0u8 >> j) & 1u8 == 0u8,
{
    assert((0u8 >> j) & 1u8 == 0u8) by (bit_vector);
}

/// Sets bit `bit` of the bitmap.
pub fn set_bit<const N: usize>(bm: &mut [u8; N], bit: usize)
    requires
        bit < 8 * N,
    ensures
        forall|i: int| #[trigger] bit_at(final(bm)@, i) == (i == bit || bit_at(old(bm)@, i)),
{
    let k = (bit % 8) as u8;
    let idx = bit / 8;
    let old_b = bm[idx];
    bm[idx] = old_b | (1u8 << k);
    proof {
        assert forall|i: int| #[trigger] bit_at(bm@, i) == (i == bit || bit_at(old(bm)@, i)) by {
            if 0 <= i < 8 * N {
                if i / 8 == idx as int {
                    lemma_or_bit(old_b, k, (i % 8) as u8);
                } else {
                    assert(bm@[i / 8] == old(bm)@[i / 8]);
                }
            }
        }
    }
}

/// Least set bit at or after `from` and before `to`.
pub open spec fn first_set(bm: Seq<u8>, from: int, to: int) -> Option<int>
    decreases to - from,
{
    if from >= to || from < 0 {
        None
    } else if bit_at(bm, from) {
        Some(from)
    } else {
        first_set(bm, from + 1, to)
    }
}

/// Greatest set bit at or before `at` (and at or after `lo`).
pub open spec fn last_set(bm: Seq<u8>, lo: int, at: int) -> Option<int>
    decreases at + 1 - lo,
{
    if at < lo || at < 0 {
        None
    } else if bit_at(bm, at) {
        Some(at)
    } else {
        last_set(bm, lo, at - 1)
    }
}

proof fn lemma_first_set_unique(bm: Seq<u8>, from: int, to: int, j: int)
    requires
        0 <= from <= j < to,
        bit_at(bm, j),
        forall|m: int| from <= m < j ==> !bit_at(bm, m),
    ensures
        first_set(bm, from, to) == Some(j),
    decreases j - from,
{
    if from < j {
        lemma_first_set_unique(bm, from + 1, to, j);
    }
}

proof fn lemma_first_set_none(bm: Seq<u8>, from: int, to: int)
    requires
        forall|m: int| from <= m < to ==> !bit_at(bm, m),
    ensures
        first_set(bm, from, to) is None,
    decreases to - from,
{
    if from < to && from >= 0 {
        lemma_first_set_none(bm, from + 1, to);
    }
}

proof fn lemma_last_set_unique(bm: Seq<u8>, lo: int, at: int, j: int)
    requires
        0 <= lo <= j <= at,
        bit_at(bm, j),
        forall|m: int| j < m <= at ==> !bit_at(bm, m),
    ensures
        last_set(bm, lo, at) == Some(j),
    decreases at - j,
{
    if j < at {
        lemma_last_set_unique(bm, lo, at - 1, j);
    }
}

proof fn lemma_last_set_none(bm: Seq<u8>, lo: int, at: int)
    requires
        0 <= lo,
        forall|m: int| lo <= m <= at ==> !bit_at(bm, m),
    ensures
        last_set(bm, lo, at) is None,
    decreases at + 1 - lo,
{
    if at >= lo {
        lemma_last_set_none(bm, lo, at - 1);
    }
}

/// Bits of a byte at or above `k`.
proof fn lemma_low_mask(b: u8, k: u8, j: u8)
    by (bit_vector)
    requires
        k < 8,
        j < 8,
    ensures
        ((b & (0xffu8 << k)) >> j) & 1u8 == 1u8 <==> (j >= k && (b >> j) & 1u8 == 1u8),
{
}

/// Bits of a byte at or below `7 - s`.
proof fn lemma_high_mask(b: u8, s: u8, j: u8)
    by (bit_vector)
    requires
        s < 8,
        j < 8,
    ensures
        ((b & (0xffu8 >> s)) >> j) & 1u8 == 1u8 <==> (j + s <= 7 && (b >> j) & 1u8 == 1u8),
{
}

/// Lowest set bit of a non-zero byte.
fn lowest_bit(b: u8) -> (r: usize)
    requires
        b != 0,
    ensures
        r < 8,
        bit_of(b, r as int),
        forall|j: int| 0 <= j < r ==> !bit_of(b, j),
{
    proof {
        axiom_u8_trailing_zeros(b);
    }
    let t = b.trailing_zeros();
    proof {
        assert forall|j: int| 0 <= j < t implies !bit_of(b, j) by {
            let ju = j as u8;
            assert((b >> ju) & 1u8 == 0u8);
        }
    }
    t as usize
}

/// Highest set bit of a non-zero byte.
fn highest_bit(b: u8) -> (r: usize)
    requires
        b != 0,
    ensures
        r < 8,
        bit_of(b, r as int),
        forall|j: int| r < j < 8 ==> !bit_of(b, j),
{
    proof {
        axiom_u8_leading_zeros(b);
    }
    let z = b.leading_zeros();
    proof {
        let r = (7 - z) as u8;
        assert((b >> r) & 1u8 != 0u8);
        assert(((b >> r) & 1u8 != 0u8) ==> ((b >> r) & 1u8 == 1u8)) by (bit_vector);
        assert forall|j: int| 7 - z < j < 8 implies !bit_of(b, j) by {
            let ju = j as u8;
            assert((b >> ju) & 1u8 == 0u8);
        }
    }
    7 - z as usize
}

proof fn lemma_byte_bit(bm: Seq<u8>, k: int, j: int)
    requires
        0 <= k < bm.len(),
        0 <= j < 8,
    ensures
        bit_at(bm, 8 * k + j) == bit_of(bm[k], j),
{
    assert((8 * k + j) / 8 == k) by (nonlinear_arith)
        requires
            0 <= j < 8,
    ;
    assert((8 * k + j) % 8 == j) by (nonlinear_arith)
        requires
            0 <= j < 8,
    ;
}

proof fn lemma_bit_split(i: int)
    requires
        0 <= i,
    ensures
        i == 8 * (i / 8) + i % 8,
        0 <= i % 8 < 8,
{
}

/// Upper end of the search window of [`next_set`]: `total_bits`, widened to the
/// end of the byte holding `pos`.
pub open spec fn next_set_end(total_bits: int, pos: int) -> int {
    if total_bits >= 8 * (pos / 8) + 8 {
        total_bits
    } else {
        8 * (pos / 8) + 8
    }
}

/// First set bit at or after `pos`: none if `pos >= total_bits`; bits of the
/// byte holding `pos` count even beyond `total_bits`, bits of later bytes only
/// below it.
pub fn next_set(bm: &[u8], total_bits: usize, pos: usize) -> (r: Option<usize>)
    requires
        total_bits <= 8 * bm@.len(),
    ensures
        pos >= total_bits ==> r is None,
        pos < total_bits ==> (match first_set(bm@, pos as int, next_set_end(total_bits as int, pos as int)) {
            Some(j) => r == Some(j as usize),
            None => r is None,
        }),
{
    if pos >= total_bits {
        return None;
    }
    let hi: Ghost<int> = Ghost(next_set_end(total_bits as int, pos as int));
    let mut byte_idx = pos / 8;
    let bit_idx = (pos % 8) as u8;
    proof {
        lemma_bit_split(pos as int);
    }
    let b = bm[byte_idx] & (0xffu8 << bit_idx);
    proof {
        assert forall|j: int| 0 <= j < 8 implies bit_of(b, j) == (j >= bit_idx && bit_of(
            bm@[byte_idx as int],
            j,
        )) by {
            lemma_low_mask(bm@[byte_idx as int], bit_idx, j as u8);
        }
    }
    if b != 0 {
        let t = lowest_bit(b);
        proof {
            lemma_byte_bit(bm@, byte_idx as int, t as int);
            assert(bit_of(b, t as int));
            assert forall|m: int| pos <= m < byte_idx * 8 + t implies !bit_at(bm@, m) by {
                let j = m - 8 * byte_idx;
                lemma_byte_bit(bm@, byte_idx as int, j);
                assert(!bit_of(b, j));
                assert(bit_of(b, j) == (j >= bit_idx && bit_of(bm@[byte_idx as int], j)));
            }
            lemma_first_set_unique(bm@, pos as int, hi@, byte_idx * 8 + t);
        }
        return Some(byte_idx * 8 + t);
    }
    proof {
        assert forall|m: int| pos <= m < 8 * byte_idx + 8 implies !bit_at(bm@, m) by {
            let j = m - 8 * byte_idx;
            lemma_byte_bit(bm@, byte_idx as int, j);
            lemma_zero_bits(j as u8);
            assert(bit_of(b, j) == (j >= bit_idx && bit_of(bm@[byte_idx as int], j)));
        }
    }
    byte_idx += 1;
    let nbytes = total_bits / 8 + if total_bits % 8 != 0 {
        1
    } else {
        0
    };
    while byte_idx < nbytes
        invariant
            total_bits <= 8 * bm@.len(),
            pos < total_bits,
            hi@ == next_set_end(total_bits as int, pos as int),
            nbytes as int == (total_bits + 7) / 8,
            pos / 8 < byte_idx <= nbytes,
            forall|m: int| pos <= m < 8 * byte_idx && m < hi@ ==> !bit_at(bm@, m),
        decreases nbytes - byte_idx,
    {
        let v = bm[byte_idx];
        if v != 0 {
            let t = lowest_bit(v);
            let bit = byte_idx * 8 + t;
            proof {
                lemma_byte_bit(bm@, byte_idx as int, t as int);
                assert forall|m: int| 8 * byte_idx <= m < bit implies !bit_at(bm@, m) by {
                    lemma_byte_bit(bm@, byte_idx as int, m - 8 * byte_idx);
                }
            }
            if bit < total_bits {
                proof {
                    lemma_first_set_unique(bm@, pos as int, hi@, bit as int);
                }
                return Some(bit);
            }
            proof {
                assert forall|m: int| pos <= m < 8 * byte_idx + 8 && m < hi@ implies !bit_at(bm@, m) by {
                    if m >= 8 * byte_idx {
                        assert(m < bit);
                    }
                }
            }
        } else {
            proof {
                assert forall|m: int| 8 * byte_idx <= m < 8 * byte_idx + 8 implies !bit_at(bm@, m) by {
                    lemma_byte_bit(bm@, byte_idx as int, m - 8 * byte_idx);
                    lemma_zero_bits((m - 8 * byte_idx) as u8);
                }
            }
        }
        byte_idx += 1;
    }
    proof {
        lemma_first_set_none(bm@, pos as int, hi@);
    }
    None
}

/// Last set bit at or before `pos`.
pub fn prev_set(bm: &[u8], pos: usize) -> (r: Option<usize>)
    requires
        pos / 8 <= bm@.len(),
    ensures
        match last_set(bm@, 0, pos as int) {
            Some(j) => r == Some(j as usize),
            None => r is None,
        },
{
    let mut byte_idx = pos / 8;
    let bit_idx = (pos % 8) as u8;
    proof {
        lemma_bit_split(pos as int);
    }
    if byte_idx < bm.len() {
        let b = bm[byte_idx] & (0xffu8 >> (7 - bit_idx));
        proof {
            assert forall|j: int| 0 <= j < 8 implies bit_of(b, j) == (j <= bit_idx && bit_of(
                bm@[byte_idx as int],
                j,
            )) by {
                lemma_high_mask(bm@[byte_idx as int], (7 - bit_idx) as u8, j as u8);
            }
        }
        if b != 0 {
            let t = highest_bit(b);
            proof {
                lemma_byte_bit(bm@, byte_idx as int, t as int);
                assert(bit_of(b, t as int));
                assert forall|m: int| byte_idx * 8 + t < m <= pos implies !bit_at(bm@, m) by {
                    let j = m - 8 * byte_idx;
                    lemma_byte_bit(bm@, byte_idx as int, j);
                    assert(!bit_of(b, j));
                    assert(bit_of(b, j) == (j <= bit_idx && bit_of(bm@[byte_idx as int], j)));
                }
                lemma_last_set_unique(bm@, 0, pos as int, byte_idx * 8 + t);
            }
            return Some(byte_idx * 8 + t);
        }
        proof {
            assert forall|m: int| 8 * byte_idx <= m <= pos implies !bit_at(bm@, m) by {
                let j = m - 8 * byte_idx;
                lemma_byte_bit(bm@, byte_idx as int, j);
                lemma_zero_bits(j as u8);
                assert(bit_of(b, j) == (j <= bit_idx && bit_of(bm@[byte_idx as int], j)));
            }
        }
    }
    while byte_idx > 0
        invariant
            byte_idx <= pos / 8,
            pos / 8 <= bm@.len(),
            forall|m: int| 8 * byte_idx <= m <= pos ==> !bit_at(bm@, m),
        decreases byte_idx,
    {
        byte_idx -= 1;
        let v = bm[byte_idx];
        if v != 0 {
            let t = highest_bit(v);
            proof {
                lemma_byte_bit(bm@, byte_idx as int, t as int);
                assert forall|m: int| byte_idx * 8 + t < m <= pos implies !bit_at(bm@, m) by {
                    if m < 8 * byte_idx + 8 {
                        lemma_byte_bit(bm@, byte_idx as int, m - 8 * byte_idx);
                    }
                }
                lemma_last_set_unique(bm@, 0, pos as int, byte_idx * 8 + t);
            }
            return Some(byte_idx * 8 + t);
        } else {
            proof {
                assert forall|m: int| 8 * byte_idx <= m < 8 * byte_idx + 8 implies !bit_at(bm@, m) by {
                    lemma_byte_bit(bm@, byte_idx as int, m - 8 * byte_idx);
                    lemma_zero_bits((m - 8 * byte_idx) as u8);
                }
            }
        }
    }
    proof {
        lemma_last_set_none(bm@, 0, pos as int);
    }
    None
}

/// Offset split into (1 GiB block, 1 MiB block in it, 4 KiB page in it, byte in page).
pub open spec fn decode_spec(pos: int) -> (int, int, int, int) {
    (pos / GB_SIZE as int, pos % GB_SIZE as int / MB_SIZE as int, pos % MB_SIZE as int
        / PAGE_SIZE as int, pos % PAGE_SIZE as int)
}

pub open spec fn encode_spec(g3: int, g2: int, g1: int, g0: int) -> int {
    g3 * GB_SIZE + g2 * MB_SIZE + g1 * PAGE_SIZE + g0
}

/// Splits an offset into its four bitmap coordinates.
pub fn decode(pos: usize) -> (r: (usize, usize, usize, usize))
    ensures
        (r.0 as int, r.1 as int, r.2 as int, r.3 as int) == decode_spec(pos as int),
        r.1 < 1024 && r.2 < 256 && r.3 < 4096,
{
    (pos / GB_SIZE, pos % GB_SIZE / MB_SIZE, pos % MB_SIZE / PAGE_SIZE, pos % PAGE_SIZE)
}

/// Joins four bitmap coordinates into an offset.
pub fn encode(g3: usize, g2: usize, g1: usize, g0: usize) -> (r: usize)
    requires
        encode_spec(g3 as int, g2 as int, g1 as int, g0 as int) <= usize::MAX,
    ensures
        r == encode_spec(g3 as int, g2 as int, g1 as int, g0 as int),
{
    g3 * GB_SIZE + g2 * MB_SIZE + g1 * PAGE_SIZE + g0
}

/// Joining the coordinates of an offset gives the offset back.
pub proof fn lemma_encode_decode(pos: int)
    requires
        0 <= pos,
    ensures
        ({
            let (g3, g2, g1, g0) = decode_spec(pos);
            encode_spec(g3, g2, g1, g0) == pos
        }),
{
    let g = GB_SIZE as int;
    let m = MB_SIZE as int;
    let p = PAGE_SIZE as int;
    assert(pos == (pos / g) * g + pos % g) by (nonlinear_arith)
        requires
            g > 0,
    ;
    let r = pos % g;
    assert(r == (r / m) * m + r % m) by (nonlinear_arith)
        requires
            m > 0,
    ;
    vstd::arithmetic::div_mod::lemma_mod_mod(pos, m, 1024);
    assert(m * 1024 == g);
    let q = pos % m;
    assert(q == (q / p) * p + q % p) by (nonlinear_arith)
        requires
            p > 0,
    ;
    vstd::arithmetic::div_mod::lemma_mod_mod(pos, p, 256);
    assert(p * 256 == m);
}

/// Splitting joined coordinates (each below its level's width) gives them back.
pub proof fn lemma_decode_encode(g3: int, g2: int, g1: int, g0: int)
    requires
        0 <= g3,
        0 <= g2 < 1024,
        0 <= g1 < 256,
        0 <= g0 < 4096,
    ensures
        decode_spec(encode_spec(g3, g2, g1, g0)) == (g3, g2, g1, g0),
{
    let pos = encode_spec(g3, g2, g1, g0);
    let low = g2 * MB_SIZE + g1 * PAGE_SIZE + g0;
    assert(0 <= low < GB_SIZE);
    assert(pos / GB_SIZE as int == g3 && pos % GB_SIZE as int == low) by (nonlinear_arith)
        requires
            pos == g3 * 1073741824 + low,
            0 <= low < 1073741824,
    ;
    let low2 = g1 * PAGE_SIZE + g0;
    assert(0 <= low2 < MB_SIZE);
    assert(low / MB_SIZE as int == g2 && low % MB_SIZE as int == low2) by (nonlinear_arith)
        requires
            low == g2 * 1048576 + low2,
            0 <= low2 < 1048576,
    ;
    assert(pos % MB_SIZE as int == low2) by (nonlinear_arith)
        requires
            pos == g3 * 1073741824 + g2 * 1048576 + low2,
            0 <= low2 < 1048576,
            g3 >= 0,
            g2 >= 0,
    ;
    assert(low2 / PAGE_SIZE as int == g1 && low2 % PAGE_SIZE as int == g0) by (nonlinear_arith)
        requires
            low2 == g1 * 4096 + g0,
            0 <= g0 < 4096,
    ;
    assert(pos % PAGE_SIZE as int == g0) by (nonlinear_arith)
        requires
            pos == g3 * 1073741824 + g2 * 1048576 + g1 * 4096 + g0,
            0 <= g0 < 4096,
            g3 >= 0,
            g2 >= 0,
            g1 >= 0,
    ;
}

pub(crate) proof fn lemma_clear_map(bm: Seq<u8>)
    requires
        forall|k: int| 0 <= k < bm.len() ==> bm[k] == 0,
    ensures
        forall|i: int| !#[trigger] bit_at(bm, i),
{
    assert forall|i: int| !#[trigger] bit_at(bm, i) by {
        if 0 <= i < 8 * bm.len() {
            lemma_bit_split(i);
            assert(bm[i / 8] == 0);
            lemma_zero_bits((i % 8) as u8);
        }
    }
}

/// Bytes a needle compares.
pub open spec fn needle_span(n: Needle) -> int {
    match n {
        Needle::Lit(b) => b@.len() as int,
        Needle::Pat(a) => atoms_span(a@),
    }
}

/// Whether the needle's bytes are found at `p` (the span is in range).
pub open spec fn needle_hits(n: Needle, data: Seq<u8>, p: int) -> bool {
    match n {
        Needle::Lit(b) => literal_at(b@, data, p),
        Needle::Pat(a) => atoms_ok(a@, data, p),
    }
}

pub open spec fn c0(p: int) -> int {
    p % PAGE_SIZE as int
}

pub open spec fn c1(p: int) -> int {
    p % MB_SIZE as int / PAGE_SIZE as int
}

pub open spec fn c2(p: int) -> int {
    p % GB_SIZE as int / MB_SIZE as int
}

pub open spec fn c3(p: int) -> int {
    p / GB_SIZE as int
}

/// The on-demand search index over one file.
///
/// Level 3 marks the 1 GiB blocks holding a match start, level 2 the 1 MiB
/// blocks (of the block being looked at), level 1 the 4 KiB pages (of the
/// 1 MiB block being looked at) and level 0 the bytes (of the page being
/// looked at) where a match starts. `scanned` bytes have been searched so far
/// and `count` matches found in them.
pub struct BitSearch {
    l0: [u8; 512],
    l1: [u8; 32],
    l2: [u8; 128],
    l3: [u8; 128],
    pub count: usize,
    scanned: usize,
    needle: Needle,
    needle_len: usize,
    pub label: String,
    cached_page: usize,
    cached_mb: usize,
    file_size: usize,
}

impl BitSearch {
    pub closed spec fn nlen(&self) -> int {
        self.needle_len as int
    }

    /// A needle's length is not negative.
    pub proof fn lemma_nlen_nonneg(&self)
        ensures
            self.nlen() >= 0,
    {
    }

    pub closed spec fn fsize(&self) -> int {
        self.file_size as int
    }

    pub closed spec fn scanned_to(&self) -> int {
        self.scanned as int
    }

    pub closed spec fn cache_page(&self) -> int {
        self.cached_page as int
    }

    pub closed spec fn cache_mb(&self) -> int {
        self.cached_mb as int
    }

    pub closed spec fn pattern(&self) -> Needle {
        self.needle
    }

    pub closed spec fn tag(&self) -> String {
        self.label
    }

    pub closed spec fn found(&self) -> int {
        self.count as int
    }

    pub closed spec fn lvl0(&self, i: int) -> bool {
        bit_at(self.l0@, i)
    }

    pub closed spec fn lvl1(&self, i: int) -> bool {
        bit_at(self.l1@, i)
    }

    pub closed spec fn lvl2(&self, i: int) -> bool {
        bit_at(self.l2@, i)
    }

    pub closed spec fn lvl3(&self, i: int) -> bool {
        bit_at(self.l3@, i)
    }

    /// A match of the needle starts at `p` and fits in `data`.
    pub closed spec fn match_at(&self, data: Seq<u8>, p: int) -> bool {
        0 <= p && p + self.needle_len <= data.len() && needle_hits(self.needle, data, p)
    }

    /// A match starts at `p >= lo` and ends by `hi`.
    pub open spec fn hit_in(&self, data: Seq<u8>, lo: int, hi: int, p: int) -> bool {
        lo <= p && p + self.nlen() <= hi && self.match_at(data, p)
    }

    /// Number of matches starting in `lo..upto` and ending by `hi`.
    pub open spec fn hits_count(&self, data: Seq<u8>, lo: int, hi: int, upto: int) -> nat
        decreases upto - lo,
    {
        if upto <= lo {
            0
        } else {
            self.hits_count(data, lo, hi, upto - 1) + if self.hit_in(data, lo, hi, upto - 1) {
                1nat
            } else {
                0nat
            }
        }
    }

    /// Limits that keep every offset computation in range: the needle's own
    /// span fits its stated length, the file is below 1 TiB, offsets a few GiB
    /// past the end still fit a `usize`, level 3 only marks blocks that start
    /// within the file, and the match count stays below what was scanned.
    pub closed spec fn wf(&self) -> bool {
        &&& needle_span(self.needle) <= self.needle_len
        &&& self.file_size < 1024 * GB_SIZE
        &&& self.file_size as int + self.needle_len as int + 3 * GB_SIZE as int <= usize::MAX
        &&& self.scanned <= self.file_size
        &&& forall|g: int| #[trigger] bit_at(self.l3@, g) ==> g * GB_SIZE <= self.file_size
    }

    /// The match count has room for one more chunk of marks.
    pub open spec fn count_room(&self) -> bool {
        &&& self.nlen() >= 1 ==> self.found() <= self.scanned_to()
        &&& self.nlen() == 0 ==> self.found() + SCAN_CHUNK + 1 <= usize::MAX
    }

    /// Everything but the level bitmaps, the count and the scan position is
    /// as in `old`.
    pub open spec fn same_setup(&self, old: &Self) -> bool {
        &&& self.pattern() == old.pattern()
        &&& self.nlen() == old.nlen()
        &&& self.fsize() == old.fsize()
        &&& self.tag() == old.tag()
    }

    /// A fresh index for `needle` (which compares `needle_len` bytes) over a
    /// file of `file_size` bytes: nothing scanned, nothing marked, no cache.
    pub fn new(needle: Needle, needle_len: usize, label: String, file_size: usize) -> (r: Self)
        requires
            needle_span(needle) <= needle_len,
            file_size < 1024 * GB_SIZE,
            file_size as int + needle_len as int + 3 * GB_SIZE as int <= usize::MAX,
        ensures
            r.wf(),
            r.pattern() == needle,
            r.nlen() == needle_len,
            r.tag() == label,
            r.fsize() == file_size,
            r.found() == 0,
            r.scanned_to() == 0,
            r.cache_page() == usize::MAX,
            r.cache_mb() == usize::MAX,
            forall|i: int|
                !r.lvl0(i) && !r.lvl1(i) && !r.lvl2(i) && !#[trigger] r.lvl3(i),
    {
        let r = BitSearch {
            l0: [0;512],
            l1: [0;32],
            l2: [0;128],
            l3: [0;128],
            count: 0,
            scanned: 0,
            needle,
            needle_len,
            label,
            cached_page: usize::MAX,
            cached_mb: usize::MAX,
            file_size,
        };
        proof {
            lemma_clear_map(r.l0@);
            lemma_clear_map(r.l1@);
            lemma_clear_map(r.l2@);
            lemma_clear_map(r.l3@);
        }
        r
    }

    /// Whether part of the file is still unscanned.
    pub fn has_more(&self) -> (r: bool)
        ensures
            r == (self.scanned_to() < self.fsize()),
    {
        self.scanned < self.file_size
    }

    /// The text the search was typed as.
    pub fn label(&self) -> (r: &String)
        ensures
            *r == self.tag(),
    {
        &self.label
    }

    /// Matches found so far.
    pub fn match_total(&self) -> (r: usize)
        ensures
            r == self.found(),
    {
        self.count
    }

    /// Bytes scanned so far.
    pub fn scanned(&self) -> (r: usize)
        ensures
            r == self.scanned_to(),
            self.wf() ==> r <= self.fsize(),
    {
        self.scanned
    }

    fn mark(&mut self, pos: usize)
        requires
            old(self).wf(),
            pos <= old(self).fsize(),
            old(self).found() < usize::MAX,
        ensures
            final(self).wf(),
            final(self).same_setup(old(self)),
            final(self).scanned_to() == old(self).scanned_to(),
            final(self).cache_page() == old(self).cache_page(),
            final(self).cache_mb() == old(self).cache_mb(),
            final(self).found() == old(self).found() + 1,
            forall|i: int| #[trigger] final(self).lvl0(i) == (i == c0(pos as int) || old(self).lvl0(i)),
            forall|i: int| #[trigger] final(self).lvl1(i) == (i == c1(pos as int) || old(self).lvl1(i)),
            forall|i: int| #[trigger] final(self).lvl2(i) == (i == c2(pos as int) || old(self).lvl2(i)),
            forall|i: int| #[trigger] final(self).lvl3(i) == (i == c3(pos as int) || old(self).lvl3(i)),
    {
        let (g3, g2, g1, g0) = decode(pos);
        assert(g3 < 1024) by {
            assert(pos < 1024 * GB_SIZE);
        }
        set_bit(&mut self.l0, g0);
        set_bit(&mut self.l1, g1);
        set_bit(&mut self.l2, g2);
        set_bit(&mut self.l3, g3);
        self.count += 1;
        proof {
            assert forall|g: int| #[trigger] bit_at(self.l3@, g) implies g * GB_SIZE <= self.file_size by {
                if g == g3 {
                    assert(g3 * GB_SIZE <= pos) by (nonlinear_arith)
                        requires
                            g3 == pos / 1073741824,
                    ;
                }
            }
        }
    }

    /// Whether a match starts at `pos`.
    pub fn matches_at(&self, data: &[u8], pos: usize) -> (r: bool)
        requires
            self.wf(),
        ensures
            r == self.match_at(data@, pos as int),
    {
        if pos > data.len() || self.needle_len > data.len() - pos {
            return false;
        }
        match &self.needle {
            Needle::Lit(bytes) => literal_matches_at(bytes.as_slice(), data, pos),
            Needle::Pat(atoms) => atoms_match(atoms.as_slice(), data, pos),
        }
    }

    /// End of the searched part of `lo..hi`: capped by the file size and by
    /// what has been scanned.
    pub open spec fn seen_end(&self, hi: int) -> int {
        let e = if hi < self.fsize() {
            hi
        } else {
            self.fsize()
        };
        if e < self.scanned_to() {
            e
        } else {
            self.scanned_to()
        }
    }

    /// Searches the next chunk (up to 1 MiB) after the scanned prefix and marks
    /// every match that starts there and ends within it, returning how many.
    /// When not even one needle fits after the scanned prefix, the whole file
    /// counts as scanned and nothing is marked.
    pub fn scan_chunk(&mut self, data: &[u8]) -> (found: usize)
        requires
            old(self).wf(),
            old(self).count_room(),
        ensures
            final(self).found() <= old(self).found() + SCAN_CHUNK + 1,
            final(self).wf(),
            final(self).same_setup(old(self)),
            final(self).cache_page() == old(self).cache_page(),
            final(self).cache_mb() == old(self).cache_mb(),
            final(self).nlen() >= 1 ==> final(self).found() <= final(self).scanned_to(),
            ({
                let start = old(self).scanned_to();
                let end = if start + SCAN_CHUNK < old(self).fsize() {
                    start + SCAN_CHUNK
                } else {
                    old(self).fsize()
                };
                if start + old(self).nlen() > old(self).fsize() {
                    &&& final(self).scanned_to() == old(self).fsize()
                    &&& found == 0
                    &&& final(self).found() == old(self).found()
                    &&& forall|i: int| #[trigger] final(self).lvl0(i) == old(self).lvl0(i)
                    &&& forall|i: int| #[trigger] final(self).lvl1(i) == old(self).lvl1(i)
                    &&& forall|i: int| #[trigger] final(self).lvl2(i) == old(self).lvl2(i)
                    &&& forall|i: int| #[trigger] final(self).lvl3(i) == old(self).lvl3(i)
                } else {
                    &&& final(self).scanned_to() == end
                    &&& found == old(self).hits_count(data@, start, end, end + 1)
                    &&& final(self).found() == old(self).found() + found
                    &&& forall|i: int| #[trigger] final(self).lvl0(i) == (old(self).lvl0(i) || exists|p: int|
                        old(self).hit_in(data@, start, end, p) && c0(p) == i)
                    &&& forall|i: int| #[trigger] final(self).lvl1(i) == (old(self).lvl1(i) || exists|p: int|
                        old(self).hit_in(data@, start, end, p) && c1(p) == i)
                    &&& forall|i: int| #[trigger] final(self).lvl2(i) == (old(self).lvl2(i) || exists|p: int|
                        old(self).hit_in(data@, start, end, p) && c2(p) == i)
                    &&& forall|i: int| #[trigger] final(self).lvl3(i) == (old(self).lvl3(i) || exists|p: int|
                        old(self).hit_in(data@, start, end, p) && c3(p) == i)
                }
            }),
    {
        let start = self.scanned;
        let end = if start + SCAN_CHUNK < self.file_size {
            start + SCAN_CHUNK
        } else {
            self.file_size
        };
        if start + self.needle_len > self.file_size {
            self.scanned = self.file_size;
            return 0;
        }
        let ghost old_self = *self;
        let mut found: usize = 0;
        let mut pos = start;
        while pos + self.needle_len <= end
            invariant
                self.wf(),
                self.same_setup(&old_self),
                self.scanned == start,
                self.cached_page == old_self.cached_page,
                self.cached_mb == old_self.cached_mb,
                start == old_self.scanned,
                start <= pos,
                start <= end <= self.file_size,
                start + self.needle_len <= self.file_size,
                end - start <= SCAN_CHUNK,
                pos <= end + 1,
                self.needle_len >= 1 ==> pos <= end,
                found == old_self.hits_count(data@, start as int, end as int, pos as int),
                found <= pos - start,
                self.count == old_self.count + found,
                old_self.count_room(),
                forall|i: int| #[trigger] self.lvl0(i) == (old_self.lvl0(i) || exists|p: int|
                    p < pos && old_self.hit_in(data@, start as int, end as int, p) && c0(p) == i),
                forall|i: int| #[trigger] self.lvl1(i) == (old_self.lvl1(i) || exists|p: int|
                    p < pos && old_self.hit_in(data@, start as int, end as int, p) && c1(p) == i),
                forall|i: int| #[trigger] self.lvl2(i) == (old_self.lvl2(i) || exists|p: int|
                    p < pos && old_self.hit_in(data@, start as int, end as int, p) && c2(p) == i),
                forall|i: int| #[trigger] self.lvl3(i) == (old_self.lvl3(i) || exists|p: int|
                    p < pos && old_self.hit_in(data@, start as int, end as int, p) && c3(p) == i),
            decreases end + 1 - pos,
        {
            let ghost before = *self;
            let hit = self.matches_at(data, pos);
            if hit {
                self.mark(pos);
                found += 1;
            }
            proof {
                assert(old_self.match_at(data@, pos as int) == hit);
                assert forall|i: int| #[trigger] self.lvl0(i) == (old_self.lvl0(i) || exists|p: int|
                    p < pos + 1 && old_self.hit_in(data@, start as int, end as int, p) && c0(p) == i) by {
                    if hit && i == c0(pos as int) {
                        assert(old_self.hit_in(data@, start as int, end as int, pos as int));
                    }
                }
                assert forall|i: int| #[trigger] self.lvl1(i) == (old_self.lvl1(i) || exists|p: int|
                    p < pos + 1 && old_self.hit_in(data@, start as int, end as int, p) && c1(p) == i) by {
                    if hit && i == c1(pos as int) {
                        assert(old_self.hit_in(data@, start as int, end as int, pos as int));
                    }
                }
                assert forall|i: int| #[trigger] self.lvl2(i) == (old_self.lvl2(i) || exists|p: int|
                    p < pos + 1 && old_self.hit_in(data@, start as int, end as int, p) && c2(p) == i) by {
                    if hit && i == c2(pos as int) {
                        assert(old_self.hit_in(data@, start as int, end as int, pos as int));
                    }
                }
                assert forall|i: int| #[trigger] self.lvl3(i) == (old_self.lvl3(i) || exists|p: int|
                    p < pos + 1 && old_self.hit_in(data@, start as int, end as int, p) && c3(p) == i) by {
                    if hit && i == c3(pos as int) {
                        assert(old_self.hit_in(data@, start as int, end as int, pos as int));
                    }
                }
            }
            pos += 1;
        }
        proof {
            assert forall|i: int| #[trigger] self.lvl0(i) == (old_self.lvl0(i) || exists|p: int|
                old_self.hit_in(data@, start as int, end as int, p) && c0(p) == i) by {
                if exists|p: int| old_self.hit_in(data@, start as int, end as int, p) && c0(p) == i {
                    let p = choose|p: int| old_self.hit_in(data@, start as int, end as int, p) && c0(p) == i;
                    assert(p < pos);
                }
            }
            assert forall|i: int| #[trigger] self.lvl1(i) == (old_self.lvl1(i) || exists|p: int|
                old_self.hit_in(data@, start as int, end as int, p) && c1(p) == i) by {
                if exists|p: int| old_self.hit_in(data@, start as int, end as int, p) && c1(p) == i {
                    let p = choose|p: int| old_self.hit_in(data@, start as int, end as int, p) && c1(p) == i;
                    assert(p < pos);
                }
            }
            assert forall|i: int| #[trigger] self.lvl2(i) == (old_self.lvl2(i) || exists|p: int|
                old_self.hit_in(data@, start as int, end as int, p) && c2(p) == i) by {
                if exists|p: int| old_self.hit_in(data@, start as int, end as int, p) && c2(p) == i {
                    let p = choose|p: int| old_self.hit_in(data@, start as int, end as int, p) && c2(p) == i;
                    assert(p < pos);
                }
            }
            assert forall|i: int| #[trigger] self.lvl3(i) == (old_self.lvl3(i) || exists|p: int|
                old_self.hit_in(data@, start as int, end as int, p) && c3(p) == i) by {
                if exists|p: int| old_self.hit_in(data@, start as int, end as int, p) && c3(p) == i {
                    let p = choose|p: int| old_self.hit_in(data@, start as int, end as int, p) && c3(p) == i;
                    assert(p < pos);
                }
            }
            assert(found == old_self.hits_count(data@, start as int, end as int, end + 1)) by {
                lemma_hits_count_flat(old_self, data@, start as int, end as int, pos as int, end + 1);
            }
        }
        let ghost pre = *self;
        self.scanned = end;
        proof {
            assert forall|i: int| #[trigger] self.lvl0(i) == (old_self.lvl0(i) || exists|p: int|
                old_self.hit_in(data@, start as int, end as int, p) && c0(p) == i) by {
                assert(self.lvl0(i) == pre.lvl0(i));
            }
            assert forall|i: int| #[trigger] self.lvl1(i) == (old_self.lvl1(i) || exists|p: int|
                old_self.hit_in(data@, start as int, end as int, p) && c1(p) == i) by {
                assert(self.lvl1(i) == pre.lvl1(i));
            }
            assert forall|i: int| #[trigger] self.lvl2(i) == (old_self.lvl2(i) || exists|p: int|
                old_self.hit_in(data@, start as int, end as int, p) && c2(p) == i) by {
                assert(self.lvl2(i) == pre.lvl2(i));
            }
            assert forall|i: int| #[trigger] self.lvl3(i) == (old_self.lvl3(i) || exists|p: int|
                old_self.hit_in(data@, start as int, end as int, p) && c3(p) == i) by {
                assert(self.lvl3(i) == pre.lvl3(i));
            }
        }
        found
    }
}

impl BitSearch {
    /// A match of the needle (which compares at least one byte) starts at
    /// `p` and ends within the file.
    pub open spec fn hit(&self, data: Seq<u8>, p: int) -> bool {
        self.nlen() >= 1 && 0 <= p && p + self.nlen() <= self.fsize() && self.match_at(data, p)
    }

    /// Two indexes over the same needle and file find the same matches.
    pub proof fn lemma_same_setup_hits(&self, other: &Self, data: Seq<u8>)
        requires
            self.same_setup(other),
        ensures
            forall|p: int| #[trigger] self.hit(data, p) == other.hit(data, p),
    {
    }

    /// `r` is the first match at or after `probe`: the least offset from
    /// `probe` on where a match starts, `None` when there is none.
    pub open spec fn is_next(&self, data: Seq<u8>, probe: int, r: Option<usize>) -> bool {
        match r {
            Some(p) => probe <= p && self.hit(data, p as int) && forall|q: int|
                probe <= q < p ==> !#[trigger] self.hit(data, q),
            None => forall|q: int| probe <= q ==> !#[trigger] self.hit(data, q),
        }
    }

    /// `r` is the last match before `from`: the greatest offset below `from`
    /// where a match starts, `None` when there is none.
    pub open spec fn is_prev(&self, data: Seq<u8>, from: int, r: Option<usize>) -> bool {
        match r {
            Some(p) => p < from && self.hit(data, p as int) && forall|q: int|
                p < q < from ==> !#[trigger] self.hit(data, q),
            None => forall|q: int| q < from ==> !#[trigger] self.hit(data, q),
        }
    }

    /// Scans chunks until the scanned part reaches `upto` or the end of the
    /// file.
    fn scan_upto(&mut self, data: &[u8], upto: usize)
        requires
            old(self).wf(),
            old(self).count_room(),
            old(self).nlen() >= 1,
        ensures
            final(self).wf(),
            final(self).count_room(),
            final(self).same_setup(old(self)),
            final(self).scanned_to() >= old(self).scanned_to(),
            final(self).scanned_to() >= upto || final(self).scanned_to() == final(self).fsize(),
    {
        while self.scanned < upto && self.scanned < self.file_size
            invariant
                self.wf(),
                self.count_room(),
                self.same_setup(old(self)),
                self.nlen() >= 1,
                self.scanned_to() >= old(self).scanned_to(),
            decreases self.fsize() - self.scanned_to(),
        {
            self.scan_chunk(data);
        }
    }

    /// The next match after `from` (from offset 0 on when `from` is
    /// `usize::MAX`): the least offset after `from` where a match starts
    /// that ends within the file, found by comparing the bytes from there on;
    /// `None` when there is none (always for an empty needle). The scan that
    /// marks and counts matches is then carried on to the end of the match
    /// found, or to the end of the file when there is none.
    pub fn next_match_after(&mut self, data: &[u8], from: usize) -> (r: Option<usize>)
        requires
            old(self).wf(),
            old(self).count_room(),
        ensures
            final(self).wf(),
            final(self).count_room(),
            final(self).same_setup(old(self)),
            final(self).scanned_to() >= old(self).scanned_to(),
            old(self).is_next(data@, probe_of(from), r),
            r is None && old(self).nlen() >= 1 ==> final(self).scanned_to() == old(self).fsize(),
    {
        if self.needle_len == 0 {
            return None;
        }
        let ghost s0 = *self;
        let probe: usize = if from == usize::MAX {
            0
        } else {
            from + 1
        };
        let mut p = probe;
        while p < self.file_size && self.needle_len <= self.file_size - p
            invariant
                *self == s0,
                s0 == *old(self),
                s0.wf(),
                s0.count_room(),
                s0.nlen() >= 1,
                probe == probe_of(from),
                probe <= p,
                forall|q: int| probe <= q < p ==> !#[trigger] s0.hit(data@, q),
            decreases self.file_size - p,
        {
            if self.matches_at(data, p) {
                self.scan_upto(data, p + self.needle_len);
                return Some(p);
            }
            p += 1;
        }
        self.scan_upto(data, self.file_size);
        None
    }

    /// The match before `from`: the greatest offset below `from` where a
    /// match starts that ends within the file, found by comparing the bytes
    /// backwards from there; `None` when there is none (always for an empty
    /// needle). The index is left as it is.
    pub fn prev_match_before(&self, data: &[u8], from: usize) -> (r: Option<usize>)
        requires
            self.wf(),
        ensures
            self.is_prev(data@, from as int, r),
    {
        if self.needle_len == 0 || self.needle_len > self.file_size {
            return None;
        }
        let last = self.file_size - self.needle_len;
        let mut p: usize = if from <= last {
            from
        } else {
            last + 1
        };
        while p > 0
            invariant
                self.wf(),
                self.nlen() >= 1,
                last == self.fsize() - self.nlen(),
                p <= last + 1,
                p <= from || last < from,
                forall|q: int| p <= q < from ==> !#[trigger] self.hit(data@, q),
            decreases p,
        {
            p -= 1;
            if self.matches_at(data, p) {
                return Some(p);
            }
        }
        None
    }
}

/// Where a search after `from` starts: the next offset, or 0 when `from` is
/// `usize::MAX` (no position yet).
pub open spec fn probe_of(from: usize) -> int {
    if from == usize::MAX {
        0
    } else {
        from + 1
    }
}


impl BitSearch {
    /// The ranges of the matches in the pack `pack_start .. pack_start +
    /// pack_size`, for highlighting: one `(start, start + needle length)` per
    /// match that starts in the pack and ends within the pack, the file and
    /// the scanned part, in increasing order of start.
    pub fn pack_matches(&mut self, data: &[u8], pack_start: usize, pack_size: usize) -> (out: Vec<
        (usize, usize),
    >)
        requires
            old(self).wf(),
            pack_start + pack_size <= usize::MAX,
        ensures
            *final(self) == *old(self),
            forall|k: int| 0 <= k < out@.len() ==> #[trigger] out@[k].1 == out@[k].0 + old(self).nlen(),
            forall|a: int, b: int| 0 <= a < b < out@.len() ==> out@[a].0 < out@[b].0,
            forall|p: int|
                (exists|k: int| 0 <= k < out@.len() && #[trigger] out@[k].0 == p) <==> #[trigger] old(
                    self,
                ).hit_in(data@, pack_start as int, old(self).seen_end(pack_start + pack_size), p),
    {
        let mut ranges: Vec<(usize, usize)> = Vec::new();
        let pack_end = if pack_start + pack_size < self.file_size {
            pack_start + pack_size
        } else {
            self.file_size
        };
        let scan_end = if pack_end < self.scanned {
            pack_end
        } else {
            self.scanned
        };
        let ghost hi = self.seen_end(pack_start + pack_size);
        assert(scan_end == hi);
        let mut pos = pack_start;
        while pos <= scan_end && self.needle_len <= scan_end - pos
            invariant
                self.wf(),
                *self == *old(self),
                scan_end == hi,
                scan_end <= self.file_size,
                pack_start <= pos,
                pos <= scan_end + 1 || pos == pack_start,
                forall|k: int| 0 <= k < ranges@.len() ==> #[trigger] ranges@[k].1 == ranges@[k].0 + self.nlen(),
                forall|a: int, b: int| 0 <= a < b < ranges@.len() ==> ranges@[a].0 < ranges@[b].0,
                forall|k: int| 0 <= k < ranges@.len() ==> #[trigger] ranges@[k].0 < pos,
                forall|p: int|
                    (exists|k: int| 0 <= k < ranges@.len() && #[trigger] ranges@[k].0 == p) <==> (p
                        < pos && #[trigger] self.hit_in(data@, pack_start as int, hi, p)),
            decreases scan_end + 1 - pos,
        {
            let hit = self.matches_at(data, pos);
            let ghost before = ranges@;
            if hit {
                ranges.push((pos, pos + self.needle_len));
            }
            proof {
                assert forall|p: int|
                    (exists|k: int| 0 <= k < ranges@.len() && #[trigger] ranges@[k].0 == p) <==> (p
                        < pos + 1 && #[trigger] self.hit_in(data@, pack_start as int, hi, p)) by {
                    if exists|k: int| 0 <= k < ranges@.len() && #[trigger] ranges@[k].0 == p {
                        let k = choose|k: int| 0 <= k < ranges@.len() && #[trigger] ranges@[k].0 == p;
                        if k < before.len() {
                            assert(before[k].0 == p);
                        }
                    }
                    if p < pos + 1 && self.hit_in(data@, pack_start as int, hi, p) {
                        if p < pos {
                            let k = choose|k: int| 0 <= k < before.len() && #[trigger] before[k].0 == p;
                            assert(ranges@[k].0 == p);
                        } else {
                            assert(ranges@[before.len() as int].0 == p);
                        }
                    }
                }
            }
            pos += 1;
        }
        proof {
            assert forall|p: int| self.hit_in(data@, pack_start as int, hi, p) implies p < pos by {
            }
        }
        ranges
    }
}

proof fn lemma_hits_count_flat(s: BitSearch, data: Seq<u8>, lo: int, hi: int, a: int, b: int)
    requires
        lo <= a <= b,
        a + s.nlen() > hi,
    ensures
        s.hits_count(data, lo, hi, b) == s.hits_count(data, lo, hi, a),
    decreases b - a,
{
    if b > a {
        lemma_hits_count_flat(s, data, lo, hi, a, b - 1);
    }
}

} // verus!

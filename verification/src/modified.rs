//! Sparse hierarchical bitmap of edited offsets.
//!
//! The offset space is split 1 GiB → 1 MiB → 4 KiB → byte. Level 3 is a
//! fixed bitmap of the 1 GiB blocks holding an edit; the lower levels are
//! allocated per block on demand, so memory grows with the edits, not with
//! the file.
use std::collections::HashMap;
use vstd::prelude::*;
use crate::bitmap::{bit_at, lemma_clear_map, set_bit};

verus! {

broadcast use vstd::std_specs::hash::group_hash_axioms;

/// Offsets below this (1 TiB) can be recorded.
pub const OFFSET_LIMIT: u64 = 1099511627776;

/// Edited offsets, tracked level by level.
pub struct ModifiedMap {
    l3: [u8; 128],
    l2: HashMap<usize, [u8; 128]>,
    l1: HashMap<usize, [u8; 32]>,
    l0: HashMap<usize, [u8; 512]>,
}

/// Whether `key` is present in `m` and bit `i` of its bitmap is set.
pub open spec fn sub_bit<const N: usize>(m: Map<usize, [u8; N]>, key: int, i: int) -> bool {
    0 <= key <= usize::MAX && m.contains_key(key as usize) && bit_at(m[key as usize]@, i)
}

/// Sets bit `bit` of the bitmap under `key`, starting from `zero` when `key`
/// has none yet.
fn set_sub_bit<const N: usize>(
    m: &mut HashMap<usize, [u8; N]>,
    key: usize,
    bit: usize,
    zero: [u8; N],
)
    requires
        bit < 8 * N,
        forall|i: int| !#[trigger] bit_at(zero@, i),
    ensures
        final(m)@.contains_key(key),
        forall|k: int, i: int|
            #[trigger] sub_bit(final(m)@, k, i) == ((k == key && i == bit) || sub_bit(old(m)@, k, i)),
{
    let mut arr: [u8; N] = match m.get(&key) {
        Some(a) => *a,
        None => zero,
    };
    let ghost before = arr;
    set_bit(&mut arr, bit);
    m.insert(key, arr);
    proof {
        assert forall|k: int, i: int|
            #[trigger] sub_bit(m@, k, i) == ((k == key && i == bit) || sub_bit(old(m)@, k, i)) by {
            if k == key {
                assert(bit_at(arr@, i) == (i == bit || bit_at(before@, i)));
            }
        }
    }
}

/// Clears bit `bit` of the bitmap under `key`; when that leaves the bitmap
/// without any bit, `key` is dropped and `true` comes back. A `key` without a
/// bitmap is left alone.
fn clear_sub_bit<const N: usize>(m: &mut HashMap<usize, [u8; N]>, key: usize, bit: usize) -> (emptied: bool)
    requires
        bit < 8 * N,
    ensures
        forall|k: int, i: int|
            #[trigger] sub_bit(final(m)@, k, i) == (!(k == key && i == bit) && sub_bit(old(m)@, k, i)),
        emptied ==> forall|i: int| !#[trigger] sub_bit(final(m)@, key as int, i),
        emptied ==> old(m)@.contains_key(key),
{
    let mut arr: [u8; N] = match m.get(&key) {
        Some(a) => *a,
        None => {
            return false;
        },
    };
    let ghost before = arr;
    clear_bit(&mut arr, bit);
    if all_zero(&arr) {
        m.remove(&key);
        proof {
            assert forall|k: int, i: int|
                #[trigger] sub_bit(m@, k, i) == (!(k == key && i == bit) && sub_bit(old(m)@, k, i)) by {
                if k == key {
                    assert(bit_at(arr@, i) == (i != bit && bit_at(before@, i)));
                }
            }
        }
        true
    } else {
        m.insert(key, arr);
        proof {
            assert forall|k: int, i: int|
                #[trigger] sub_bit(m@, k, i) == (!(k == key && i == bit) && sub_bit(old(m)@, k, i)) by {
                if k == key {
                    assert(bit_at(arr@, i) == (i != bit && bit_at(before@, i)));
                }
            }
        }
        false
    }
}

/// Clears bit `bit` of the bitmap.
fn clear_bit<const N: usize>(bm: &mut [u8; N], bit: usize)
    requires
        bit < 8 * N,
    ensures
        forall|i: int| #[trigger] bit_at(final(bm)@, i) == (i != bit && bit_at(old(bm)@, i)),
{
    let k = (bit % 8) as u8;
    let idx = bit / 8;
    let old_b = bm[idx];
    bm[idx] = old_b & !(1u8 << k);
    proof {
        assert forall|i: int| #[trigger] bit_at(bm@, i) == (i != bit && bit_at(old(bm)@, i)) by {
            if 0 <= i < 8 * N {
                if i / 8 == idx as int {
                    let j = (i % 8) as u8;
                    assert(k < 8 && j < 8 ==> (((old_b & !(1u8 << k)) >> j) & 1u8 == 1u8 <==> (j != k
                        && (old_b >> j) & 1u8 == 1u8))) by (bit_vector);
                } else {
                    assert(bm@[i / 8] == old(bm)@[i / 8]);
                }
            }
        }
    }
}

/// Whether no bit of the bitmap is set.
fn all_zero<const N: usize>(bm: &[u8; N]) -> (r: bool)
    ensures
        r == forall|i: int| !#[trigger] bit_at(bm@, i),
{
    let mut k: usize = 0;
    while k < N
        invariant
            k <= N,
            bm@.len() == N,
            forall|j: int| 0 <= j < k ==> bm@[j] == 0,
        decreases N - k,
    {
        if bm[k] != 0 {
            proof {
                let b = bm@[k as int];
                assert(b != 0 ==> exists|j: u8| j < 8 && (b >> j) & 1u8 == 1u8) by {
                    assert(b != 0 ==> ((b >> 0u8) & 1u8 == 1u8 || (b >> 1u8) & 1u8 == 1u8 || (b >> 2u8) & 1u8
                        == 1u8 || (b >> 3u8) & 1u8 == 1u8 || (b >> 4u8) & 1u8 == 1u8 || (b >> 5u8) & 1u8
                        == 1u8 || (b >> 6u8) & 1u8 == 1u8 || (b >> 7u8) & 1u8 == 1u8)) by (bit_vector);
                }
                let j = choose|j: u8| j < 8 && (b >> j) & 1u8 == 1u8;
                assert(bit_at(bm@, 8 * k + j));
            }
            return false;
        }
        k += 1;
    }
    proof {
        lemma_clear_map(bm@);
    }
    true
}

impl ModifiedMap {
    /// Offset `o` is recorded: the byte level holds its bit.
    pub closed spec fn has(&self, o: int) -> bool {
        sub_bit(self.l0@, o / 4096, o % 4096)
    }

    /// Every recorded offset below the limit also has its bits in the upper
    /// levels, under the keys its blocks give.
    pub closed spec fn wf(&self) -> bool {
        forall|o: int|
            0 <= o < OFFSET_LIMIT && #[trigger] self.has(o) ==> {
                &&& bit_at(self.l3@, o / 1073741824)
                &&& sub_bit(self.l2@, o / 1073741824, (o / 1048576) % 1024)
                &&& sub_bit(self.l1@, o / 1048576, (o / 4096) % 256)
            }
    }

    /// An empty map: no offset recorded.
    pub fn new() -> (r: Self)
        ensures
            r.wf(),
            forall|o: int| !#[trigger] r.has(o),
    {
        let r = ModifiedMap { l3: [0;128], l2: HashMap::new(), l1: HashMap::new(), l0: HashMap::new() };
        r
    }

    /// Records `offset` as edited, allocating the lower-level bitmaps of its
    /// blocks when they have none yet. Exactly `offset` is added.
    pub fn mark(&mut self, offset: usize)
        requires
            old(self).wf(),
            offset < OFFSET_LIMIT,
        ensures
            final(self).wf(),
            forall|o: int| #[trigger] final(self).has(o) == (o == offset || old(self).has(o)),
    {
        let l3_idx = offset / 1073741824;
        let l2_idx = (offset / 1048576) % 1024;
        let l1_idx = (offset / 4096) % 256;
        let l0_idx = offset % 4096;
        let ghost old_self = *self;
        let z2: [u8; 128] = [0;128];
        let z1: [u8; 32] = [0;32];
        let z0: [u8; 512] = [0;512];
        proof {
            lemma_clear_map(z2@);
            lemma_clear_map(z1@);
            lemma_clear_map(z0@);
            assert(l3_idx < 1024) by (nonlinear_arith)
                requires
                    l3_idx == offset / 1073741824,
                    offset < 1099511627776,
            ;
        }
        set_bit(&mut self.l3, l3_idx);
        set_sub_bit(&mut self.l2, l3_idx, l2_idx, z2);
        let l1_key = offset / 1048576;
        set_sub_bit(&mut self.l1, l1_key, l1_idx, z1);
        let l0_key = offset / 4096;
        set_sub_bit(&mut self.l0, l0_key, l0_idx, z0);
        proof {
            assert forall|o: int| #[trigger] self.has(o) == (o == offset || old_self.has(o)) by {
                if o / 4096 == l0_key as int && o % 4096 == l0_idx as int {
                    assert(o == offset) by (nonlinear_arith)
                        requires
                            o / 4096 == offset as int / 4096,
                            o % 4096 == offset as int % 4096,
                    {
                    }
                }
            }
            assert forall|o: int|
                0 <= o < OFFSET_LIMIT && #[trigger] self.has(o) implies {
                &&& bit_at(self.l3@, o / 1073741824)
                &&& sub_bit(self.l2@, o / 1073741824, (o / 1048576) % 1024)
                &&& sub_bit(self.l1@, o / 1048576, (o / 4096) % 256)
            } by {
                if o != offset {
                    assert(old_self.has(o));
                }
            }
        }
    }

    /// Clears the record of `offset`; a bitmap left without any bit is
    /// dropped and the bit standing for it one level up is cleared in turn.
    /// Exactly `offset` is removed.
    #[verifier::rlimit(40)]
    pub fn unmark(&mut self, offset: usize)
        requires
            old(self).wf(),
            offset < OFFSET_LIMIT,
        ensures
            final(self).wf(),
            forall|o: int| #[trigger] final(self).has(o) == (o != offset && old(self).has(o)),
    {
        let l3_idx = offset / 1073741824;
        let l2_idx = (offset / 1048576) % 1024;
        let l1_idx = (offset / 4096) % 256;
        let l0_idx = offset % 4096;
        let l1_key = offset / 1048576;
        let l0_key = offset / 4096;
        let ghost old_self = *self;
        proof {
            assert(l3_idx < 1024) by (nonlinear_arith)
                requires
                    l3_idx == offset / 1073741824,
                    offset < 1099511627776,
            ;
            assert forall|o: int| #[trigger] old_self.has(o) && o != offset implies !(o / 4096
                == l0_key && o % 4096 == l0_idx) by {
                if o >= 0 && o / 4096 == l0_key && o % 4096 == l0_idx {
                    lemma_same_page(o, offset as int);
                }
            }
        }
        let e0 = clear_sub_bit(&mut self.l0, l0_key, l0_idx);
        proof {
            assert forall|o: int| #[trigger] self.has(o) == (o != offset && old_self.has(o)) by {
            }
        }
        if !e0 {
            return;
        }
        let ghost s0 = *self;
        let e1 = clear_sub_bit(&mut self.l1, l1_key, l1_idx);
        proof {
            assert forall|o: int|
                0 <= o < OFFSET_LIMIT && #[trigger] self.has(o) implies sub_bit(
                self.l1@,
                o / 1048576,
                (o / 4096) % 256,
            ) by {
                assert(s0.has(o));
                assert(old_self.has(o));
                lemma_page_key(o);
                lemma_page_key(offset as int);
                if o / 1048576 == l1_key && (o / 4096) % 256 == l1_idx {
                    assert(o / 4096 == l0_key);
                }
            }
        }
        proof {
            assert forall|o: int| #[trigger] self.has(o) == (o != offset && old_self.has(o)) by {
                assert(s0.has(o) == (o != offset && old_self.has(o)));
            }
        }
        if !e1 {
            return;
        }
        let ghost s1 = *self;
        let e2 = clear_sub_bit(&mut self.l2, l3_idx, l2_idx);
        proof {
            assert forall|o: int|
                0 <= o < OFFSET_LIMIT && #[trigger] self.has(o) implies sub_bit(
                self.l2@,
                o / 1073741824,
                (o / 1048576) % 1024,
            ) by {
                assert(s1.has(o));
                assert(old_self.has(o));
                lemma_block_key(o);
                lemma_block_key(offset as int);
                if o / 1073741824 == l3_idx && (o / 1048576) % 1024 == l2_idx {
                    assert(o / 1048576 == l1_key);
                    assert(sub_bit(s1.l1@, o / 1048576, (o / 4096) % 256));
                }
            }
        }
        proof {
            assert forall|o: int| #[trigger] self.has(o) == (o != offset && old_self.has(o)) by {
                assert(s0.has(o) == (o != offset && old_self.has(o)));
            }
        }
        if !e2 {
            return;
        }
        let ghost s2 = *self;
        clear_bit(&mut self.l3, l3_idx);
        proof {
            assert forall|o: int|
                0 <= o < OFFSET_LIMIT && #[trigger] self.has(o) implies bit_at(self.l3@, o / 1073741824) by {
                assert(s2.has(o));
                assert(old_self.has(o));
                if o / 1073741824 == l3_idx {
                    assert(sub_bit(s2.l2@, o / 1073741824, (o / 1048576) % 1024));
                }
            }
            assert forall|o: int| #[trigger] self.has(o) == (o != offset && old_self.has(o)) by {
                assert(s0.has(o) == (o != offset && old_self.has(o)));
            }
        }
    }

    /// Whether `offset` was recorded, walking the levels down and stopping at
    /// the first one without its bit.
    pub fn is_modified(&self, offset: usize) -> (r: bool)
        requires
            self.wf(),
            offset < OFFSET_LIMIT,
        ensures
            r == self.has(offset as int),
    {
        let l3_idx = offset / 1073741824;
        let l2_idx = (offset / 1048576) % 1024;
        let l1_idx = (offset / 4096) % 256;
        let l0_idx = offset % 4096;
        proof {
            assert(l3_idx < 1024) by (nonlinear_arith)
                requires
                    l3_idx == offset / 1073741824,
                    offset < 1099511627776,
            ;
            assert(self.has(offset as int) ==> bit_at(self.l3@, l3_idx as int));
        }
        if self.l3[l3_idx / 8] & (1u8 << ((l3_idx % 8) as u8)) == 0 {
            proof {
                lemma_probe_bit(self.l3@, l3_idx);
            }
            return false;
        }
        let l2 = match self.l2.get(&l3_idx) {
            Some(b) => b,
            None => {
                return false;
            },
        };
        if l2[l2_idx / 8] & (1u8 << ((l2_idx % 8) as u8)) == 0 {
            proof {
                lemma_probe_bit(l2@, l2_idx);
            }
            return false;
        }
        let l1_key = offset / 1048576;
        let l1 = match self.l1.get(&l1_key) {
            Some(b) => b,
            None => {
                return false;
            },
        };
        if l1[l1_idx / 8] & (1u8 << ((l1_idx % 8) as u8)) == 0 {
            proof {
                lemma_probe_bit(l1@, l1_idx);
            }
            return false;
        }
        let l0_key = offset / 4096;
        let l0 = match self.l0.get(&l0_key) {
            Some(b) => b,
            None => {
                return false;
            },
        };
        proof {
            lemma_probe_bit(l0@, l0_idx);
        }
        l0[l0_idx / 8] & (1u8 << ((l0_idx % 8) as u8)) != 0
    }
}

/// Two offsets with the same page and the same place in it are equal.
proof fn lemma_same_page(a: int, b: int)
    requires
        0 <= a,
        0 <= b,
        a / 4096 == b / 4096,
        a % 4096 == b % 4096,
    ensures
        a == b,
{
    assert(a == b) by (nonlinear_arith)
        requires
            a / 4096 == b / 4096,
            a % 4096 == b % 4096,
    {
    }
}

/// The page of an offset, from its 1 MiB block and its page in that block.
proof fn lemma_page_key(o: int)
    requires
        0 <= o,
    ensures
        o / 4096 == 256 * (o / 1048576) + (o / 4096) % 256,
{
    vstd::arithmetic::div_mod::lemma_div_denominator(o, 4096, 256);
    vstd::arithmetic::div_mod::lemma_fundamental_div_mod(o / 4096, 256);
}

/// The 1 MiB block of an offset, from its 1 GiB block and its 1 MiB block in that.
proof fn lemma_block_key(o: int)
    requires
        0 <= o,
    ensures
        o / 1048576 == 1024 * (o / 1073741824) + (o / 1048576) % 1024,
{
    vstd::arithmetic::div_mod::lemma_div_denominator(o, 1048576, 1024);
    vstd::arithmetic::div_mod::lemma_fundamental_div_mod(o / 1048576, 1024);
}

/// Testing bit `i` of a bitmap with a one-bit mask.
proof fn lemma_probe_bit(bm: Seq<u8>, i: usize)
    requires
        i < 8 * bm.len(),
    ensures
        (bm[(i / 8) as int] & (1u8 << ((i % 8) as u8)) != 0) == bit_at(bm, i as int),
{
    let b = bm[(i / 8) as int];
    let k = (i % 8) as u8;
    assert(k < 8 ==> ((b & (1u8 << k) != 0) == ((b >> k) & 1u8 == 1u8))) by (bit_vector);
}

} // verus!

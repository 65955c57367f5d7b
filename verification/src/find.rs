//! Starting a search over the viewer's file.
use vstd::prelude::*;
use crate::app::{lemma_jumped_fields, lemma_search_step_fields, lemma_wf_parts, App};
use crate::bitmap::{needle_span, probe_of, BitSearch, GB_SIZE, SCAN_CHUNK};
use crate::search::Needle;

verus! {

/// Chunks scanned when a search starts, before looking for the first match.
pub const FIRST_CHUNKS: usize = 4;

impl App {
    /// Installs the search index `bs` for a needle of `len` bytes and marks
    /// the search active.
    fn set_search(&mut self, bs: BitSearch, len: usize)
        requires
            old(self).wf(),
            bs.wf(),
            bs.count_room(),
            bs.fsize() == old(self).file_size,
        ensures
            final(self).wf(),
            *final(self) == (App {
                search: Some(bs),
                search_active: true,
                search_len: len,
                ..*old(self)
            }),
    {
        self.search = Some(bs);
        self.search_active = true;
        self.search_len = len;
        assert(self.wf()) by {
            reveal(App::wf);
        }
    }

    /// Starts searching for `needle` (which compares `needle_len` bytes):
    /// a fresh index is made, the first chunks of the file are scanned, the
    /// search becomes active, and the first match from the cursor on (the
    /// least offset at or after the cursor where a match starts), if there is
    /// one, becomes current and is shown. Always `true`.
    pub fn apply_search(
        &mut self,
        needle: Needle,
        needle_len: usize,
        label: String,
        data: &[u8],
        h: u16,
    ) -> (r: bool)
        requires
            old(self).wf(),
            needle_span(needle) <= needle_len,
            old(self).file_size as int + needle_len as int + 3 * GB_SIZE as int <= usize::MAX,
        ensures
            r,
            final(self).wf(),
            final(self).search_active,
            final(self).search_len == needle_len,
            final(self).search matches Some(s) && s.pattern() == needle && s.nlen() == needle_len
                && s.tag() == label && s.fsize() == old(self).file_size,
            final(self).search->0.is_next(data@, old(self).cursor_byte as int, None) ==> final(self).current_match
                == old(self).current_match && final(self).cursor_byte == old(self).cursor_byte,
            !final(self).search->0.is_next(data@, old(self).cursor_byte as int, None) ==> ({
                let pos = final(self).current_match->0;
                &&& final(self).current_match == Some(pos)
                &&& final(self).search->0.is_next(data@, old(self).cursor_byte as int, Some(pos))
                &&& final(self).cursor_byte == pos
                &&& final(self).current_pack == pos / 4096
                &&& final(self).scroll_top == App::jump_top(pos, h)
            }),
            final(self).overlay == old(self).overlay,
            final(self).undo_stack == old(self).undo_stack,
            final(self).redo_stack == old(self).redo_stack,
            final(self).original_values == old(self).original_values,
            final(self).modified == old(self).modified,
            final(self).file_size == old(self).file_size,
            final(self).mode == old(self).mode,
    {
        proof {
            lemma_wf_parts(*self);
        }
        let mut bs = BitSearch::new(needle, needle_len, label, self.file_size);
        let mut k: usize = 0;
        while k < FIRST_CHUNKS
            invariant
                bs.wf(),
                bs.count_room(),
                bs.pattern() == needle,
                bs.nlen() == needle_len,
                bs.tag() == label,
                bs.fsize() == self.file_size,
                k <= FIRST_CHUNKS,
                bs.found() <= k * (SCAN_CHUNK + 1),
            decreases FIRST_CHUNKS - k,
        {
            let ghost before = bs.found();
            bs.scan_chunk(data);
            assert((k + 1) * (SCAN_CHUNK + 1) == k * (SCAN_CHUNK + 1) + SCAN_CHUNK + 1) by (nonlinear_arith);
            assert(k * (SCAN_CHUNK + 1) <= 3 * (SCAN_CHUNK + 1)) by (nonlinear_arith)
                requires
                    k < 4,
            ;
            k += 1;
        }
        self.set_search(bs, needle_len);
        let ghost s1 = *self;
        let from = self.cursor_byte.wrapping_sub(1);
        let found = self.step_next(data, from);
        let ghost s2 = *self;
        proof {
            lemma_search_step_fields(s2, s1);
            s2.search->0.lemma_same_setup_hits(&s1.search->0, data@);
            assert(probe_of(from) == old(self).cursor_byte as int);
        }
        match found {
            Some(pos) => {
                self.jump_to_match(pos, h);
                proof {
                    lemma_jumped_fields(*self, s2, pos, h);
                    assert(s1.search->0.hit(data@, pos as int));
                    assert(self.search->0.hit(data@, pos as int));
                    assert(!self.search->0.is_next(data@, old(self).cursor_byte as int, None));
                }
            },
            None => {},
        }
        true
    }
}

} // verus!

//! The prompts of the viewer: going to a pack or an offset typed in hex, and
//! starting a search from the typed text.
use vstd::prelude::*;
use crate::app::{lemma_wf_parts, lemma_wf_same_records, App, InputMode};
use vstd::string::StringExecFns;
use crate::bitmap::GB_SIZE;
use crate::keys::sat_sub;
use crate::render::{hex_digits_of, hex_number, lemma_hex_number_nonneg, parse_hex_input, without_0x};
use crate::search::{parse_input, parse_str_input, Needle, SearchKind};
use crate::text::trim_spec;

verus! {

/// The offset typed in `buf`, as `parse_hex_input` reads it.
pub open spec fn typed_offset(buf: Seq<char>) -> Option<int> {
    let d = hex_digits_of(without_0x(trim_spec(buf)));
    if d.len() == 0 || hex_number(d) > usize::MAX {
        None
    } else {
        Some(hex_number(d))
    }
}

fn close_fields(mode: &mut InputMode, buf: &mut String)
    ensures
        *final(mode) == InputMode::Normal,
        final(buf)@.len() == 0,
{
    *mode = InputMode::Normal;
    *buf = String::new();
}

impl App {
    /// `new` is `old` with the cursor on byte `b` and focused.
    #[verifier::opaque]
    pub open spec fn focused_on(new: App, old: App, b: usize) -> bool {
        new == (App { cursor_byte: b, cursor_focused: true, ..old })
    }

    /// `new` is `old` showing the row of offset `off` at the top.
    #[verifier::opaque]
    pub open spec fn offset_shown(new: App, old: App, off: usize) -> bool {
        new == (App { current_pack: off / 4096, scroll_top: (off % 4096) / 16, ..old })
    }

    fn show_offset(&mut self, off: usize)
        requires
            old(self).wf(),
        ensures
            final(self).wf(),
            App::offset_shown(*final(self), *old(self), off),
    {
        proof {
            lemma_wf_parts(*self);
        }
        self.current_pack = off / self.pack_size;
        self.scroll_top = (off % self.pack_size) / 16;
        assert(self.wf()) by {
            lemma_wf_same_records(*self, *old(self));
        }
        assert(App::offset_shown(*self, *old(self), off)) by {
            reveal(App::offset_shown);
        }
    }

    /// Scrolls the view to the cursor (see `ensure_cursor_visible`).
    fn view_cursor(&mut self, h: u16)
        requires
            old(self).wf(),
            old(self).current_pack * 256 + old(self).scroll_top + h <= usize::MAX,
            h >= 4,
        ensures
            final(self).wf(),
            final(self).cursor_byte == old(self).cursor_byte,
            final(self).input_mode == old(self).input_mode,
            final(self).input_buf == old(self).input_buf,
            final(self).file_size == old(self).file_size,
            final(self).search_active == old(self).search_active,
            ({
                let row = old(self).cursor_byte / 16;
                let top = old(self).current_pack * 256 + old(self).scroll_top;
                let mr = h - 3;
                if row < top {
                    App::scrolled(*final(self), *old(self), row as int)
                } else if row >= top + mr {
                    App::scrolled(*final(self), *old(self), row - (mr - 1))
                } else {
                    *final(self) == *old(self)
                }
            }),
    {
        self.ensure_cursor_visible(h);
        assert(self.wf() && self.cursor_byte == old(self).cursor_byte && self.input_mode == old(
            self,
        ).input_mode && self.input_buf == old(self).input_buf && self.file_size == old(self).file_size
            && self.search_active == old(self).search_active) by {
            reveal(App::scrolled);
            lemma_wf_same_records(*self, *old(self));
        }
    }

    fn close_prompt(&mut self)
        requires
            old(self).wf(),
        ensures
            final(self).wf(),
            final(self).input_mode == InputMode::Normal,
            final(self).input_buf@.len() == 0,
            final(self).cursor_byte == old(self).cursor_byte,
            final(self).search_active == old(self).search_active,
            final(self).file_size == old(self).file_size,
    {
        close_fields(&mut self.input_mode, &mut self.input_buf);
        proof {
            lemma_wf_same_records(*self, *old(self));
        }
    }

    fn focus_cursor(&mut self, b: usize)
        requires
            old(self).wf(),
        ensures
            final(self).wf(),
            App::focused_on(*final(self), *old(self), b),
    {
        self.cursor_byte = b;
        self.cursor_focused = true;
        assert(self.wf()) by {
            lemma_wf_same_records(*self, *old(self));
        }
        assert(App::focused_on(*self, *old(self), b)) by {
            reveal(App::focused_on);
        }
    }

    /// Starts a search when the sizes fit the search index; `false` (and no
    /// change) when they do not.
    fn search_if_fits(&mut self, needle: Needle, len: usize, label: String, data: &[u8], h: u16) -> (r: bool)
        requires
            old(self).wf(),
            crate::bitmap::needle_span(needle) <= len,
        ensures
            final(self).wf(),
            r == (old(self).file_size as int + len as int + 3 * GB_SIZE as int <= usize::MAX),
            r ==> final(self).search_active && final(self).search_len == len,
            !r ==> *final(self) == *old(self),
            final(self).file_size == old(self).file_size,
    {
        if self.file_size <= usize::MAX - 3 * GB_SIZE && len <= usize::MAX - 3 * GB_SIZE - self.file_size {
            self.apply_search(needle, len, label, data, h)
        } else {
            proof {
                lemma_wf_same_records(*self, *old(self));
            }
            false
        }
    }

    /// "Go to pack": for a pack number `buf` (hex, counted from 1) within
    /// the file, shows that pack (the next match instead while a search is
    /// active) and puts the cursor on the first byte of the pack shown.
    fn goto_pack(&mut self, buf: &str, data: &[u8], h: u16)
        requires
            old(self).wf(),
            old(self).file_size + GB_SIZE + 0x100000 <= usize::MAX,
            old(self).current_pack * 4096 <= old(self).file_size + GB_SIZE,
            old(self).scroll_top < 256,
            h >= 4,
        ensures
            final(self).wf(),
            final(self).input_mode == old(self).input_mode,
            final(self).file_size == old(self).file_size,
            ({
                let v = typed_offset(buf@);
                (!old(self).search_active && v is Some && sat_sub(v->0, 1) < old(self).total_packs)
                    ==> final(self).cursor_byte == sat_sub(v->0, 1) * 4096
            }),
    {
        proof {
            lemma_wf_parts(*self);
            lemma_hex_number_nonneg(hex_digits_of(without_0x(trim_spec(buf@))));
        }
        if let Some(val) = parse_hex_input(buf) {
            let target = val.saturating_sub(1);
            if target < self.total_packs {
                if self.search_active {
                    let ghost pre = *self;
                    let moved = self.next_global(data, h);
                    assert(self.current_pack * 4096 <= self.file_size + GB_SIZE && self.scroll_top < 256
                        && self.input_mode == old(self).input_mode && self.file_size == old(self).file_size
                        && self.total_packs == old(self).total_packs) by {
                        reveal(App::jumped);
                        reveal(App::only_search_changed);
                        if moved {
                            let pos = self.current_match->0;
                            assert(self.current_pack == pos / 4096);
                            assert((pos / 4096) * 4096 <= pos) by (nonlinear_arith);
                        }
                    }
                } else {
                    assert(target * 4096 <= self.file_size + 4096) by (nonlinear_arith)
                        requires
                            target < (self.file_size + 4095) / 4096,
                    ;
                    self.show_pack(target);
                    assert(self.current_pack == target && self.scroll_top == 0 && self.input_mode
                        == old(self).input_mode && self.file_size == old(self).file_size) by {
                        reveal(App::paged);
                    }
                }
                let at = self.current_pack * 4096;
                let ghost pre = *self;
                self.focus_cursor(at);
                assert(self.cursor_byte == at && self.current_pack == pre.current_pack && self.scroll_top
                    == pre.scroll_top && self.input_mode == pre.input_mode && self.file_size == pre.file_size)
                    by {
                    reveal(App::focused_on);
                }
                self.view_cursor(h);
            }
        }
    }

    /// "Go to offset": for an offset `buf` (hex) within the file, shows its
    /// row at the top (the next match instead while a search is active) and
    /// puts the cursor on it.
    fn goto_offset(&mut self, buf: &str, data: &[u8], h: u16)
        requires
            old(self).wf(),
            old(self).file_size + GB_SIZE + 0x100000 <= usize::MAX,
            old(self).current_pack * 4096 <= old(self).file_size + GB_SIZE,
            old(self).scroll_top < 256,
            h >= 4,
        ensures
            final(self).wf(),
            final(self).input_mode == old(self).input_mode,
            final(self).file_size == old(self).file_size,
            ({
                let v = typed_offset(buf@);
                (!old(self).search_active && v is Some && v->0 < old(self).file_size)
                    ==> final(self).cursor_byte == v->0
            }),
    {
        proof {
            lemma_wf_parts(*self);
            lemma_hex_number_nonneg(hex_digits_of(without_0x(trim_spec(buf@))));
        }
        if let Some(val) = parse_hex_input(buf) {
            if val < self.file_size {
                if self.search_active {
                    let moved = self.next_global(data, h);
                    assert(self.current_pack * 4096 <= self.file_size + GB_SIZE && self.scroll_top < 256
                        && self.input_mode == old(self).input_mode && self.file_size == old(self).file_size
                        && self.total_packs == old(self).total_packs) by {
                        reveal(App::jumped);
                        reveal(App::only_search_changed);
                        if moved {
                            let pos = self.current_match->0;
                            assert(self.current_pack == pos / 4096);
                            assert((pos / 4096) * 4096 <= pos) by (nonlinear_arith);
                        }
                    }
                } else {
                    self.show_offset(val);
                    assert(self.current_pack == val / 4096 && self.scroll_top == (val % 4096) / 16
                        && self.input_mode == old(self).input_mode && self.file_size == old(self).file_size)
                        by {
                        reveal(App::offset_shown);
                    }
                    assert((val / 4096) * 4096 <= val) by (nonlinear_arith);
                }
                let ghost pre = *self;
                self.focus_cursor(val);
                assert(self.cursor_byte == val && self.current_pack == pre.current_pack && self.scroll_top
                    == pre.scroll_top && self.input_mode == pre.input_mode && self.file_size == pre.file_size)
                    by {
                    reveal(App::focused_on);
                }
                self.view_cursor(h);
            }
        }
    }

    /// Enter in a prompt on a terminal of height `h`: the prompt closes and
    /// its text is acted on: "go to pack" and "go to offset" move as
    /// `goto_pack` and `goto_offset` do, the search prompts start a search
    /// for the typed text (see `parse_input` and `parse_str_input`) when it
    /// reads as one and the sizes fit the search index.
    pub fn submit_input(&mut self, data: &[u8], h: u16)
        requires
            old(self).wf(),
            old(self).file_size <= data@.len(),
            old(self).file_size + GB_SIZE + 0x100000 <= usize::MAX,
            old(self).current_pack * 4096 <= old(self).file_size + GB_SIZE,
            old(self).scroll_top < 256,
            h >= 4,
        ensures
            final(self).wf(),
            final(self).input_mode == InputMode::Normal,
            final(self).input_buf@.len() == 0,
            final(self).file_size == old(self).file_size,
            ({
                let v = typed_offset(old(self).input_buf@);
                &&& (old(self).input_mode == InputMode::GotoInput && !old(self).search_active && v
                    is Some && sat_sub(v->0, 1) < old(self).total_packs) ==> final(self).cursor_byte
                    == sat_sub(v->0, 1) * 4096
                &&& (old(self).input_mode == InputMode::GotoByteInput && !old(self).search_active
                    && v is Some && v->0 < old(self).file_size) ==> final(self).cursor_byte == v->0
                &&& (old(self).input_mode == InputMode::StringSearchInput && trim_spec(
                    old(self).input_buf@,
                ).len() > 0 && old(self).file_size + vstd::utf8::encode_utf8(
                    trim_spec(old(self).input_buf@),
                ).len() + 3 * GB_SIZE <= usize::MAX) ==> final(self).search_active
            }),
    {
        let mode = self.input_mode;
        let buf = self.input_buf.clone();
        match mode {
            InputMode::GotoInput => self.goto_pack(buf.as_str(), data, h),
            InputMode::GotoByteInput => self.goto_offset(buf.as_str(), data, h),
            InputMode::StringSearchInput => {
                if let Some((label, bytes)) = parse_str_input(buf.as_str()) {
                    let len = bytes.len();
                    self.search_if_fits(Needle::Lit(bytes), len, label, data, h);
                }
            },
            InputMode::SearchInput => {
                if let Some(kind) = parse_input(buf.as_str()) {
                    match kind {
                        SearchKind::Hex { bytes, label } => {
                            let len = bytes.len();
                            self.search_if_fits(Needle::Lit(bytes), len, label, data, h);
                        },
                        SearchKind::Pat { pat, label } => {
                            let len = pat.len() / 2;
                            self.search_if_fits(Needle::Pat(pat), len, label, data, h);
                        },
                    }
                }
            },
            _ => {},
        }
        self.close_prompt();
    }
}

/// The view after scrolling `a` so that row `row` is on screen on a
/// terminal of height `h`: `(pack, top row)` of the result is `(cp, st)`.
pub open spec fn view_after(a: App, row: int, h: u16, cp: usize, st: usize) -> bool {
    let top = a.current_pack * 256 + a.scroll_top;
    let mr = h - 3;
    if row < top {
        cp == a.capped_row(row) / 256 && st == a.capped_row(row) % 256
    } else if row >= top + mr {
        cp == a.capped_row(row - (mr - 1)) / 256 && st == a.capped_row(row - (mr - 1)) % 256
    } else {
        cp == a.current_pack && st == a.scroll_top
    }
}

impl App {
    /// A left click on the data cell of offset `off`: the cursor goes there
    /// with the focus, a drag starts, the selection is cleared, and the view
    /// scrolls to the cursor's row.
    pub fn click_cell(&mut self, off: usize, h: u16)
        requires
            old(self).wf(),
            old(self).current_pack * 256 + old(self).scroll_top + h <= usize::MAX,
            h >= 4,
        ensures
            final(self).wf(),
            final(self).cursor_byte == off,
            final(self).cursor_focused,
            final(self).dragging,
            final(self).sel_start is None && final(self).sel_end is None,
            view_after(*old(self), (off / 16) as int, h, final(self).current_pack, final(self).scroll_top),
            final(self).input_mode == old(self).input_mode,
            final(self).file_size == old(self).file_size,
            final(self).overlay == old(self).overlay,
            final(self).search_active == old(self).search_active,
    {
        self.cursor_byte = off;
        self.cursor_focused = true;
        self.dragging = true;
        self.sel_start = None;
        self.sel_end = None;
        assert(self.wf()) by {
            lemma_wf_same_records(*self, *old(self));
        }
        self.view_cursor(h);
        proof {
            reveal(App::scrolled);
        }
    }

    /// Dragging onto the data cell of offset `off`: the cursor goes there,
    /// the selection starts where the drag did (unless it has started) and
    /// ends there, and the view scrolls to the cursor's row.
    pub fn drag_to(&mut self, off: usize, h: u16)
        requires
            old(self).wf(),
            old(self).current_pack * 256 + old(self).scroll_top + h <= usize::MAX,
            h >= 4,
        ensures
            final(self).wf(),
            final(self).cursor_byte == off,
            final(self).sel_start == (match old(self).sel_start {
                Some(a) => Some(a),
                None => Some(off),
            }),
            final(self).sel_end == Some(off),
            view_after(*old(self), (off / 16) as int, h, final(self).current_pack, final(self).scroll_top),
            final(self).input_mode == old(self).input_mode,
            final(self).file_size == old(self).file_size,
            final(self).overlay == old(self).overlay,
    {
        self.cursor_byte = off;
        if self.sel_start.is_none() {
            self.sel_start = Some(off);
        }
        self.sel_end = Some(off);
        assert(self.wf()) by {
            lemma_wf_same_records(*self, *old(self));
        }
        self.view_cursor(h);
        proof {
            reveal(App::scrolled);
        }
    }

    /// Releasing the left button: no more dragging (of the help scroll bar
    /// either); a drag that selected a single cell leaves no selection.
    pub fn release_button(&mut self)
        requires
            old(self).wf(),
        ensures
            final(self).wf(),
            !final(self).dragging && !final(self).help_dragging,
            (old(self).dragging && old(self).sel_start == old(self).sel_end) ==> (final(self).sel_start is None
                && final(self).sel_end is None),
            !(old(self).dragging && old(self).sel_start == old(self).sel_end) ==> (final(self).sel_start
                == old(self).sel_start && final(self).sel_end == old(self).sel_end),
            final(self).cursor_byte == old(self).cursor_byte,
            final(self).current_pack == old(self).current_pack,
            final(self).scroll_top == old(self).scroll_top,
            final(self).input_mode == old(self).input_mode,
    {
        self.help_dragging = false;
        if self.dragging {
            self.dragging = false;
            if self.sel_start == self.sel_end {
                self.sel_start = None;
                self.sel_end = None;
            }
        }
        assert(self.wf()) by {
            lemma_wf_same_records(*self, *old(self));
        }
    }
}


} // verus!

//! Where the navigation keys go: the cursor moves of edit mode, and the
//! scrolling, paging and match-stepping keys of normal mode.
use vstd::prelude::*;
use crate::app::{lemma_wf_parts, lemma_wf_same_records, App, DisplayMode};
use crate::bitmap::GB_SIZE;
use crate::keys::{sat_sub, Key};
use crate::modified::OFFSET_LIMIT;

verus! {

/// Where an edit-mode key puts the cursor: its byte, its half (0 high, 1
/// low, used in hex mode), its pack, and whether the view goes to the top
/// of that pack. Left and Right step a half in hex mode and a byte
/// otherwise, Up and Down a row; at the edge of a pack they go on into the
/// neighbouring pack. PageUp and PageDown move `rows` rows, kept in the
/// file. Other keys leave the cursor.
pub open spec fn edit_move_spec(
    k: Key,
    hex: bool,
    byte: int,
    nib: int,
    pack: int,
    fs: int,
    total: int,
    rows: int,
) -> (int, int, int, bool) {
    let last = sat_sub(fs, 1);
    let stay = (byte, nib, pack, false);
    match k {
        Key::Left => if hex && nib != 0 {
            (byte, 0, pack, false)
        } else if byte > 0 {
            (byte - 1, if hex { 1 } else { nib }, pack, false)
        } else if pack > 0 {
            (pack * 4096 - 1, if hex { 1 } else { nib }, pack - 1, true)
        } else {
            stay
        },
        Key::Right => if hex && nib == 0 {
            (byte, 1, pack, false)
        } else if byte < last {
            (byte + 1, if hex { 0 } else { nib }, pack, false)
        } else if pack + 1 < total {
            ((pack + 1) * 4096, if hex { 0 } else { nib }, pack + 1, true)
        } else {
            stay
        },
        Key::Up => if byte >= 16 {
            (byte - 16, nib, pack, false)
        } else if pack > 0 {
            ((pack - 1) * 4096 + 255 * 16 + byte, nib, pack - 1, true)
        } else {
            stay
        },
        Key::Down => if byte + 16 <= last {
            (byte + 16, nib, pack, false)
        } else if pack + 1 < total {
            let t = (pack + 1) * 4096 + (byte + 16 - last - 1);
            (if t < last { t } else { last }, nib, pack + 1, true)
        } else {
            stay
        },
        Key::PageUp => (sat_sub(byte, rows * 16), nib, pack, false),
        Key::PageDown => (if byte + rows * 16 < fs { byte + rows * 16 } else { fs - 1 }, nib, pack, false),
        _ => stay,
    }
}

/// The edit-mode cursor move of key `k` (see `edit_move_spec`), for a file
/// of `fs` bytes in `total` packs.
pub fn edit_move(
    k: Key,
    hex: bool,
    byte: usize,
    nib: usize,
    pack: usize,
    fs: usize,
    total: usize,
    rows: usize,
) -> (r: (usize, usize, usize, bool))
    requires
        0 < fs < OFFSET_LIMIT,
        fs + GB_SIZE + 0x100000 <= usize::MAX,
        total == (fs + 4095) / 4096,
        byte <= fs + GB_SIZE,
        pack * 4096 <= fs + GB_SIZE,
        rows <= 0xffff,
    ensures
        ({
            let s = edit_move_spec(k, hex, byte as int, nib as int, pack as int, fs as int, total as int, rows as int);
            r.0 == s.0 && r.1 == s.1 && r.2 == s.2 && r.3 == s.3
        }),
{
    let last = fs - 1;
    proof {
        if pack > 0 {
            assert(pack * 4096 >= 4096 && (pack - 1) * 4096 == pack * 4096 - 4096) by (nonlinear_arith)
                requires
                    pack > 0,
            ;
        }
    }
    match k {
        Key::Left => {
            if hex && nib != 0 {
                (byte, 0, pack, false)
            } else if byte > 0 {
                (byte - 1, if hex { 1 } else { nib }, pack, false)
            } else if pack > 0 {
                (pack * 4096 - 1, if hex { 1 } else { nib }, pack - 1, true)
            } else {
                (byte, nib, pack, false)
            }
        },
        Key::Right => {
            if hex && nib == 0 {
                (byte, 1, pack, false)
            } else if byte < last {
                (byte + 1, if hex { 0 } else { nib }, pack, false)
            } else if pack + 1 < total {
                ((pack + 1) * 4096, if hex { 0 } else { nib }, pack + 1, true)
            } else {
                (byte, nib, pack, false)
            }
        },
        Key::Up => {
            if byte >= 16 {
                (byte - 16, nib, pack, false)
            } else if pack > 0 {
                ((pack - 1) * 4096 + 255 * 16 + byte, nib, pack - 1, true)
            } else {
                (byte, nib, pack, false)
            }
        },
        Key::Down => {
            if byte + 16 <= last {
                (byte + 16, nib, pack, false)
            } else if pack + 1 < total {
                let t = (pack + 1) * 4096 + (byte + 16 - last - 1);
                (if t < last { t } else { last }, nib, pack + 1, true)
            } else {
                (byte, nib, pack, false)
            }
        },
        Key::PageUp => (byte.saturating_sub(rows * 16), nib, pack, false),
        Key::PageDown => {
            let target = byte + rows * 16;
            (if target < fs { target } else { fs - 1 }, nib, pack, false)
        },
        _ => (byte, nib, pack, false),
    }
}

/// A step of the view that a normal-mode key asks for.
#[derive(Debug, Clone, Copy, PartialEq, Eq, Structural)]
pub enum Nav {
    /// Nothing moves.
    Stay,
    /// Scroll so that this row of the whole file is at the top.
    ScrollTo(usize),
    /// Show this pack from its first row.
    ShowPack(usize),
    /// Go to the next match.
    NextMatch,
    /// Go to the previous match.
    PrevMatch,
    /// Go to the first match.
    FirstMatch,
    /// Go to the first match from the start of this pack on (a step
    /// forwards).
    MatchFrom(usize),
    /// Go to the first match from the start of this pack on (a step
    /// backwards).
    MatchUpTo(usize),
}

/// `a + b`, at most `m`.
pub open spec fn add_cap(a: int, b: int, m: int) -> int {
    if a + b < m {
        a + b
    } else {
        m
    }
}

/// The step normal-mode key `k` asks for. `pack` is the current pack of
/// `total`, `top` the row of the whole file at the top of the view, `rows`
/// the rows of the whole file, `mr` the rows on screen. During a search
/// the vertical keys step through the matches and the paging keys (256
/// packs for `O`/`P`) go to the first match from the start of the pack they
/// reach on; otherwise they scroll (a row, a
/// screen, half a screen, 256 packs) and page (a pack, 16 packs, the first
/// pack), never past the last screenful or the last pack.
pub open spec fn normal_nav_spec(
    k: Key,
    searching: bool,
    pack: int,
    total: int,
    top: int,
    rows: int,
    mr: int,
) -> Nav {
    let max = sat_sub(rows, mr);
    let last_pack = total - 1;
    let per_screen = if mr * 16 / 4096 > 1 { mr * 16 / 4096 } else { 1 };
    let half = if mr / 2 > 1 { mr / 2 } else { 1 };
    let half_packs = if half * 16 / 4096 > 1 { half * 16 / 4096 } else { 1 };
    let far: int = 65536int;
    match k {
        Key::Up | Key::Char('k') => if searching {
            Nav::PrevMatch
        } else if top > 0 {
            Nav::ScrollTo((top - 1) as usize)
        } else {
            Nav::Stay
        },
        Key::Down | Key::Char('j') => if searching {
            Nav::NextMatch
        } else if top < max {
            Nav::ScrollTo((top + 1) as usize)
        } else {
            Nav::Stay
        },
        Key::Left | Key::Char('h') => if searching {
            Nav::MatchUpTo(sat_sub(pack, 1) as usize)
        } else if pack > 0 {
            Nav::ShowPack((pack - 1) as usize)
        } else {
            Nav::Stay
        },
        Key::Right | Key::Char('l') => if searching {
            Nav::MatchFrom(add_cap(pack, 1, last_pack) as usize)
        } else if pack + 1 < total {
            Nav::ShowPack((pack + 1) as usize)
        } else {
            Nav::Stay
        },
        Key::Char('K') => if searching {
            Nav::MatchUpTo(sat_sub(pack, per_screen) as usize)
        } else {
            Nav::ScrollTo(sat_sub(top, mr) as usize)
        },
        Key::Char('J') => if searching {
            Nav::MatchFrom(add_cap(pack, per_screen, last_pack) as usize)
        } else {
            Nav::ScrollTo(add_cap(top, mr, max) as usize)
        },
        Key::Char('H') => if searching {
            Nav::MatchUpTo(sat_sub(pack, 16) as usize)
        } else {
            Nav::ShowPack(sat_sub(pack, 16) as usize)
        },
        Key::Char('L') => if searching {
            Nav::MatchFrom(add_cap(pack, 16, last_pack) as usize)
        } else {
            Nav::ShowPack(add_cap(pack, 16, last_pack) as usize)
        },
        Key::PageUp => if searching {
            Nav::MatchUpTo(sat_sub(pack, half_packs) as usize)
        } else {
            Nav::ScrollTo(sat_sub(top, half) as usize)
        },
        Key::PageDown => if searching {
            Nav::MatchFrom(add_cap(pack, half_packs, last_pack) as usize)
        } else {
            Nav::ScrollTo(add_cap(top, half, max) as usize)
        },
        Key::Home => if searching {
            Nav::FirstMatch
        } else {
            Nav::ShowPack(0)
        },
        Key::Char('O') | Key::Char('o') => if searching {
            Nav::MatchUpTo(sat_sub(pack, 256) as usize)
        } else {
            Nav::ScrollTo(sat_sub(top, far) as usize)
        },
        Key::Char('P') | Key::Char('p') => if searching {
            Nav::MatchFrom(add_cap(pack, 256, last_pack) as usize)
        } else {
            Nav::ScrollTo(add_cap(top, far, max) as usize)
        },
        _ => Nav::Stay,
    }
}

/// The step normal-mode key `k` asks for (see `normal_nav_spec`).
pub fn normal_nav(
    k: Key,
    searching: bool,
    pack: usize,
    total: usize,
    top: usize,
    rows: usize,
    mr: usize,
) -> (r: Nav)
    requires
        0 < total,
        pack < total,
        total < OFFSET_LIMIT,
        top + 65536 <= usize::MAX,
        pack + 256 <= usize::MAX,
        rows < OFFSET_LIMIT,
        mr <= 0xffff,
    ensures
        r == normal_nav_spec(k, searching, pack as int, total as int, top as int, rows as int, mr as int),
{
    let max = rows.saturating_sub(mr);
    let last_pack = total - 1;
    let per_screen = if mr * 16 / 4096 > 1 { mr * 16 / 4096 } else { 1 };
    let half = if mr / 2 > 1 { mr / 2 } else { 1 };
    let half_packs = if half * 16 / 4096 > 1 { half * 16 / 4096 } else { 1 };
    let far: usize = 256 * 256;
    assert(per_screen <= 256 && half_packs <= 256) by (nonlinear_arith)
        requires
            mr <= 0xffff,
            per_screen == if mr * 16 / 4096 > 1 { mr * 16 / 4096 } else { 1 },
            half == if mr / 2 > 1 { mr / 2 } else { 1 },
            half_packs == if half * 16 / 4096 > 1 { half * 16 / 4096 } else { 1 },
    ;
    let cap = |a: usize, b: usize, m: usize| -> (c: usize)
        requires
            a + b <= usize::MAX,
        ensures
            c == add_cap(a as int, b as int, m as int),
        {
            if a + b < m {
                a + b
            } else {
                m
            }
        };
    match k {
        Key::Up | Key::Char('k') => if searching {
            Nav::PrevMatch
        } else if top > 0 {
            Nav::ScrollTo(top - 1)
        } else {
            Nav::Stay
        },
        Key::Down | Key::Char('j') => if searching {
            Nav::NextMatch
        } else if top < max {
            Nav::ScrollTo(top + 1)
        } else {
            Nav::Stay
        },
        Key::Left | Key::Char('h') => if searching {
            Nav::MatchUpTo(pack.saturating_sub(1))
        } else if pack > 0 {
            Nav::ShowPack(pack - 1)
        } else {
            Nav::Stay
        },
        Key::Right | Key::Char('l') => if searching {
            Nav::MatchFrom(cap(pack, 1, last_pack))
        } else if pack + 1 < total {
            Nav::ShowPack(pack + 1)
        } else {
            Nav::Stay
        },
        Key::Char('K') => if searching {
            Nav::MatchUpTo(pack.saturating_sub(per_screen))
        } else {
            Nav::ScrollTo(top.saturating_sub(mr))
        },
        Key::Char('J') => if searching {
            Nav::MatchFrom(cap(pack, per_screen, last_pack))
        } else {
            Nav::ScrollTo(cap(top, mr, max))
        },
        Key::Char('H') => if searching {
            Nav::MatchUpTo(pack.saturating_sub(16))
        } else {
            Nav::ShowPack(pack.saturating_sub(16))
        },
        Key::Char('L') => if searching {
            Nav::MatchFrom(cap(pack, 16, last_pack))
        } else {
            Nav::ShowPack(cap(pack, 16, last_pack))
        },
        Key::PageUp => if searching {
            Nav::MatchUpTo(pack.saturating_sub(half_packs))
        } else {
            Nav::ScrollTo(top.saturating_sub(half))
        },
        Key::PageDown => if searching {
            Nav::MatchFrom(cap(pack, half_packs, last_pack))
        } else {
            Nav::ScrollTo(cap(top, half, max))
        },
        Key::Home => if searching {
            Nav::FirstMatch
        } else {
            Nav::ShowPack(0)
        },
        Key::Char('O') | Key::Char('o') => if searching {
            Nav::MatchUpTo(pack.saturating_sub(256))
        } else {
            Nav::ScrollTo(top.saturating_sub(far))
        },
        Key::Char('P') | Key::Char('p') => if searching {
            Nav::MatchFrom(cap(pack, 256, last_pack))
        } else {
            Nav::ScrollTo(cap(top, far, max))
        },
        _ => Nav::Stay,
    }
}

impl App {
    /// `new` is `old` showing pack `p` from its first row.
    #[verifier::opaque]
    pub open spec fn paged(new: App, old: App, p: usize) -> bool {
        new == (App { current_pack: p, scroll_top: 0, ..old })
    }

    /// Shows pack `p` from its first row.
    pub fn show_pack(&mut self, p: usize)
        requires
            old(self).wf(),
        ensures
            final(self).wf(),
            App::paged(*final(self), *old(self), p),
    {
        self.current_pack = p;
        self.scroll_top = 0;
        assert(self.wf()) by {
            lemma_wf_same_records(*self, *old(self));
        }
        assert(App::paged(*self, *old(self), p)) by {
            reveal(App::paged);
        }
    }

    /// Carries out a normal-mode step on a terminal of height `h`: scrolls,
    /// shows a pack from its first row, or moves to a match: the next one
    /// after the current match, the previous one before it, the first one in
    /// the file, or the first one at or after the start of a pack. `true`
    /// when a match was reached.
    pub fn apply_nav(&mut self, nav: Nav, data: &[u8], h: u16) -> (moved: bool)
        requires
            old(self).wf(),
            nav matches Nav::MatchFrom(p) ==> p * 4096 <= usize::MAX,
            nav matches Nav::MatchUpTo(p) ==> p * 4096 <= usize::MAX,
        ensures
            final(self).wf(),
            nav is Stay ==> *final(self) == *old(self) && !moved,
            nav matches Nav::ScrollTo(r) ==> App::scrolled(*final(self), *old(self), r as int) && !moved,
            nav matches Nav::ShowPack(p) ==> App::paged(*final(self), *old(self), p) && !moved,
            (nav is NextMatch || nav is PrevMatch || nav is MatchFrom || nav is MatchUpTo) ==> (if moved {
                App::jumped(*final(self), *old(self), final(self).current_match->0, h)
            } else {
                App::only_search_changed(*final(self), *old(self))
            }),
            nav is FirstMatch && moved ==> App::jumped(*final(self), *old(self), final(self).current_match->0, h),
            nav is FirstMatch && !moved ==> final(self).current_match is None,
            old(self).search is None ==> !moved,
            old(self).search matches Some(s) ==> {
                let got = App::reached(moved, *final(self));
                &&& nav is NextMatch ==> s.is_next(data@, App::after_current(*old(self)), got)
                &&& nav is PrevMatch ==> s.is_prev(data@, App::before_current(*old(self)), got)
                &&& nav is FirstMatch ==> s.is_next(data@, 0, got)
                &&& nav matches Nav::MatchFrom(p) ==> s.is_next(data@, p * 4096, got)
                &&& nav matches Nav::MatchUpTo(p) ==> s.is_next(data@, p * 4096, got)
            },
    {
        match nav {
            Nav::Stay => self.stay(),
            Nav::ScrollTo(row) => {
                self.set_global_scroll(row);
                assert(self.wf()) by {
                    reveal(App::scrolled);
                    lemma_wf_same_records(*self, *old(self));
                }
                false
            },
            Nav::ShowPack(p) => {
                self.show_pack(p);
                false
            },
            Nav::NextMatch => self.next_global(data, h),
            Nav::PrevMatch => self.prev_global(data, h),
            Nav::FirstMatch => self.first_match(data, h),
            Nav::MatchFrom(p) => self.jump_to_page_match(p, data, h),
            Nav::MatchUpTo(p) => self.jump_to_page_match(p, data, h),
        }
    }

    /// `new` is `old` with the cursor on byte `byte`, half `nib`, in pack
    /// `pack`, the view at that pack's top when `to_top` holds.
    #[verifier::opaque]
    pub open spec fn cursor_put(new: App, old: App, byte: usize, nib: usize, pack: usize, to_top: bool) -> bool {
        new == (App {
            cursor_byte: byte,
            cursor_nibble: nib,
            current_pack: pack,
            scroll_top: if to_top { 0 } else { old.scroll_top },
            ..old
        })
    }

    /// `new` is `old` with the cursor kept within the file.
    #[verifier::opaque]
    pub open spec fn cursor_clamped(new: App, old: App) -> bool {
        new == (App {
            cursor_byte: if old.cursor_byte < old.file_size - 1 {
                old.cursor_byte
            } else {
                (old.file_size - 1) as usize
            },
            ..old
        })
    }

    #[verifier::rlimit(40)]
    fn set_edit_cursor(&mut self, byte: usize, nib: usize, pack: usize, to_top: bool)
        requires
            old(self).wf(),
        ensures
            final(self).wf(),
            App::cursor_put(*final(self), *old(self), byte, nib, pack, to_top),
    {
        let top = if to_top { 0 } else { self.scroll_top };
        self.cursor_byte = byte;
        self.cursor_nibble = nib;
        self.current_pack = pack;
        self.scroll_top = top;
        assert(self.total_packs == old(self).total_packs && self.file_size == old(self).file_size);
        assert(self.wf()) by {
            lemma_wf_same_records(*self, *old(self));
        }
        assert(App::cursor_put(*self, *old(self), byte, nib, pack, to_top)) by {
            reveal(App::cursor_put);
        }
    }

    fn clamp_cursor(&mut self)
        requires
            old(self).wf(),
            old(self).file_size > 0,
        ensures
            final(self).wf(),
            App::cursor_clamped(*final(self), *old(self)),
    {
        let last = self.file_size - 1;
        let c = if self.cursor_byte < last { self.cursor_byte } else { last };
        self.cursor_byte = c;
        assert(self.wf()) by {
            lemma_wf_same_records(*self, *old(self));
        }
        assert(App::cursor_clamped(*self, *old(self))) by {
            reveal(App::cursor_clamped);
        }
    }

    /// An arrow or page key in edit mode on a terminal of height `h`: the
    /// cursor moves as `edit_move_spec` says, the view scrolls to show it,
    /// and the cursor is kept within the file. The bytes, the edit records,
    /// the search and the mode stay as they were.
    pub fn edit_arrow(&mut self, k: Key, h: u16)
        requires
            old(self).wf(),
            0 < old(self).file_size,
            old(self).file_size + GB_SIZE + 0x100000 <= usize::MAX,
            old(self).cursor_byte <= old(self).file_size + GB_SIZE,
            old(self).current_pack * 4096 <= old(self).file_size + GB_SIZE,
            old(self).scroll_top < 256,
            h >= 4,
        ensures
            final(self).wf(),
            ({
                let rows = h - 3;
                let s = edit_move_spec(
                    k,
                    old(self).mode == DisplayMode::Hex,
                    old(self).cursor_byte as int,
                    old(self).cursor_nibble as int,
                    old(self).current_pack as int,
                    old(self).file_size as int,
                    old(self).total_packs as int,
                    rows,
                );
                &&& final(self).cursor_byte == if s.0 < old(self).file_size - 1 {
                    s.0
                } else {
                    old(self).file_size - 1
                }
                &&& final(self).cursor_nibble == s.1
            }),
            final(self).overlay == old(self).overlay,
            final(self).undo_stack == old(self).undo_stack,
            final(self).redo_stack == old(self).redo_stack,
            final(self).modified == old(self).modified,
            final(self).search == old(self).search,
            final(self).mode == old(self).mode,
            final(self).file_size == old(self).file_size,
    {
        proof {
            lemma_wf_parts(*self);
        }
        let rows = self.max_rows(h);
        let hex = self.mode == DisplayMode::Hex;
        let s = edit_move(
            k,
            hex,
            self.cursor_byte,
            self.cursor_nibble,
            self.current_pack,
            self.file_size,
            self.total_packs,
            rows,
        );
        proof {
            assert(s.2 <= self.current_pack + 1);
            assert(s.2 * 256 <= self.current_pack * 256 + 256);
            assert(self.current_pack * 256 <= (self.file_size + GB_SIZE) / 16 + 256) by (nonlinear_arith)
                requires
                    self.current_pack * 4096 <= self.file_size + GB_SIZE,
            ;
        }
        self.set_edit_cursor(s.0, s.1, s.2, s.3);
        let ghost mid = *self;
        proof {
            reveal(App::cursor_put);
        }
        self.ensure_cursor_visible(h);
        assert(self.wf() && self.cursor_byte == mid.cursor_byte && self.cursor_nibble == mid.cursor_nibble
            && self.overlay == mid.overlay && self.search == mid.search && self.mode == mid.mode
            && self.undo_stack == mid.undo_stack && self.redo_stack == mid.redo_stack
            && self.modified == mid.modified && self.file_size == mid.file_size) by {
            reveal(App::scrolled);
            lemma_wf_same_records(*self, mid);
        }
        let ghost before = *self;
        self.clamp_cursor();
        proof {
            reveal(App::cursor_clamped);
            assert(self.overlay == before.overlay && self.search == before.search);
        }
    }

    /// Ctrl+Left and Ctrl+Right in edit mode on a terminal of height `h`:
    /// the cursor goes to the first byte of the previous (or next) pack when
    /// there is one, and the view follows it.
    #[verifier::spinoff_prover]
    #[verifier::rlimit(60)]
    pub fn edit_pack_step(&mut self, forward: bool, h: u16)
        requires
            old(self).wf(),
            old(self).file_size + GB_SIZE + 0x100000 <= usize::MAX,
            old(self).current_pack * 4096 <= old(self).file_size + GB_SIZE,
            old(self).scroll_top < 256,
            h >= 4,
        ensures
            final(self).wf(),
            forward && old(self).current_pack + 1 < old(self).total_packs ==> final(self).cursor_byte
                == (old(self).current_pack + 1) * 4096,
            !forward && old(self).current_pack > 0 ==> final(self).cursor_byte == (old(self).current_pack
                - 1) * 4096,
            !(forward && old(self).current_pack + 1 < old(self).total_packs) && !(!forward && old(
                self,
            ).current_pack > 0) ==> *final(self) == *old(self),
            final(self).overlay == old(self).overlay,
            final(self).search == old(self).search,
            final(self).file_size == old(self).file_size,
    {
        let pack = self.current_pack;
        let target = if forward && pack + 1 < self.total_packs {
            pack + 1
        } else if !forward && pack > 0 {
            pack - 1
        } else {
            proof {
                lemma_wf_same_records(*self, *old(self));
            }
            return;
        };
        proof {
            assert(target * 4096 <= self.file_size + GB_SIZE + 4096) by (nonlinear_arith)
                requires
                    target <= pack + 1,
                    pack * 4096 <= self.file_size + GB_SIZE,
            ;
        }
        let nib = self.cursor_nibble;
        self.set_edit_cursor(target * 4096, nib, target, true);
        let ghost mid = *self;
        proof {
            reveal(App::cursor_put);
        }
        self.ensure_cursor_visible(h);
        assert(self.wf() && self.cursor_byte == mid.cursor_byte && self.overlay == mid.overlay
            && self.search == mid.search && self.file_size == mid.file_size) by {
            reveal(App::scrolled);
            lemma_wf_same_records(*self, mid);
        }
    }

    /// Leaves everything as it is.
    fn stay(&mut self) -> (moved: bool)
        requires
            old(self).wf(),
        ensures
            final(self).wf(),
            *final(self) == *old(self),
            !moved,
    {
        proof {
            lemma_wf_same_records(*self, *old(self));
        }
        false
    }

    /// Forgets the current match and moves to the first one in the file.
    fn first_match(&mut self, data: &[u8], h: u16) -> (moved: bool)
        requires
            old(self).wf(),
        ensures
            final(self).wf(),
            moved ==> App::jumped(*final(self), *old(self), final(self).current_match->0, h),
            !moved ==> final(self).current_match is None,
            old(self).search is None ==> !moved,
            old(self).search matches Some(s) ==> s.is_next(data@, 0, App::reached(moved, *final(self))),
    {
        self.current_match = None;
        let ghost mid = *self;
        assert(self.wf()) by {
            lemma_wf_same_records(*self, *old(self));
        }
        let moved = self.next_global(data, h);
        proof {
            if moved {
                reveal(App::jumped);
            } else {
                reveal(App::only_search_changed);
            }
        }
        moved
    }
}

/// Without a search, Left (or `h`) on a pack after the first shows the
/// pack before it from its first row, and Right (or `l`) from there shows
/// the pack it came from.
pub proof fn law_left_then_right_packs(pack: int, total: int, top: int, rows: int, mr: int)
    requires
        0 < pack < total,
    ensures
        normal_nav_spec(Key::Left, false, pack, total, top, rows, mr) == Nav::ShowPack((pack - 1) as usize),
        normal_nav_spec(Key::Char('h'), false, pack, total, top, rows, mr) == Nav::ShowPack(
            (pack - 1) as usize,
        ),
        normal_nav_spec(Key::Right, false, pack - 1, total, top, rows, mr) == Nav::ShowPack(pack as usize),
        normal_nav_spec(Key::Char('l'), false, pack - 1, total, top, rows, mr) == Nav::ShowPack(
            pack as usize,
        ),
{
}

/// Without a search, Down (or `j`) scrolls one row down while the last
/// screenful is not reached, and Up (or `k`) from there scrolls back to
/// where it was; on the first pack Left stays, and Home shows the first
/// pack.
pub proof fn law_rows_and_ends(pack: int, total: int, top: int, rows: int, mr: int)
    requires
        0 <= top < sat_sub(rows, mr),
        top + 1 <= usize::MAX,
    ensures
        normal_nav_spec(Key::Down, false, pack, total, top, rows, mr) == Nav::ScrollTo((top + 1) as usize),
        normal_nav_spec(Key::Char('j'), false, pack, total, top, rows, mr) == Nav::ScrollTo((top + 1) as usize),
        normal_nav_spec(Key::Up, false, pack, total, top + 1, rows, mr) == Nav::ScrollTo(top as usize),
        normal_nav_spec(Key::Char('k'), false, pack, total, top + 1, rows, mr) == Nav::ScrollTo(top as usize),
        normal_nav_spec(Key::Left, false, 0, total, top, rows, mr) == Nav::Stay,
        normal_nav_spec(Key::Home, false, pack, total, top, rows, mr) == Nav::ShowPack(0),
        normal_nav_spec(Key::Home, true, pack, total, top, rows, mr) == Nav::FirstMatch,
{
}

} // verus!

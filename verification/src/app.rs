//! Viewer state: paging of the file in 4 KiB packs, cursor, display mode,
//! search position, the edit overlay with its undo and redo stacks, and the
//! state of the file browser. Rendering and input are driven from outside.
use std::collections::HashMap;
use vstd::prelude::*;
use vstd::string::StringExecFns;
use crate::bitmap::{probe_of, BitSearch, GB_SIZE};
use crate::modified::{ModifiedMap, OFFSET_LIMIT};
use crate::search::Needle;
use crate::text::same_text;

verus! {



/// How the data column shows bytes.
#[derive(Debug, Clone, Copy, PartialEq, Eq, Structural)]
pub enum DisplayMode {
    Ascii,
    Hex,
    Utf8,
}

impl DisplayMode {
    pub open spec fn next_spec(self) -> DisplayMode {
        match self {
            DisplayMode::Ascii => DisplayMode::Hex,
            DisplayMode::Hex => DisplayMode::Utf8,
            DisplayMode::Utf8 => DisplayMode::Ascii,
        }
    }

    pub open spec fn prev_spec(self) -> DisplayMode {
        match self {
            DisplayMode::Ascii => DisplayMode::Utf8,
            DisplayMode::Hex => DisplayMode::Ascii,
            DisplayMode::Utf8 => DisplayMode::Hex,
        }
    }

    /// The next mode: ASCII → HEX → UTF-8 → ASCII.
    pub fn next(self) -> (r: Self)
        ensures
            r == self.next_spec(),
    {
        match self {
            DisplayMode::Ascii => DisplayMode::Hex,
            DisplayMode::Hex => DisplayMode::Utf8,
            DisplayMode::Utf8 => DisplayMode::Ascii,
        }
    }

    /// The previous mode: UTF-8 → HEX → ASCII → UTF-8.
    pub fn prev(self) -> (r: Self)
        ensures
            r == self.prev_spec(),
    {
        match self {
            DisplayMode::Ascii => DisplayMode::Utf8,
            DisplayMode::Hex => DisplayMode::Ascii,
            DisplayMode::Utf8 => DisplayMode::Hex,
        }
    }

    /// The label shown for the mode.
    pub fn label(self) -> (r: &'static str)
        ensures
            r@ == (match self {
                DisplayMode::Ascii => "[ASCII]"@,
                DisplayMode::Hex => "[HEX]"@,
                DisplayMode::Utf8 => "[UTF8]"@,
            }),
    {
        match self {
            DisplayMode::Ascii => "[ASCII]",
            DisplayMode::Hex => "[HEX]",
            DisplayMode::Utf8 => "[UTF8]",
        }
    }
}

/// Stepping back after stepping forward (and the other way round) returns
/// to the mode one started from.
pub proof fn lemma_mode_next_prev(m: DisplayMode)
    ensures
        m.next_spec().prev_spec() == m,
        m.prev_spec().next_spec() == m,
{
}

/// Three steps forward go round the three modes back to the start.
pub proof fn lemma_mode_cycle(m: DisplayMode)
    ensures
        m.next_spec().next_spec().next_spec() == m,
        m.next_spec() != m,
{
}

/// Which field an edit goes to.
#[derive(Debug, Clone, Copy, PartialEq, Eq, Structural)]
pub enum EditKind {
    Hex,
    Ascii,
}

/// What the keyboard currently drives.
#[derive(Debug, Clone, Copy, PartialEq, Eq, Structural)]
pub enum InputMode {
    Normal,
    Edit,
    SearchInput,
    GotoInput,
    GotoByteInput,
    StringSearchInput,
    SaveConfirm,
    Help,
    ModeSelect,
    ModeMenu,
    FileBrowser,
    Menu,
    About,
}

/// One byte change: where, the value before, the value after.
#[derive(Debug, Clone, Copy, PartialEq, Eq, Structural)]
pub struct UndoEntry {
    pub offset: usize,
    pub old: u8,
    pub new: u8,
}

/// The viewer state.
///
/// The file is shown in packs of `pack_size` (4096) bytes, 16 bytes a row.
/// Edits live in `overlay` (offset → new value) over the file's bytes;
/// `original_values` keeps the value an offset had before its first edit,
/// and `modified` records the edited offsets.
pub struct App {
    pub file_size: usize,
    pub pack_size: usize,
    pub total_packs: usize,
    pub current_pack: usize,
    pub scroll_top: usize,
    pub mode: DisplayMode,
    pub input_mode: InputMode,
    pub filename: String,
    pub cursor_byte: usize,
    pub cursor_nibble: usize,
    pub dirty: bool,
    pub undo_stack: Vec<UndoEntry>,
    pub redo_stack: Vec<UndoEntry>,
    pub overlay: HashMap<usize, u8>,
    pub last_modified: Option<usize>,
    pub flag_copy: bool,
    pub flag_track: bool,
    pub flag_inotify: bool,
    pub flag_immediate: bool,
    pub flag_lock: &'static str,
    pub modified: ModifiedMap,
    pub original_values: HashMap<usize, u8>,
    pub pending_ctrl_k: bool,
    pub search: Option<BitSearch>,
    pub search_active: bool,
    pub search_len: usize,
    pub current_match: Option<usize>,
    pub input_buf: String,
    pub input_prompt: String,
    pub save_selected: bool,
    pub sel_start: Option<usize>,
    pub sel_end: Option<usize>,
    pub dragging: bool,
    pub help_scroll: usize,
    pub help_dragging: bool,
    pub help_rect: Option<(u16, u16, u16, u16)>,
    pub cursor_focused: bool,
    pub is_color256: bool,
    pub is_rgb_bg: bool,
    pub is_hsl_bg: bool,
    pub is_gray_bg: bool,
    pub is_heat_bg: bool,
    pub is_hslbit_bg: bool,
    pub is_rgbbit_bg: bool,
    pub pending_file: Option<String>,
    pub menu_selected: usize,
    pub mode_menu_selected: usize,
}

impl App {
    /// `new` is `old` scrolled so that row `row` of the whole file (capped
    /// at the last row) is at the top of the view.
    #[verifier::opaque]
    pub open spec fn scrolled(new: App, old: App, row: int) -> bool {
        &&& new.current_pack == old.capped_row(row) / 256
        &&& new.scroll_top == old.capped_row(row) % 256
        &&& new == (App { current_pack: new.current_pack, scroll_top: new.scroll_top, ..old })
    }

    /// `row`, capped at the last row of the file.
    pub open spec fn capped_row(self, row: int) -> int {
        let last = if (self.file_size + 15) / 16 >= 1 {
            (self.file_size + 15) / 16 - 1
        } else {
            0
        };
        if row <= last {
            row
        } else {
            last
        }
    }

    /// `new` differs from `old` at most in its search index.
    #[verifier::opaque]
    pub open spec fn only_search_changed(new: App, old: App) -> bool {
        new == (App { search: new.search, ..old })
    }

    /// Row of the view's top after jumping to `pos` on a terminal of height
    /// `h`: the row of `pos` in its pack less half a screen, at least 0.
    pub open spec fn jump_top(pos: usize, h: u16) -> int {
        let row = (pos % 4096) / 16;
        let half = (if h >= 3 {
            h - 3
        } else {
            0
        }) / 2;
        if row >= half {
            row - half
        } else {
            0
        }
    }

    /// `new` is `old` after jumping to the match at `pos` on a terminal of
    /// height `h` (the search index aside): the match is current, its pack
    /// shown with its row about half a screen down, and the cursor on it.
    #[verifier::opaque]
    pub open spec fn jumped(new: App, old: App, pos: usize, h: u16) -> bool {
        &&& new.current_match == Some(pos)
        &&& new.current_pack == pos / 4096
        &&& new.scroll_top == App::jump_top(pos, h)
        &&& new.cursor_byte == pos
        &&& new.cursor_focused
        &&& new == (App {
            current_match: new.current_match,
            current_pack: new.current_pack,
            scroll_top: new.scroll_top,
            cursor_byte: new.cursor_byte,
            cursor_focused: new.cursor_focused,
            search: new.search,
            ..old
        })
    }
}

/// Rows of 16 bytes in a pack.
pub open spec fn rows_per_pack() -> int {
    256
}

impl App {
    /// The state every operation keeps: packs of 4096 bytes and as many of them
    /// as the file needs, a file below
    /// 1 TiB (the reach of the edit bitmap and of the search index), the
    /// first values kept only for offsets within the file, and a search index
    /// over this file.
    #[verifier::opaque]
    pub open spec fn wf(&self) -> bool {
        &&& self.pack_size == 4096
        &&& self.total_packs == (self.file_size + 4095) / 4096
        &&& self.file_size < OFFSET_LIMIT
        &&& self.file_size + 4096 <= usize::MAX
        &&& self.modified.wf()
        &&& forall|k: usize| #[trigger] self.original_values@.contains_key(k) ==> k < self.file_size
        &&& self.search matches Some(s) ==> s.wf() && s.count_room() && s.fsize() == self.file_size
    }

    /// The byte shown at `off`: the edited value if there is one, else the
    /// file's.
    pub open spec fn shown(&self, mmap: Seq<u8>, off: int) -> u8 {
        if 0 <= off <= usize::MAX && self.overlay@.contains_key(off as usize) {
            self.overlay@[off as usize]
        } else {
            mmap[off]
        }
    }

    /// A viewer of a file of `file_size` bytes: first pack, ASCII mode, no
    /// edits, no search.
    pub fn new(file_size: usize, filename: String) -> (r: Self)
        requires
            file_size < OFFSET_LIMIT,
            file_size + 4096 <= usize::MAX,
        ensures
            r.wf(),
            r.file_size == file_size,
            r.pack_size == 4096,
            r.total_packs == (file_size + 4095) / 4096,
            r.current_pack == 0 && r.scroll_top == 0,
            r.mode == DisplayMode::Ascii,
            r.input_mode == InputMode::Normal,
            r.filename == filename,
            r.cursor_byte == 0 && r.cursor_nibble == 0,
            !r.dirty,
            r.undo_stack@.len() == 0 && r.redo_stack@.len() == 0,
            r.overlay@ == Map::<usize, u8>::empty(),
            r.original_values@ == Map::<usize, u8>::empty(),
            forall|o: int| !#[trigger] r.modified.has(o),
            r.last_modified is None,
            r.search is None && !r.search_active && r.search_len == 0 && r.current_match is None,
            r.flag_lock@.len() == 0,
            !r.flag_copy && !r.flag_track && !r.flag_inotify && !r.flag_immediate,
            r.cursor_focused,
            !r.pending_ctrl_k && !r.save_selected && !r.dragging && !r.help_dragging,
            r.input_buf@.len() == 0 && r.input_prompt@.len() == 0,
            r.sel_start is None && r.sel_end is None && r.help_rect is None && r.pending_file is None,
            r.help_scroll == 0 && r.menu_selected == 0 && r.mode_menu_selected == 0,
            !r.is_color256 && !r.is_rgb_bg && !r.is_hsl_bg && !r.is_gray_bg && !r.is_heat_bg
                && !r.is_hslbit_bg && !r.is_rgbbit_bg,
    {
        proof {
            reveal(App::wf);
        }
        proof {
            reveal_strlit("");
        }
        let pack_size: usize = 4096;
        App {
            file_size,
            pack_size,
            total_packs: (file_size + pack_size - 1) / pack_size,
            current_pack: 0,
            scroll_top: 0,
            mode: DisplayMode::Ascii,
            input_mode: InputMode::Normal,
            filename,
            cursor_byte: 0,
            cursor_nibble: 0,
            dirty: false,
            undo_stack: Vec::new(),
            redo_stack: Vec::new(),
            overlay: HashMap::new(),
            last_modified: None,
            flag_copy: false,
            flag_track: false,
            flag_inotify: false,
            flag_immediate: false,
            flag_lock: "",
            modified: ModifiedMap::new(),
            original_values: HashMap::new(),
            pending_ctrl_k: false,
            search: None,
            search_active: false,
            search_len: 0,
            current_match: None,
            input_buf: String::new(),
            input_prompt: String::new(),
            save_selected: false,
            sel_start: None,
            sel_end: None,
            dragging: false,
            help_scroll: 0,
            help_dragging: false,
            help_rect: None,
            cursor_focused: true,
            is_color256: false,
            is_rgb_bg: false,
            is_hsl_bg: false,
            is_gray_bg: false,
            is_heat_bg: false,
            is_hslbit_bg: false,
            is_rgbbit_bg: false,
            pending_file: None,
            menu_selected: 0,
            mode_menu_selected: 0,
        }
    }

    /// Data rows that fit a terminal of height `h`: the top bar, the column
    /// header and the status bar take three rows.
    pub fn max_rows(&self, h: u16) -> (r: usize)
        ensures
            r == if h >= 3 {
                h - 3
            } else {
                0
            },
    {
        (h as usize).saturating_sub(3)
    }

    /// Bytes in the current pack (the last one may be short).
    pub fn data_len(&self) -> (r: usize)
        requires
            self.current_pack * self.pack_size <= self.file_size,
        ensures
            r == if self.pack_size <= self.file_size - self.current_pack * self.pack_size {
                self.pack_size as int
            } else {
                self.file_size - self.current_pack * self.pack_size
            },
    {
        let rest = self.file_size - self.current_pack * self.pack_size;
        if self.pack_size < rest {
            self.pack_size
        } else {
            rest
        }
    }

    /// Rows of 16 bytes in the current pack.
    pub fn total_rows(&self) -> (r: usize)
        requires
            self.current_pack * self.pack_size <= self.file_size,
            self.wf(),
        ensures
            r == (if 4096 <= self.file_size - self.current_pack * 4096 {
                4096
            } else {
                self.file_size - self.current_pack * 4096
            } + 15) / 16,
    {
        proof {
            lemma_wf_parts(*self);
        }
        (self.data_len() + 15) / 16
    }

    /// Rows of 16 bytes in the whole file.
    pub fn global_total_rows(&self) -> (r: usize)
        requires
            self.wf(),
        ensures
            r == (self.file_size + 15) / 16,
    {
        proof {
            lemma_wf_parts(*self);
        }
        (self.file_size + 15) / 16
    }

    /// Row of the whole file at the top of the view.
    pub fn global_scroll_top(&self) -> (r: usize)
        requires
            self.wf(),
            self.current_pack * 256 + self.scroll_top <= usize::MAX,
        ensures
            r == self.current_pack * 256 + self.scroll_top,
    {
        proof {
            lemma_wf_parts(*self);
        }
        self.current_pack * (self.pack_size / 16) + self.scroll_top
    }

    /// Pack and row within it of a row of the whole file (the pack capped
    /// at the last one).
    pub fn global_to_local(&self, grow: usize) -> (r: (usize, usize))
        requires
            self.wf(),
        ensures
            r.0 == if self.total_packs == 0 {
                0
            } else if grow / 256 <= self.total_packs - 1 {
                (grow / 256) as int
            } else {
                self.total_packs - 1
            },
            r.1 == grow % 256,
    {
        proof {
            lemma_wf_parts(*self);
        }
        let pack_idx = grow / (self.pack_size / 16);
        let row_in_pack = grow % (self.pack_size / 16);
        let last = self.total_packs.saturating_sub(1);
        (if pack_idx < last {
            pack_idx
        } else {
            last
        }, row_in_pack)
    }

    /// Scrolls so that row `global_row` of the whole file (capped at the
    /// last row) is at the top.
    #[verifier::rlimit(30)]
    pub fn set_global_scroll(&mut self, global_row: usize)
        requires
            old(self).wf(),
        ensures
            App::scrolled(*final(self), *old(self), global_row as int),
    {
        proof {
            lemma_wf_parts(*self);
        }
        let rows_per_pack = self.pack_size / 16;
        let max_global = self.global_total_rows().saturating_sub(1);
        let g = if global_row < max_global {
            global_row
        } else {
            max_global
        };
        assert(g == self.capped_row(global_row as int));
        self.current_pack = g / rows_per_pack;
        self.scroll_top = g % rows_per_pack;
        assert(App::scrolled(*self, *old(self), global_row as int)) by {
            reveal(App::scrolled);
        }
    }
}


impl App {
    /// Letters of the active flags, in order: `i` immediate writes, `f` or
    /// `4` for the lock, `T` inotify tracking or else `t` tracking, `c` copy.
    pub open spec fn mods_spec(&self) -> Seq<char> {
        (if self.flag_immediate {
            seq!['i']
        } else {
            seq![]
        }) + (if self.flag_lock@ == "f"@ {
            seq!['f']
        } else if self.flag_lock@ == "4"@ {
            seq!['4']
        } else {
            seq![]
        }) + (if self.flag_inotify {
            seq!['T']
        } else if self.flag_track {
            seq!['t']
        } else {
            seq![]
        }) + (if self.flag_copy {
            seq!['c']
        } else {
            seq![]
        })
    }

    /// The letters of the active flags (empty when none is).
    pub fn mods_string(&self) -> (r: String)
        ensures
            r@ == self.mods_spec(),
    {
        proof {
            reveal_strlit("");
            reveal_strlit("i");
            reveal_strlit("f");
            reveal_strlit("4");
            reveal_strlit("T");
            reveal_strlit("t");
            reveal_strlit("c");
        }
        let mut mods = String::from_str("");
        if self.flag_immediate {
            mods.append("i");
        }
        if same_text(self.flag_lock, "f") {
            mods.append("f");
        } else if same_text(self.flag_lock, "4") {
            mods.append("4");
        }
        if self.flag_inotify {
            mods.append("T");
        } else if self.flag_track {
            mods.append("t");
        }
        if self.flag_copy {
            mods.append("c");
        }
        proof {
            assert(mods@ =~= self.mods_spec());
        }
        mods
    }

    /// The byte range of the current match while a search is active.
    pub fn current_match_range(&self) -> (r: Option<(usize, usize)>)
        requires
            self.current_match matches Some(p) ==> p + self.search_len <= usize::MAX,
        ensures
            r == if self.search_active && self.current_match is Some {
                Some((self.current_match->0, (self.current_match->0 + self.search_len) as usize))
            } else {
                None::<(usize, usize)>
            },
    {
        if !self.search_active {
            return None;
        }
        match self.current_match {
            Some(pos) => Some((pos, pos + self.search_len)),
            None => None,
        }
    }

    /// Ends the search.
    pub fn clear_search(&mut self)
        ensures
            *final(self) == (App {
                search_active: false,
                search: None,
                current_match: None,
                search_len: 0,
                ..*old(self)
            }),
    {
        self.search_active = false;
        self.search = None;
        self.current_match = None;
        self.search_len = 0;
    }
}


/// The next match after `from` in the search, if there is one.
fn search_next(search: &mut Option<BitSearch>, data: &[u8], from: usize) -> (r: Option<usize>)
    requires
        *old(search) matches Some(s) ==> s.wf() && s.count_room(),
    ensures
        (*final(search) is Some) == (*old(search) is Some),
        *final(search) matches Some(s) ==> s.wf() && s.count_room() && s.same_setup(&(*old(search))->0),
        *old(search) is None ==> r is None,
        *old(search) matches Some(s) ==> s.is_next(data@, probe_of(from), r),
{
    match search {
        Some(s) => s.next_match_after(data, from),
        None => None,
    }
}

/// The match before `from` in the search, if there is one.
fn search_prev(search: &Option<BitSearch>, data: &[u8], from: usize) -> (r: Option<usize>)
    requires
        *search matches Some(s) ==> s.wf(),
    ensures
        *search is None ==> r is None,
        *search matches Some(s) ==> s.is_prev(data@, from as int, r),
{
    match search {
        Some(s) => s.prev_match_before(data, from),
        None => None,
    }
}

impl App {
    /// Runs the search for the next match after `from`; only the search
    /// index changes.
    #[verifier::rlimit(30)]
    pub(crate) fn step_next(&mut self, data: &[u8], from: usize) -> (r: Option<usize>)
        requires
            old(self).wf(),
        ensures
            final(self).search matches Some(s) ==> s.same_setup(&old(self).search->0),
            final(self).wf(),
            App::only_search_changed(*final(self), *old(self)),
            (final(self).search is Some) == (old(self).search is Some),
            old(self).search is None ==> r is None,
            old(self).search matches Some(s0) ==> s0.is_next(data@, probe_of(from), r),
    {
        proof {
            lemma_wf_parts(*self);
        }
        let r = search_next(&mut self.search, data, from);
        proof {
            lemma_wf_after_search(*self, *old(self));
        }
        assert(App::only_search_changed(*self, *old(self))) by {
            reveal(App::only_search_changed);
        }
        r
    }

    /// Runs the search for the match before `from`; only the search index
    /// changes.
    #[verifier::rlimit(30)]
    pub(crate) fn step_prev(&mut self, data: &[u8], from: usize) -> (r: Option<usize>)
        requires
            old(self).wf(),
        ensures
            final(self).search matches Some(s) ==> s.same_setup(&old(self).search->0),
            final(self).wf(),
            App::only_search_changed(*final(self), *old(self)),
            (final(self).search is Some) == (old(self).search is Some),
            old(self).search is None ==> r is None,
            old(self).search matches Some(s0) ==> s0.is_prev(data@, from as int, r),
    {
        proof {
            lemma_wf_parts(*self);
        }
        let r = search_prev(&self.search, data, from);
        assert(App::only_search_changed(*self, *old(self))) by {
            reveal(App::only_search_changed);
        }
        r
    }
}

/// Matches of `s` in `data` that start before `upto`.
pub open spec fn matches_before(s: BitSearch, data: Seq<u8>, upto: int) -> nat
    decreases upto,
{
    if upto <= 0 {
        0
    } else {
        matches_before(s, data, upto - 1) + if s.match_at(data, upto - 1) {
            1nat
        } else {
            0nat
        }
    }
}


impl App {
    /// The place of the current match among all matches, counted from 1:
    /// one more than the number of matches that start before it; 0 without
    /// a current match or a search.
    pub fn current_match_number(&self, data: &[u8]) -> (r: usize)
        requires
            self.wf(),
        ensures
            r == match (self.current_match, self.search) {
                (Some(pos), Some(s)) => {
                    let k = matches_before(s, data@, pos as int);
                    if k < usize::MAX {
                        k + 1
                    } else {
                        k + 0
                    }
                },
                _ => 0,
            },
    {
        proof {
            lemma_wf_parts(*self);
        }
        let pos = match self.current_match {
            Some(p) => p,
            None => {
                return 0;
            },
        };
        let s = match &self.search {
            Some(s) => s,
            None => {
                return 0;
            },
        };
        let mut count: usize = 0;
        let mut p: usize = 0;
        while p < pos
            invariant
                s.wf(),
                p <= pos,
                count <= p,
                count == matches_before(*s, data@, p as int),
            decreases pos - p,
        {
            if s.matches_at(data, p) {
                count += 1;
            }
            p += 1;
        }
        if count < usize::MAX {
            count + 1
        } else {
            count
        }
    }

    /// Makes the match at `pos` current and shows it: its pack, its row
    /// about half a screen down, the cursor on it.
    pub fn jump_to_match(&mut self, pos: usize, h: u16)
        requires
            old(self).wf(),
        ensures
            final(self).wf(),
            App::jumped(*final(self), *old(self), pos, h),
            final(self).current_match == Some(pos),
            final(self).search == old(self).search,
    {
        proof {
            lemma_wf_parts(*self);
        }
        self.current_match = Some(pos);
        self.current_pack = pos / self.pack_size;
        let row = (pos % self.pack_size) / 16;
        let mr = self.max_rows(h);
        self.scroll_top = row.saturating_sub(mr / 2);
        self.cursor_byte = pos;
        self.cursor_focused = true;
        assert(App::jumped(*self, *old(self), pos, h)) by {
            reveal(App::jumped);
        }
        assert(self.wf()) by {
            lemma_wf_keep(*self, *old(self));
        }
    }

    /// Where `a` is left by a step that reached a match when `moved`: the
    /// match made current, else none.
    pub open spec fn reached(moved: bool, a: App) -> Option<usize> {
        if moved {
            a.current_match
        } else {
            None
        }
    }

    /// Where the search for the next match starts: after the current match,
    /// at offset 0 without one.
    pub open spec fn after_current(a: App) -> int {
        match a.current_match {
            Some(p) => probe_of(p),
            None => 0,
        }
    }

    /// Where the search for the previous match ends: at the current match,
    /// at the end of the file without one.
    pub open spec fn before_current(a: App) -> int {
        match a.current_match {
            Some(p) => p as int,
            None => a.file_size as int,
        }
    }

    /// Moves to the next match after the current one (the first one from
    /// offset 0 on without one), scanning on demand: the least offset where
    /// a match starts; `false`, with only the index changed, when there is
    /// none.
    pub fn next_global(&mut self, data: &[u8], h: u16) -> (r: bool)
        requires
            old(self).wf(),
        ensures
            final(self).wf(),
            !r ==> App::only_search_changed(*final(self), *old(self)),
            r ==> App::jumped(*final(self), *old(self), final(self).current_match->0, h),
            old(self).search is None ==> !r,
            old(self).search matches Some(s0) ==> s0.is_next(data@, App::after_current(*old(self)), App::reached(r, *final(self))),
    {
        proof {
            lemma_wf_parts(*self);
        }
        let from = match self.current_match {
            Some(p) => p,
            None => usize::MAX,
        };
        let found = self.step_next(data, from);
        let ghost mid = *self;
        match found {
            Some(pos) => {
                self.jump_to_match(pos, h);
                assert(App::jumped(*self, *old(self), pos, h)) by {
                    lemma_jumped_after_search(*self, mid, *old(self), pos, h);
                }
                true
            },
            None => false,
        }
    }

    /// Moves to the match before the current one (before the end of the file
    /// without one): the greatest offset below it where a match starts;
    /// `false` when there is none.
    pub fn prev_global(&mut self, data: &[u8], h: u16) -> (r: bool)
        requires
            old(self).wf(),
        ensures
            final(self).wf(),
            (final(self).search is Some) == (old(self).search is Some),
            r ==> App::jumped(*final(self), *old(self), final(self).current_match->0, h),
            !r ==> App::only_search_changed(*final(self), *old(self)),
            old(self).search is None ==> !r,
            old(self).search matches Some(s0) ==> s0.is_prev(data@, App::before_current(*old(self)), App::reached(r, *final(self))),
    {
        proof {
            lemma_wf_parts(*self);
        }
        let from = match self.current_match {
            Some(p) => p,
            None => self.file_size,
        };
        let found = self.step_prev(data, from);
        let ghost mid = *self;
        match found {
            Some(pos) => {
                self.jump_to_match(pos, h);
                assert(App::jumped(*self, *old(self), pos, h)) by {
                    lemma_jumped_after_search(*self, mid, *old(self), pos, h);
                }
                true
            },
            None => false,
        }
    }

    /// Moves to the first match at or after the start of pack `target_pack`
    /// (scanning on demand): the least offset from there on where a match
    /// starts; `false` when there is none.
    pub fn jump_to_page_match(&mut self, target_pack: usize, data: &[u8], h: u16) -> (r: bool)
        requires
            old(self).wf(),
            target_pack * 4096 <= usize::MAX,
        ensures
            final(self).wf(),
            (final(self).search is Some) == (old(self).search is Some),
            r ==> App::jumped(*final(self), *old(self), final(self).current_match->0, h),
            !r ==> App::only_search_changed(*final(self), *old(self)),
            old(self).search is None ==> !r,
            old(self).search matches Some(s0) ==> s0.is_next(data@, target_pack * 4096, App::reached(r, *final(self))),
    {
        proof {
            lemma_wf_parts(*self);
        }
        let start_off = target_pack * self.pack_size;
        let from = if start_off > 0 {
            start_off - 1
        } else {
            usize::MAX
        };
        let found = self.step_next(data, from);
        let ghost mid = *self;
        match found {
            Some(pos) => {
                self.jump_to_match(pos, h);
                assert(App::jumped(*self, *old(self), pos, h)) by {
                    lemma_jumped_after_search(*self, mid, *old(self), pos, h);
                }
                true
            },
            None => false,
        }
    }

    /// Moves to the last match that starts in pack `target_pack` or an
    /// earlier one (before the end of the file): the greatest such offset;
    /// `false` when there is none.
    pub fn jump_to_page_match_prev(&mut self, target_pack: usize, data: &[u8], h: u16) -> (r: bool)
        requires
            old(self).wf(),
            (target_pack + 1) * 4096 <= usize::MAX,
        ensures
            final(self).wf(),
            (final(self).search is Some) == (old(self).search is Some),
            r ==> App::jumped(*final(self), *old(self), final(self).current_match->0, h),
            !r ==> App::only_search_changed(*final(self), *old(self)),
            old(self).search is None ==> !r,
            old(self).search matches Some(s0) ==> s0.is_prev(
                data@,
                if (target_pack + 1) * 4096 < old(self).file_size {
                    (target_pack + 1) * 4096
                } else {
                    old(self).file_size as int
                },
                App::reached(r, *final(self)),
            ),
    {
        proof {
            lemma_wf_parts(*self);
        }
        let end_all = (target_pack + 1) * self.pack_size;
        let end_off = if end_all < self.file_size {
            end_all
        } else {
            self.file_size
        };
        let found = self.step_prev(data, end_off);
        let ghost mid = *self;
        match found {
            Some(pos) => {
                self.jump_to_match(pos, h);
                assert(App::jumped(*self, *old(self), pos, h)) by {
                    lemma_jumped_after_search(*self, mid, *old(self), pos, h);
                }
                true
            },
            None => false,
        }
    }

    /// Scrolls (across packs) so that the cursor's row is on screen: up to
    /// it when it is above the view, so that it is the last row when it is
    /// below.
    pub fn ensure_cursor_visible(&mut self, h: u16)
        requires
            old(self).wf(),
            old(self).current_pack * 256 + old(self).scroll_top + h <= usize::MAX,
            h >= 4 || old(self).cursor_byte / 16 < old(self).current_pack * 256 + old(self).scroll_top,
        ensures
            ({
                let row = old(self).cursor_byte / 16;
                let top = old(self).current_pack * 256 + old(self).scroll_top;
                let mr = if h >= 3 {
                    h - 3
                } else {
                    0
                };
                let target = if row < top {
                    row as int
                } else if row >= top + mr {
                    if row >= mr - 1 {
                        row - (mr - 1)
                    } else {
                        0
                    }
                } else {
                    -1
                };
                if target < 0 {
                    *final(self) == *old(self)
                } else {
                    App::scrolled(*final(self), *old(self), target)
                }
            }),
    {
        proof {
            lemma_wf_parts(*self);
        }
        let rows_per_pack = self.pack_size / 16;
        let pk = self.cursor_byte / self.pack_size;
        let row_in_pack = (self.cursor_byte % self.pack_size) / 16;
        let global_row = pk * rows_per_pack + row_in_pack;
        let gscroll = self.global_scroll_top();
        let mr = self.max_rows(h);
        assert(global_row == self.cursor_byte / 16) by {
            assert(pk * 256 + row_in_pack == self.cursor_byte / 16) by (nonlinear_arith)
                requires
                    pk == self.cursor_byte / 4096,
                    row_in_pack == (self.cursor_byte % 4096) / 16,
            ;
        }
        if global_row < gscroll {
            self.set_global_scroll(global_row);
        } else if global_row >= gscroll + mr {
            self.set_global_scroll(global_row.saturating_sub(mr - 1));
        }
    }
}

/// The state stays well formed when the fields it speaks of stay, and a
/// search index, if any, is well formed over the same file.
pub proof fn lemma_wf_keep(new: App, old: App)
    requires
        old.wf(),
        new.total_packs == old.total_packs,
        new.pack_size == old.pack_size,
        new.file_size == old.file_size,
        new.modified == old.modified,
        new.original_values == old.original_values,
        new.search matches Some(s) ==> s.wf() && s.count_room() && s.fsize() == new.file_size,
    ensures
        new.wf(),
{
    reveal(App::wf);
}

/// What a jump keeps and sets, field by field.
pub proof fn lemma_jumped_fields(new: App, old: App, pos: usize, h: u16)
    requires
        App::jumped(new, old, pos, h),
    ensures
        new.current_match == Some(pos),
        new.cursor_byte == pos,
        new.current_pack == pos / 4096,
        new.scroll_top == App::jump_top(pos, h),
        new.cursor_focused,
        new.overlay == old.overlay,
        new.undo_stack == old.undo_stack,
        new.redo_stack == old.redo_stack,
        new.original_values == old.original_values,
        new.modified == old.modified,
        new.file_size == old.file_size,
        new.mode == old.mode,
        new.search_active == old.search_active,
        new.search_len == old.search_len,
{
    reveal(App::jumped);
}

/// What a search step keeps, field by field.
pub proof fn lemma_search_step_fields(new: App, old: App)
    requires
        App::only_search_changed(new, old),
    ensures
        new.current_match == old.current_match,
        new.cursor_byte == old.cursor_byte,
        new.overlay == old.overlay,
        new.undo_stack == old.undo_stack,
        new.redo_stack == old.redo_stack,
        new.original_values == old.original_values,
        new.modified == old.modified,
        new.file_size == old.file_size,
        new.mode == old.mode,
        new.search_active == old.search_active,
        new.search_len == old.search_len,
{
    reveal(App::only_search_changed);
}

/// A step that changed only the search index, to one well formed over the
/// same file, keeps the state well formed.
proof fn lemma_wf_after_search(new: App, old: App)
    requires
        old.wf(),
        new == (App { search: new.search, ..old }),
        new.search matches Some(s) ==> s.wf() && s.count_room() && s.same_setup(&old.search->0),
        (new.search is Some) ==> (old.search is Some),
    ensures
        new.wf(),
{
    reveal(App::wf);
}

/// The state stays well formed through an edit that keeps the file, the
/// packs and the search, when the edit records stay well formed and first
/// values are kept only for offsets within the file.
pub proof fn lemma_wf_edit(new: App, old: App)
    requires
        old.wf(),
        new.total_packs == old.total_packs,
        new.pack_size == old.pack_size,
        new.file_size == old.file_size,
        new.search == old.search,
        new.modified.wf(),
        forall|k: usize| #[trigger] new.original_values@.contains_key(k) ==> k < new.file_size,
    ensures
        new.wf(),
{
    reveal(App::wf);
}

/// The state stays well formed through a step that keeps the file, the
/// packs, the search and both edit records.
pub proof fn lemma_wf_same_records(new: App, old: App)
    requires
        old.wf(),
        new.total_packs == old.total_packs,
        new.pack_size == old.pack_size,
        new.file_size == old.file_size,
        new.search == old.search,
        new.modified == old.modified,
        new.original_values == old.original_values,
    ensures
        new.wf(),
{
    reveal(App::wf);
}

/// The edit records of a well-formed state.
pub proof fn lemma_wf_records(a: App)
    requires
        a.wf(),
    ensures
        a.modified.wf(),
        forall|k: usize| #[trigger] a.original_values@.contains_key(k) ==> k < a.file_size,
{
    reveal(App::wf);
}

/// What a well-formed state gives besides its edit records.
pub proof fn lemma_wf_parts(a: App)
    requires
        a.wf(),
    ensures
        a.pack_size == 4096,
        a.total_packs == (a.file_size + 4095) / 4096,
        a.file_size < OFFSET_LIMIT,
        a.file_size + 4096 <= usize::MAX,
        a.search matches Some(s) ==> s.wf() && s.count_room() && s.fsize() == a.file_size,
{
    reveal(App::wf);
}

/// Jumping after a step that changed only the search index is jumping from
/// the state before that step.
proof fn lemma_jumped_after_search(new: App, mid: App, old: App, pos: usize, h: u16)
    requires
        App::jumped(new, mid, pos, h),
        App::only_search_changed(mid, old),
    ensures
        App::jumped(new, old, pos, h),
{
    reveal(App::jumped);
    reveal(App::only_search_changed);
}


/// The packs of a well-formed state cover the file exactly: every byte lies
/// in one of them, and the last one holds at least one byte.
pub proof fn lemma_packs_cover_file(a: App)
    requires
        a.wf(),
    ensures
        a.file_size <= a.total_packs * 4096,
        a.total_packs > 0 ==> (a.total_packs - 1) * 4096 < a.file_size,
        forall|off: int| 0 <= off < a.file_size ==> #[trigger] (off / 4096) < a.total_packs,
{
    lemma_wf_parts(a);
    let n = a.total_packs as int;
    let f = a.file_size as int;
    assert(n == (f + 4095) / 4096);
    assert(f <= n * 4096 && (n > 0 ==> (n - 1) * 4096 < f)) by (nonlinear_arith)
        requires
            n == (f + 4095) / 4096,
            f >= 0,
    {
    }
    assert forall|off: int| 0 <= off < f implies #[trigger] (off / 4096) < n by {
        assert(off / 4096 < n) by (nonlinear_arith)
            requires
                0 <= off < f,
                f <= n * 4096,
        {
        }
    }
}

} // verus!

//! Keys of the popups and prompts (help, menu, about, display-mode chooser,
//! save prompt), the background-scheme switches, and the text a copy of
//! the selection puts on the clipboard. The caller turns terminal events
//! into `KeyPress` values and carries out the returned `Action`.
use vstd::prelude::*;
use crate::app::{App, DisplayMode, InputMode};
use crate::render::{digit_value, hex2, hex2_string, law_hex2_reads_back};
use crate::text::string_from;
use crate::edit::{lemma_redo_reapplies, lemma_undo_restores};
use crate::utf8_span::{decode_row, span_segments, Segment};

verus! {

/// A key, as far as the viewer tells keys apart.
#[derive(Debug, Clone, Copy, PartialEq, Eq, Structural)]
pub enum Key {
    Char(char),
    Up,
    Down,
    Left,
    Right,
    PageUp,
    PageDown,
    Home,
    Enter,
    Tab,
    Esc,
    Backspace,
    Other,
}

/// A key press with its modifiers.
#[derive(Debug, Clone, Copy, PartialEq, Eq, Structural)]
pub struct KeyPress {
    pub key: Key,
    pub ctrl: bool,
    pub alt: bool,
}

/// What the caller is to do after a key press.
#[derive(Debug, Clone)]
pub enum Action {
    Nothing,
    /// Leave the viewer.
    Quit,
    /// Write the file's bytes back to it.
    Save,
    /// Write the file's bytes back to it, then leave.
    SaveAndQuit,
    /// Put this text on the clipboard.
    Copy(String),
    /// Write the sample file of all byte values; when that succeeds, call
    /// `open_sample` and leave.
    WriteSample,
    /// Leave for the file browser.
    ReopenBrowser,
}

/// `n - d`, at least 0.
pub open spec fn sat_sub(n: int, d: int) -> int {
    if n >= d {
        n - d
    } else {
        0
    }
}

/// Esc and `q` close a popup.
pub open spec fn closes(k: Key) -> bool {
    k == Key::Esc || k == Key::Char('q')
}

/// The help popup's scroll after key `k`: Up/`k` and Down/`j` move a row,
/// PageUp and PageDown ten rows.
pub open spec fn help_scroll_after(s: usize, k: Key) -> int {
    match k {
        Key::Up | Key::Char('k') => sat_sub(s as int, 1),
        Key::Down | Key::Char('j') => s + 1,
        Key::PageUp => sat_sub(s as int, 10),
        Key::PageDown => s + 10,
        _ => s as int,
    }
}

fn help_step(mode: &mut InputMode, scroll: &mut usize, k: Key)
    requires
        *old(scroll) + 10 <= usize::MAX,
    ensures
        *final(mode) == if closes(k) {
            InputMode::Normal
        } else {
            *old(mode)
        },
        *final(scroll) == help_scroll_after(*old(scroll), k),
{
    match k {
        Key::Esc | Key::Char('q') => {
            *mode = InputMode::Normal;
        },
        Key::Up | Key::Char('k') => {
            *scroll = scroll.saturating_sub(1);
        },
        Key::Down | Key::Char('j') => {
            *scroll = *scroll + 1;
        },
        Key::PageUp => {
            *scroll = scroll.saturating_sub(10);
        },
        Key::PageDown => {
            *scroll = *scroll + 10;
        },
        _ => {},
    }
}

/// Menu keys that open help: `h`, or Enter on the first entry.
pub open spec fn menu_opens_help(sel: usize, k: Key) -> bool {
    k == Key::Char('h') || (k == Key::Enter && sel == 0)
}

/// Menu keys that open the about popup: `a`, or Enter on the third entry.
pub open spec fn menu_opens_about(sel: usize, k: Key) -> bool {
    k == Key::Char('a') || (k == Key::Enter && sel == 2)
}

/// Menu keys that ask for the sample file: `s`, or Enter on its entry.
pub open spec fn menu_wants_sample(sel: usize, k: Key) -> bool {
    k == Key::Char('s') || (k == Key::Enter && sel == 1)
}

/// The input mode after key `k` in the menu.
pub open spec fn menu_mode_after(m: InputMode, sel: usize, k: Key) -> InputMode {
    if closes(k) {
        InputMode::Normal
    } else if menu_opens_help(sel, k) {
        InputMode::Help
    } else if menu_opens_about(sel, k) {
        InputMode::About
    } else {
        m
    }
}

/// The selected menu entry after key `k`: Up/`k` and Down/`j` move among
/// the three entries.
pub open spec fn menu_sel_after(sel: usize, k: Key) -> int {
    match k {
        Key::Up | Key::Char('k') => sat_sub(sel as int, 1),
        Key::Down | Key::Char('j') => if sel < 2 {
            sel + 1
        } else {
            sel as int
        },
        _ => sel as int,
    }
}

fn menu_step(mode: &mut InputMode, scroll: &mut usize, sel: &mut usize, k: Key) -> (sample: bool)
    ensures
        *final(mode) == menu_mode_after(*old(mode), *old(sel), k),
        *final(scroll) == if menu_opens_help(*old(sel), k) {
            0
        } else {
            *old(scroll)
        },
        *final(sel) == menu_sel_after(*old(sel), k),
        sample == menu_wants_sample(*old(sel), k),
{
    match k {
        Key::Esc | Key::Char('q') => {
            *mode = InputMode::Normal;
            false
        },
        Key::Up | Key::Char('k') => {
            *sel = sel.saturating_sub(1);
            false
        },
        Key::Down | Key::Char('j') => {
            if *sel < 2 {
                *sel = *sel + 1;
            }
            false
        },
        Key::Enter => {
            if *sel == 0 {
                *mode = InputMode::Help;
                *scroll = 0;
                false
            } else if *sel == 1 {
                true
            } else {
                if *sel == 2 {
                    *mode = InputMode::About;
                }
                false
            }
        },
        Key::Char('h') => {
            *mode = InputMode::Help;
            *scroll = 0;
            false
        },
        Key::Char('s') => true,
        Key::Char('a') => {
            *mode = InputMode::About;
            false
        },
        _ => false,
    }
}

/// The seven background-scheme switches, in order: 256 colours, RGB, HSL,
/// gray, heat, HSL by bits, RGB by bits.
pub open spec fn bg_flags(a: App) -> Seq<bool> {
    seq![a.is_color256, a.is_rgb_bg, a.is_hsl_bg, a.is_gray_bg, a.is_heat_bg, a.is_hslbit_bg, a.is_rgbbit_bg]
}

/// The switches after pressing the radio button of scheme `i`: it toggles,
/// and turning it on turns every other one off.
pub open spec fn radio(f: Seq<bool>, i: int) -> Seq<bool> {
    Seq::new(7, |j: int| if j == i { !f[i] } else { f[j] && f[i] })
}

/// The switches after stepping to the next scheme: the first one that is
/// on goes off and the one after it comes on; after the last comes none,
/// after none the first.
pub open spec fn cycle(f: Seq<bool>) -> Seq<bool> {
    if f[0] {
        f.update(0, false).update(1, true)
    } else if f[1] {
        f.update(1, false).update(2, true)
    } else if f[2] {
        f.update(2, false).update(3, true)
    } else if f[3] {
        f.update(3, false).update(4, true)
    } else if f[4] {
        f.update(4, false).update(5, true)
    } else if f[5] {
        f.update(5, false).update(6, true)
    } else if f[6] {
        f.update(6, false)
    } else {
        f.update(0, true)
    }
}

/// Seven switches as a sequence.
pub open spec fn seven(t: (bool, bool, bool, bool, bool, bool, bool)) -> Seq<bool> {
    seq![t.0, t.1, t.2, t.3, t.4, t.5, t.6]
}

/// The background switches after pressing the radio button of scheme `i`
/// (see `radio`).
pub fn radio_flags(t: (bool, bool, bool, bool, bool, bool, bool), i: u8) -> (r: (
    bool,
    bool,
    bool,
    bool,
    bool,
    bool,
    bool,
))
    requires
        i < 7,
    ensures
        seven(r) == radio(seven(t), i as int),
{
    let on = !match i {
        0 => t.0,
        1 => t.1,
        2 => t.2,
        3 => t.3,
        4 => t.4,
        5 => t.5,
        _ => t.6,
    };
    let r = (
        if i == 0 { on } else { t.0 && !on },
        if i == 1 { on } else { t.1 && !on },
        if i == 2 { on } else { t.2 && !on },
        if i == 3 { on } else { t.3 && !on },
        if i == 4 { on } else { t.4 && !on },
        if i == 5 { on } else { t.5 && !on },
        if i == 6 { on } else { t.6 && !on },
    );
    assert(seven(r) =~= radio(seven(t), i as int));
    r
}

/// The background switches after stepping to the next scheme (see
/// `cycle`).
pub fn cycle_flags(t: (bool, bool, bool, bool, bool, bool, bool)) -> (r: (
    bool,
    bool,
    bool,
    bool,
    bool,
    bool,
    bool,
))
    ensures
        seven(r) == cycle(seven(t)),
{
    let (f0, f1, f2, f3, f4, f5, f6) = t;
    let r = if f0 {
        (false, true, f2, f3, f4, f5, f6)
    } else if f1 {
        (f0, false, true, f3, f4, f5, f6)
    } else if f2 {
        (f0, f1, false, true, f4, f5, f6)
    } else if f3 {
        (f0, f1, f2, false, true, f5, f6)
    } else if f4 {
        (f0, f1, f2, f3, false, true, f6)
    } else if f5 {
        (f0, f1, f2, f3, f4, false, true)
    } else if f6 {
        (f0, f1, f2, f3, f4, f5, false)
    } else {
        (true, f1, f2, f3, f4, f5, f6)
    };
    assert(seven(r) =~= cycle(seven(t)));
    r
}

/// Mode-chooser keys that close it: Esc, `q`, Enter, space, and `1` to `3`
/// (which also pick a mode).
pub open spec fn chooser_closes(k: Key) -> bool {
    match k {
        Key::Esc | Key::Char('q') | Key::Enter | Key::Char(' ') | Key::Char('1') | Key::Char('2')
        | Key::Char('3') => true,
        _ => false,
    }
}

/// The display mode after key `k` in the chooser: Up/`k` and Down/`j` step
/// through the modes, `1` to `3` pick ASCII, hex, UTF-8.
pub open spec fn chooser_mode_after(m: DisplayMode, k: Key) -> DisplayMode {
    match k {
        Key::Up | Key::Char('k') => m.prev_spec(),
        Key::Down | Key::Char('j') => m.next_spec(),
        Key::Char('1') => DisplayMode::Ascii,
        Key::Char('2') => DisplayMode::Hex,
        Key::Char('3') => DisplayMode::Utf8,
        _ => m,
    }
}

/// The background scheme whose radio button key `k` presses in the
/// chooser: `4` to `9` the first six, `0` the last; -1 for other keys.
pub open spec fn chooser_radio(k: Key) -> int {
    match k {
        Key::Char('4') => 0,
        Key::Char('5') => 1,
        Key::Char('6') => 2,
        Key::Char('7') => 3,
        Key::Char('8') => 4,
        Key::Char('9') => 5,
        Key::Char('0') => 6,
        _ => -1,
    }
}

fn radio_of(k: Key) -> (r: Option<u8>)
    ensures
        r matches Some(i) ==> i < 7 && i == chooser_radio(k),
        r is None ==> chooser_radio(k) == -1,
{
    match k {
        Key::Char('4') => Some(0),
        Key::Char('5') => Some(1),
        Key::Char('6') => Some(2),
        Key::Char('7') => Some(3),
        Key::Char('8') => Some(4),
        Key::Char('9') => Some(5),
        Key::Char('0') => Some(6),
        _ => None,
    }
}

fn chooser_step(mode: &mut DisplayMode, input: &mut InputMode, k: Key)
    ensures
        *final(mode) == chooser_mode_after(*old(mode), k),
        *final(input) == if chooser_closes(k) {
            InputMode::Normal
        } else {
            *old(input)
        },
{
    match k {
        Key::Esc | Key::Char('q') | Key::Enter | Key::Char(' ') => {
            *input = InputMode::Normal;
        },
        Key::Up | Key::Char('k') => {
            *mode = mode.prev();
        },
        Key::Down | Key::Char('j') => {
            *mode = mode.next();
        },
        Key::Char('1') => {
            *mode = DisplayMode::Ascii;
            *input = InputMode::Normal;
        },
        Key::Char('2') => {
            *mode = DisplayMode::Hex;
            *input = InputMode::Normal;
        },
        Key::Char('3') => {
            *mode = DisplayMode::Utf8;
            *input = InputMode::Normal;
        },
        _ => {},
    }
}

/// The keys of the save prompt by what they do: 0 toggles the choice, 1
/// saves and leaves, 2 leaves without saving, 3 follows the choice, 4
/// does nothing.
pub open spec fn save_key_kind(k: Key) -> int {
    match k {
        Key::Left | Key::Char('h') | Key::Right | Key::Char('l') => 0,
        Key::Char('y') | Key::Char('Y') => 1,
        Key::Char('n') | Key::Char('N') | Key::Esc => 2,
        Key::Enter | Key::Char(' ') => 3,
        _ => 4,
    }
}

/// Whether key `k` in the save prompt writes the file.
pub open spec fn save_writes(selected: bool, k: Key) -> bool {
    save_key_kind(k) == 1 || (save_key_kind(k) == 3 && selected)
}

/// Key `k` in the save prompt, on its choice `selected` and the `dirty`
/// flag: the arrows (and `h`, `l`) toggle the choice, `y` saves and
/// leaves, `n` or Esc leaves without saving, Enter or space does what the
/// choice says. Saving clears `dirty`; the caller writes the file.
pub fn save_prompt_key(selected: &mut bool, dirty: &mut bool, k: Key) -> (r: Action)
    ensures
        *final(selected) == if save_key_kind(k) == 0 {
            !*old(selected)
        } else {
            *old(selected)
        },
        *final(dirty) == if save_writes(*old(selected), k) {
            false
        } else {
            *old(dirty)
        },
        save_writes(*old(selected), k) ==> r is SaveAndQuit,
        !save_writes(*old(selected), k) && 2 <= save_key_kind(k) <= 3 ==> r is Quit,
        save_key_kind(k) == 0 || save_key_kind(k) == 4 ==> r is Nothing,
{
    match k {
        Key::Left | Key::Char('h') | Key::Right | Key::Char('l') => {
            *selected = !*selected;
            Action::Nothing
        },
        Key::Char('y') | Key::Char('Y') => {
            *dirty = false;
            Action::SaveAndQuit
        },
        Key::Char('n') | Key::Char('N') | Key::Esc => Action::Quit,
        Key::Enter | Key::Char(' ') => {
            if *selected {
                *dirty = false;
                Action::SaveAndQuit
            } else {
                Action::Quit
            }
        },
        _ => Action::Nothing,
    }
}

/// The quit key (`q`, or Ctrl+Q) on the input `mode`, the save prompt's
/// choice `selected`, and whether there are unsaved edits: with edits the
/// save prompt opens with "yes" chosen; without, the viewer is to leave.
pub fn quit_request(dirty: bool, mode: &mut InputMode, selected: &mut bool) -> (quit: bool)
    ensures
        quit == !dirty,
        dirty ==> *final(mode) == InputMode::SaveConfirm && *final(selected),
        !dirty ==> *final(mode) == *old(mode) && *final(selected) == *old(selected),
{
    if dirty {
        *mode = InputMode::SaveConfirm;
        *selected = true;
        false
    } else {
        true
    }
}

/// Pressing a radio button leaves at most one background scheme on, when at
/// most one was on before.
pub proof fn lemma_radio_exclusive(f: Seq<bool>, i: int)
    requires
        f.len() == 7,
        0 <= i < 7,
        forall|a: int, b: int| 0 <= a < b < 7 && f[a] ==> !f[b],
    ensures
        radio(f, i).len() == 7,
        forall|a: int, b: int| 0 <= a < b < 7 && #[trigger] radio(f, i)[a] ==> !#[trigger] radio(f, i)[b],
{
}

/// Pressing the same radio button twice gives back the switches one started
/// from, when at most one scheme was on and it was that one or none.
pub proof fn lemma_radio_twice(f: Seq<bool>, i: int)
    requires
        f.len() == 7,
        0 <= i < 7,
        forall|j: int| 0 <= j < 7 && j != i ==> !f[j],
    ensures
        radio(radio(f, i), i) == f,
{
    assert(radio(radio(f, i), i) =~= f);
}

/// At most one scheme is on.
pub open spec fn one_hot_or_none(f: Seq<bool>) -> bool {
    f.len() == 7 && forall|a: int, b: int| 0 <= a < b < 7 && f[a] ==> !f[b]
}

/// Stepping through the schemes eight times comes back to where it
/// started, when at most one scheme was on.
pub proof fn lemma_cycle_returns(f: Seq<bool>)
    requires
        one_hot_or_none(f),
    ensures
        cycle(cycle(cycle(cycle(cycle(cycle(cycle(cycle(f)))))))) == f,
{
    let g = cycle(cycle(cycle(cycle(cycle(cycle(cycle(cycle(f))))))));
    if f[0] {
        assert(!f[1] && !f[2] && !f[3] && !f[4] && !f[5] && !f[6]);
    } else if f[1] {
        assert(!f[2] && !f[3] && !f[4] && !f[5] && !f[6]);
    } else if f[2] {
        assert(!f[3] && !f[4] && !f[5] && !f[6]);
    } else if f[3] {
        assert(!f[4] && !f[5] && !f[6]);
    } else if f[4] {
        assert(!f[5] && !f[6]);
    } else if f[5] {
        assert(!f[6]);
    }
    assert(g =~= f);
}

fn close_on(mode: &mut InputMode, k: Key)
    ensures
        *final(mode) == if closes(k) {
            InputMode::Normal
        } else {
            *old(mode)
        },
{
    if k == Key::Esc || k == Key::Char('q') {
        *mode = InputMode::Normal;
    }
}

impl App {
    /// Key `k` in the help popup: Esc or `q` closes it, the others scroll
    /// it (see `help_scroll_after`).
    pub fn help_key(&mut self, k: Key)
        requires
            old(self).help_scroll + 10 <= usize::MAX,
        ensures
            final(self).input_mode == if closes(k) {
                InputMode::Normal
            } else {
                old(self).input_mode
            },
            final(self).help_scroll == help_scroll_after(old(self).help_scroll, k),
            *final(self) == (App {
                input_mode: final(self).input_mode,
                help_scroll: final(self).help_scroll,
                ..*old(self)
            }),
    {
        help_step(&mut self.input_mode, &mut self.help_scroll, k);
    }

    /// Key `k` in the menu of help, sample file and about: Esc or `q`
    /// closes it, Up/`k` and Down/`j` move the selection, Enter opens the
    /// selected entry, `h`, `s` and `a` open an entry directly. `true` asks
    /// the caller for the sample file.
    pub fn menu_key(&mut self, k: Key) -> (sample: bool)
        ensures
            final(self).input_mode == menu_mode_after(old(self).input_mode, old(self).menu_selected, k),
            final(self).help_scroll == if menu_opens_help(old(self).menu_selected, k) {
                0
            } else {
                old(self).help_scroll
            },
            final(self).menu_selected == menu_sel_after(old(self).menu_selected, k),
            sample == menu_wants_sample(old(self).menu_selected, k),
            *final(self) == (App {
                input_mode: final(self).input_mode,
                help_scroll: final(self).help_scroll,
                menu_selected: final(self).menu_selected,
                ..*old(self)
            }),
    {
        menu_step(&mut self.input_mode, &mut self.help_scroll, &mut self.menu_selected, k)
    }

    /// Key `k` in the about popup: Esc or `q` closes it.
    pub fn about_key(&mut self, k: Key)
        ensures
            final(self).input_mode == if closes(k) {
                InputMode::Normal
            } else {
                old(self).input_mode
            },
            *final(self) == (App { input_mode: final(self).input_mode, ..*old(self) }),
    {
        close_on(&mut self.input_mode, k);
    }

    /// Key `k` in the display-mode chooser: Up/`k` and Down/`j` step
    /// through the modes, `1` to `3` pick one and close the chooser, Enter,
    /// space, Esc and `q` close it. Keys `4` to `9` and `0` change nothing
    /// here and give the background scheme whose radio button they press
    /// (see `radio_flags`).
    pub fn mode_select_key(&mut self, k: Key) -> (radio: Option<u8>)
        ensures
            final(self).mode == chooser_mode_after(old(self).mode, k),
            final(self).input_mode == if chooser_closes(k) {
                InputMode::Normal
            } else {
                old(self).input_mode
            },
            *final(self) == (App {
                mode: final(self).mode,
                input_mode: final(self).input_mode,
                ..*old(self)
            }),
            radio matches Some(i) ==> i < 7 && i == chooser_radio(k),
            radio is None ==> chooser_radio(k) == -1,
    {
        let r = radio_of(k);
        chooser_step(&mut self.mode, &mut self.input_mode, k);
        r
    }
}

/// The character a byte copies as in ASCII mode: printable ASCII (space
/// included) as itself, any other byte as `.`.
pub open spec fn copy_char(b: u8) -> char {
    if 0x20 <= b <= 0x7e {
        b as char
    } else {
        '.'
    }
}

/// Bytes as hex pairs separated by single spaces.
pub open spec fn hex_joined(s: Seq<u8>) -> Seq<char>
    decreases s.len(),
{
    if s.len() == 0 {
        seq![]
    } else if s.len() == 1 {
        hex2(s[0])
    } else {
        hex_joined(s.drop_last()) + seq![' '] + hex2(s.last())
    }
}

/// The characters of the decoded pieces, skipping invalid bytes.
pub open spec fn segment_chars(segs: Seq<Segment>) -> Seq<char>
    decreases segs.len(),
{
    if segs.len() == 0 {
        seq![]
    } else {
        segment_chars(segs.drop_last()) + match segs.last() {
            Segment::Char { ch, .. } => seq![ch],
            Segment::Invalid { .. } => seq![],
        }
    }
}

/// The text of the `len` bytes of `data` from `lo` for the clipboard: in
/// ASCII mode one character a byte (`copy_char`), in hex mode the hex pairs
/// separated by spaces, in UTF-8 mode the characters decoded from them (a
/// character may run past the selection).
pub open spec fn copy_text(data: Seq<u8>, lo: int, len: int, mode: DisplayMode) -> Seq<char> {
    match mode {
        DisplayMode::Ascii => Seq::new(len as nat, |i: int| copy_char(data[lo + i])),
        DisplayMode::Hex => hex_joined(data.subrange(lo, lo + len)),
        DisplayMode::Utf8 => segment_chars(span_segments(data, lo, len, data.len() - lo, 0)),
    }
}

fn copy_char_of(b: u8) -> (c: char)
    ensures
        c == copy_char(b),
{
    if 0x20 <= b && b <= 0x7e {
        b as char
    } else {
        '.'
    }
}

/// The clipboard text of the `len` bytes of `data` from `lo` (see
/// `copy_text`).
pub fn selection_text(data: &[u8], lo: usize, len: usize, mode: DisplayMode) -> (r: String)
    requires
        lo + len <= data@.len(),
    ensures
        r@ == copy_text(data@, lo as int, len as int, mode),
{
    match mode {
        DisplayMode::Ascii => {
            let mut v: Vec<char> = Vec::new();
            let mut i: usize = 0;
            while i < len
                invariant
                    lo + len <= data@.len(),
                    data@.len() == data.len(),
                    i <= len,
                    v@ =~= Seq::new(i as nat, |j: int| copy_char(data@[lo + j])),
                decreases len - i,
            {
                v.push(copy_char_of(data[lo + i]));
                i += 1;
            }
            string_from(&v)
        },
        DisplayMode::Hex => {
            let mut v: Vec<char> = Vec::new();
            let mut i: usize = 0;
            while i < len
                invariant
                    lo + len <= data@.len(),
                    data@.len() == data.len(),
                    i <= len,
                    v@ == hex_joined(data@.subrange(lo as int, lo + i)),
                decreases len - i,
            {
                let b = data[lo + i];
                let ghost before = v@;
                assert(data@.subrange(lo as int, lo + i + 1).drop_last() =~= data@.subrange(
                    lo as int,
                    lo + i,
                ));
                if i > 0 {
                    v.push(' ');
                }
                let h = hex2_string(b);
                let hc = crate::text::chars_of(h.as_str());
                v.push(hc[0]);
                v.push(hc[1]);
                assert(v@ =~= hex_joined(data@.subrange(lo as int, lo + i + 1)));
                i += 1;
            }
            string_from(&v)
        },
        DisplayMode::Utf8 => {
            let segs = decode_row(data, lo, len, 0);
            let mut v: Vec<char> = Vec::new();
            let mut i: usize = 0;
            while i < segs.len()
                invariant
                    i <= segs@.len(),
                    v@ == segment_chars(segs@.take(i as int)),
                decreases segs@.len() - i,
            {
                assert(segs@.take(i + 1).drop_last() =~= segs@.take(i as int));
                match &segs[i] {
                    Segment::Char { ch, .. } => {
                        v.push(*ch);
                    },
                    Segment::Invalid { .. } => {},
                }
                i += 1;
            }
            assert(segs@.take(segs@.len() as int) =~= segs@);
            string_from(&v)
        },
    }
}

/// What a key press asks of the viewer, before any state is looked at
/// beyond the input mode and a pending Ctrl+K.
#[derive(Debug, Clone, Copy, PartialEq, Eq, Structural)]
pub enum Command {
    /// Nothing happens.
    Ignore,
    /// Ctrl+K, R: the cursor's byte goes back to its first value.
    Restore,
    /// Ctrl+K, M: the menu opens.
    OpenMenu,
    /// Ctrl+Z.
    Undo,
    /// Ctrl+Y.
    Redo,
    /// Ctrl+Q: leave, or ask to save first (see `quit_request`).
    Quit,
    /// Ctrl+G: the "go to" prompt opens.
    GotoPrompt,
    /// Ctrl+H: help opens.
    OpenHelp,
    /// Ctrl+S: the file is written.
    Save,
    /// Ctrl+K: the next key completes the sequence.
    StartSequence,
    /// Ctrl+C: the selection goes to the clipboard.
    Copy,
    /// Ctrl+F: the search prompt opens.
    SearchPrompt,
    /// Ctrl+P: the file browser opens.
    Browse,
    /// Ctrl+Left: in edit mode, the cursor goes to the previous pack.
    PackBack,
    /// Ctrl+Right: in edit mode, the cursor goes to the next pack.
    PackForward,
    /// Alt+J: the selection starts at the cursor.
    MarkStart,
    /// Alt+K: the selection ends at the cursor.
    MarkEnd,
    /// Alt+M: the next display mode.
    NextMode,
    /// Alt+Up: in edit mode, the byte under the cursor goes up by one.
    Increment,
    /// Alt+Down: in edit mode, the byte under the cursor goes down by one.
    Decrement,
    /// The key goes to the handler of the current input mode.
    ForMode(Key),
}

/// The command of a key press in input mode `mode`, `pending` telling
/// whether Ctrl+K came just before: the second key of a Ctrl+K sequence
/// first; then the Ctrl and Alt shortcuts, which work in every mode; any
/// other key goes to the current mode.
pub open spec fn command_spec(p: KeyPress, mode: InputMode, pending: bool) -> Command {
    let k = p.key;
    if pending {
        match k {
            Key::Char('r') | Key::Char('R') => Command::Restore,
            Key::Char('m') | Key::Char('M') => Command::OpenMenu,
            _ => Command::Ignore,
        }
    } else if p.ctrl && ctrl_command(k, mode) != Command::ForMode(k) {
        ctrl_command(k, mode)
    } else if p.alt && alt_command(k) != Command::ForMode(k) {
        alt_command(k)
    } else {
        Command::ForMode(k)
    }
}

/// The Ctrl shortcut of key `k` (`ForMode(k)` when it has none).
pub open spec fn ctrl_command(k: Key, mode: InputMode) -> Command {
    match k {
        Key::Char('z') => Command::Undo,
        Key::Char('y') => Command::Redo,
        Key::Char('q') => Command::Quit,
        Key::Char('g') => Command::GotoPrompt,
        Key::Char('h') => Command::OpenHelp,
        Key::Char('s') => Command::Save,
        Key::Char('k') => Command::StartSequence,
        Key::Char('c') => Command::Copy,
        Key::Char('f') => Command::SearchPrompt,
        Key::Char('p') => Command::Browse,
        Key::Left => if mode == InputMode::Edit { Command::PackBack } else { Command::Ignore },
        Key::Right => if mode == InputMode::Edit { Command::PackForward } else { Command::Ignore },
        _ => Command::ForMode(k),
    }
}

/// The Alt shortcut of key `k` (`ForMode(k)` when it has none).
pub open spec fn alt_command(k: Key) -> Command {
    match k {
        Key::Char('j') => Command::MarkStart,
        Key::Char('k') => Command::MarkEnd,
        Key::Char('m') => Command::NextMode,
        Key::Up => Command::Increment,
        Key::Down => Command::Decrement,
        _ => Command::ForMode(k),
    }
}

fn ctrl_command_of(k: Key, mode: InputMode) -> (c: Command)
    ensures
        c == ctrl_command(k, mode),
{
    match k {
        Key::Char('z') => Command::Undo,
        Key::Char('y') => Command::Redo,
        Key::Char('q') => Command::Quit,
        Key::Char('g') => Command::GotoPrompt,
        Key::Char('h') => Command::OpenHelp,
        Key::Char('s') => Command::Save,
        Key::Char('k') => Command::StartSequence,
        Key::Char('c') => Command::Copy,
        Key::Char('f') => Command::SearchPrompt,
        Key::Char('p') => Command::Browse,
        Key::Left => if mode == InputMode::Edit { Command::PackBack } else { Command::Ignore },
        Key::Right => if mode == InputMode::Edit { Command::PackForward } else { Command::Ignore },
        _ => Command::ForMode(k),
    }
}

fn alt_command_of(k: Key) -> (c: Command)
    ensures
        c == alt_command(k),
{
    match k {
        Key::Char('j') => Command::MarkStart,
        Key::Char('k') => Command::MarkEnd,
        Key::Char('m') => Command::NextMode,
        Key::Up => Command::Increment,
        Key::Down => Command::Decrement,
        _ => Command::ForMode(k),
    }
}

/// The command of a key press (see `command_spec`).
pub fn command_of(p: KeyPress, mode: InputMode, pending: bool) -> (c: Command)
    ensures
        c == command_spec(p, mode, pending),
{
    let k = p.key;
    if pending {
        return match k {
            Key::Char('r') | Key::Char('R') => Command::Restore,
            Key::Char('m') | Key::Char('M') => Command::OpenMenu,
            _ => Command::Ignore,
        };
    }
    if p.ctrl {
        let c = ctrl_command_of(k, mode);
        if c != Command::ForMode(k) {
            return c;
        }
    }
    if p.alt {
        let c = alt_command_of(k);
        if c != Command::ForMode(k) {
            return c;
        }
    }
    Command::ForMode(k)
}

/// In ASCII mode the clipboard gets each byte of the selection as one
/// character: a printable ASCII byte (space included) as the character of
/// that code, any other byte as `.`.
pub proof fn law_ascii_copy_keeps_printable(data: Seq<u8>, lo: int, len: int)
    requires
        0 <= lo,
        0 <= len,
        lo + len <= data.len(),
    ensures
        copy_text(data, lo, len, DisplayMode::Ascii).len() == len,
        forall|i: int|
            0 <= i < len && 0x20 <= #[trigger] data[lo + i] <= 0x7e ==> copy_text(
                data,
                lo,
                len,
                DisplayMode::Ascii,
            )[i] as u32 == data[lo + i] as u32,
        forall|i: int|
            0 <= i < len && !(0x20 <= #[trigger] data[lo + i] <= 0x7e) ==> copy_text(
                data,
                lo,
                len,
                DisplayMode::Ascii,
            )[i] == '.',
{
}

/// What the undo and redo commands do to the viewer: `App::undo` and
/// `App::redo`.
pub open spec fn edit_effect(c: Command, new: App, old: App, mmap: Seq<u8>) -> bool {
    match c {
        Command::Undo => App::undone(new, old, mmap),
        Command::Redo => App::redone(new, old),
        _ => new == old,
    }
}

/// Ctrl+Z takes back the last edit and Ctrl+Y puts it back, in every input
/// mode and whatever Alt says (Ctrl+K not pending): after an edit that
/// changed a byte, the command of Ctrl+Z shows every byte as before the
/// edit, and the command of Ctrl+Y after it shows every byte as the edit
/// did.
pub proof fn law_ctrl_z_undoes_ctrl_y_redoes(
    mode: InputMode,
    alt: bool,
    a0: App,
    a1: App,
    a2: App,
    a3: App,
    mmap: Seq<u8>,
    off: usize,
    val: u8,
)
    requires
        off < a0.file_size,
        a0.shown(mmap, off as int) != val,
        App::modified_to(a1, a0, mmap, off, val),
        edit_effect(command_spec(KeyPress { key: Key::Char('z'), ctrl: true, alt }, mode, false), a2, a1, mmap),
        edit_effect(command_spec(KeyPress { key: Key::Char('y'), ctrl: true, alt }, mode, false), a3, a2, mmap),
    ensures
        forall|o: int| #[trigger] a2.shown(mmap, o) == a0.shown(mmap, o),
        forall|o: int| #[trigger] a3.shown(mmap, o) == a1.shown(mmap, o),
{
    assert(command_spec(KeyPress { key: Key::Char('z'), ctrl: true, alt }, mode, false) == Command::Undo);
    assert(command_spec(KeyPress { key: Key::Char('y'), ctrl: true, alt }, mode, false) == Command::Redo);
    lemma_undo_restores(a0, a1, a2, mmap, off, val);
    lemma_redo_reapplies(a0, a1, a2, a3, mmap, off, val);
}

/// In hex mode the clipboard gets the selected bytes as pairs of hex digits
/// separated by single spaces: `3n - 1` characters for `n > 0` bytes, the
/// pair at `3i` reading back as byte `i`, a space after every pair but the
/// last.
pub proof fn law_hex_copy_reads_back(bs: Seq<u8>)
    requires
        bs.len() > 0,
    ensures
        hex_joined(bs).len() == 3 * bs.len() - 1,
        forall|i: int|
            0 <= i < bs.len() ==> digit_value(#[trigger] hex_joined(bs)[3 * i]) * 16 + digit_value(
                hex_joined(bs)[3 * i + 1],
            ) == bs[i],
        forall|i: int| 0 <= i < bs.len() - 1 ==> #[trigger] hex_joined(bs)[3 * i + 2] == ' ',
    decreases bs.len(),
{
    let n = bs.len() as int;
    law_hex2_reads_back(bs.last());
    if n == 1 {
        law_hex2_reads_back(bs[0]);
    } else {
        let front = bs.drop_last();
        law_hex_copy_reads_back(front);
        let t = hex_joined(bs);
        let tf = hex_joined(front);
        assert(t == tf + seq![' '] + hex2(bs.last()));
        assert forall|i: int| 0 <= i < n implies digit_value(#[trigger] t[3 * i]) * 16 + digit_value(
            t[3 * i + 1],
        ) == bs[i] by {
            if i < n - 1 {
                assert(t[3 * i] == tf[3 * i]);
                assert(t[3 * i + 1] == tf[3 * i + 1]);
                assert(front[i] == bs[i]);
            } else {
                assert(t[3 * i] == hex2(bs.last())[0]);
                assert(t[3 * i + 1] == hex2(bs.last())[1]);
            }
        }
        assert forall|i: int| 0 <= i < n - 1 implies #[trigger] t[3 * i + 2] == ' ' by {
            if i < n - 2 {
                assert(t[3 * i + 2] == tf[3 * i + 2]);
            }
        }
    }
}

/// The letter shortcuts with Ctrl.
pub open spec fn ctrl_letters() -> Seq<char> {
    seq!['z', 'y', 'q', 'g', 'h', 's', 'k', 'c', 'f', 'p']
}

/// The Ctrl letter shortcuts are shortcuts in every input mode, the same in
/// all of them, whatever Alt says; no two of them do the same thing; and
/// after Ctrl+K every one of them waits for the sequence to end instead.
pub proof fn law_ctrl_shortcuts(m1: InputMode, m2: InputMode, alt: bool)
    ensures
        forall|i: int|
            0 <= i < 10 ==> {
                let p = KeyPress { key: Key::Char(#[trigger] ctrl_letters()[i]), ctrl: true, alt };
                &&& command_spec(p, m1, false) == command_spec(p, m2, false)
                &&& !(command_spec(p, m1, false) is ForMode)
                &&& command_spec(p, m1, true) == Command::Ignore
            },
        forall|i: int, j: int|
            0 <= i < 10 && 0 <= j < 10 && i != j ==> command_spec(
                KeyPress { key: Key::Char(#[trigger] ctrl_letters()[i]), ctrl: true, alt },
                m1,
                false,
            ) != command_spec(KeyPress { key: Key::Char(#[trigger] ctrl_letters()[j]), ctrl: true, alt }, m1, false),
{
    let l = ctrl_letters();
    assert(l[0] == 'z' && l[1] == 'y' && l[2] == 'q' && l[3] == 'g' && l[4] == 'h' && l[5] == 's'
        && l[6] == 'k' && l[7] == 'c' && l[8] == 'f' && l[9] == 'p');
}

} // verus!

//! The text of the status bar at the bottom of the viewer.
use vstd::prelude::*;
use crate::app::{lemma_wf_parts, matches_before, App, DisplayMode, InputMode};
use crate::mouse::{offset_width, status_offset_width};
use crate::render::{hex_digit, hex_digit_char};
use crate::text::{chars_of, string_from};

verus! {

/// Digits of `n` in base 16, lower case, with no leading zero (`{:x}`).
pub open spec fn hex_str(n: nat) -> Seq<char>
    decreases n,
{
    if n < 16 {
        seq![hex_digit(n as int)]
    } else {
        hex_str(n / 16) + seq![hex_digit((n % 16) as int)]
    }
}

/// Decimal digit of a value below 10.
pub open spec fn dec_digit(v: int) -> char {
    (('0' as int) + v) as char
}

/// Digits of `n` in base 10, with no leading zero (`{}`).
pub open spec fn dec_str(n: nat) -> Seq<char>
    decreases n,
{
    if n < 10 {
        seq![dec_digit(n as int)]
    } else {
        dec_str(n / 10) + seq![dec_digit((n % 10) as int)]
    }
}

/// Upper-case hexadecimal digit of a value below 16.
pub open spec fn hex_digit_upper(v: int) -> char {
    if v < 10 {
        (('0' as int) + v) as char
    } else {
        (('A' as int) + v - 10) as char
    }
}

/// `s` with zeros put in front until it has `w` characters.
pub open spec fn zero_pad(s: Seq<char>, w: int) -> Seq<char> {
    Seq::new(if w > s.len() { (w - s.len()) as nat } else { 0 }, |i: int| '0') + s
}

/// The label of the edit mode in the status bar.
pub open spec fn edit_label(mode: DisplayMode) -> Seq<char> {
    match mode {
        DisplayMode::Ascii => "[EDIT ASCII]"@,
        DisplayMode::Utf8 => "[EDIT UTF8]"@,
        DisplayMode::Hex => "[EDIT HEX]"@,
    }
}

/// The label of a display mode.
pub open spec fn mode_label(mode: DisplayMode) -> Seq<char> {
    match mode {
        DisplayMode::Ascii => "[ASCII]"@,
        DisplayMode::Hex => "[HEX]"@,
        DisplayMode::Utf8 => "[UTF8]"@,
    }
}

/// The keys listed while a display mode is chosen.
pub open spec fn mode_select_keys() -> Seq<char> {
    "↑↓:select Enter:confirm Esc:cancel 1/2/3:mode 4:256 5:RGB 6:HSL 7:GRAY 8:HEAT 9:hsl"@
}

/// Pushes the base-16 digits of `n` (see `hex_str`).
fn push_hex(v: &mut Vec<char>, n: usize)
    ensures
        final(v)@ == old(v)@ + hex_str(n as nat),
    decreases n,
{
    if n >= 16 {
        push_hex(v, n / 16);
    }
    v.push(hex_digit_char((n % 16) as u8));
    proof {
        assert(final(v)@ =~= old(v)@ + hex_str(n as nat));
    }
}

/// Pushes the base-10 digits of `n` (see `dec_str`).
fn push_dec(v: &mut Vec<char>, n: usize)
    ensures
        final(v)@ == old(v)@ + dec_str(n as nat),
    decreases n,
{
    if n >= 10 {
        push_dec(v, n / 10);
    }
    let d = (n % 10) as u8;
    v.push((48u8 + d) as char);
    proof {
        assert(final(v)@ =~= old(v)@ + dec_str(n as nat));
    }
}

/// Pushes the base-16 digits of `n`, zero-padded to `w` characters.
fn push_hex_padded(v: &mut Vec<char>, n: usize, w: usize)
    ensures
        final(v)@ == old(v)@ + zero_pad(hex_str(n as nat), w as int),
{
    let mut digits: Vec<char> = Vec::new();
    push_hex(&mut digits, n);
    let ghost start = v@;
    let mut k: usize = digits.len();
    while k < w
        invariant
            digits.len() <= k <= if w > digits.len() { w as int } else { digits.len() as int },
            v@ =~= start + Seq::new((k - digits.len()) as nat, |i: int| '0'),
        decreases w - k,
    {
        v.push('0');
        k += 1;
    }
    let mut i: usize = 0;
    let ghost zs = v@;
    while i < digits.len()
        invariant
            i <= digits.len(),
            v@ =~= zs + digits@.take(i as int),
        decreases digits.len() - i,
    {
        v.push(digits[i]);
        i += 1;
    }
    proof {
        assert(digits@.take(digits.len() as int) =~= digits@);
        assert(v@ =~= old(v)@ + zero_pad(hex_str(n as nat), w as int));
    }
}

/// Pushes the characters of `s`.
fn push_str(v: &mut Vec<char>, s: &str)
    ensures
        final(v)@ == old(v)@ + s@,
{
    let cs = chars_of(s);
    let ghost start = v@;
    let mut i: usize = 0;
    while i < cs.len()
        invariant
            i <= cs@.len(),
            cs@ == s@,
            v@ =~= start + cs@.take(i as int),
        decreases cs.len() - i,
    {
        v.push(cs[i]);
        i += 1;
    }
    proof {
        assert(cs@.take(cs@.len() as int) =~= cs@);
    }
}

impl App {
    /// The 1-based number of the current match among the matches found so
    /// far (0 without a current match), as `current_match_number` gives it.
    pub open spec fn match_number(&self, data: Seq<u8>) -> nat {
        match (self.current_match, self.search) {
            (Some(pos), Some(s)) => {
                let k = matches_before(s, data, pos as int);
                if k < usize::MAX {
                    k + 1
                } else {
                    k + 0
                }
            },
            _ => 0,
        }
    }

    /// The status bar in edit mode: the mode, the byte under the cursor in
    /// upper-case hex (0 past the end), the cursor's offset zero-padded to
    /// the file's offset width, and the cursor's pack out of all packs.
    pub open spec fn edit_status_spec(&self, data: Seq<u8>) -> Seq<char> {
        let b: u8 = if self.cursor_byte < self.file_size {
            self.shown(data, self.cursor_byte as int)
        } else {
            0
        };
        edit_label(self.mode) + " ["@ + seq![hex_digit_upper((b / 16) as int), hex_digit_upper((b % 16) as int)]
            + "]  & "@ + zero_pad(hex_str(self.cursor_byte as nat), offset_width(self.file_size as int))
            + "  @"@ + hex_str((self.cursor_byte / 4096 + 1) as nat) + "/"@ + hex_str(self.total_packs as nat)
    }

    /// The status bar while a search is shown: its text (cut to 24
    /// characters and `...` when longer), the number of the current match
    /// out of those found (`+` while part of the file is unscanned), and the
    /// pack of the current match (0 without one) out of all packs.
    pub open spec fn search_status_spec(&self, data: Seq<u8>) -> Seq<char> {
        let s = self.search->0;
        let lab = s.tag()@;
        let disp = if lab.len() > 24 {
            lab.take(24) + "..."@
        } else {
            lab
        };
        let plus = if s.scanned_to() < s.fsize() {
            "+"@
        } else {
            Seq::<char>::empty()
        };
        let cur_pack: nat = match self.current_match {
            Some(p) => (p / 4096 + 1) as nat,
            None => 0,
        };
        "Search: "@ + disp + " ["@ + dec_str(self.match_number(data)) + "/"@ + dec_str(s.found() as nat)
            + plus + "] @"@ + hex_str(cur_pack) + "/"@ + hex_str(self.total_packs as nat)
            + "  ↑↓:next ESC:clear"@
    }

    /// The status bar in normal mode: the display mode, ` [MODIFIED]` with
    /// unsaved edits, the cursor's offset zero-padded to the file's offset
    /// width, the pack of the last row on screen (a screen of `max_rows`
    /// rows) out of all packs, and the menu button.
    pub open spec fn normal_status_spec(&self, max_rows: int) -> Seq<char> {
        let top = self.current_pack * 256 + self.scroll_top;
        let rows = (self.file_size + 15) / 16;
        let last_row = if top + max_rows - 1 < (if rows >= 1 { rows - 1 } else { 0 }) {
            top + max_rows - 1
        } else if rows >= 1 {
            rows - 1
        } else {
            0
        };
        mode_label(self.mode) + (if self.dirty { " [MODIFIED]"@ } else { Seq::<char>::empty() }) + "  & "@
            + zero_pad(hex_str(self.cursor_byte as nat), offset_width(self.file_size as int))
            + "  pack "@ + hex_str((last_row / 256 + 1) as nat) + "/"@ + hex_str(self.total_packs as nat)
            + "  [MENU]"@
    }

    /// The text of the status bar, by input mode.
    pub open spec fn status_spec(&self, data: Seq<u8>, max_rows: int) -> Seq<char> {
        match self.input_mode {
            InputMode::Edit => self.edit_status_spec(data),
            InputMode::SearchInput | InputMode::StringSearchInput | InputMode::GotoInput
            | InputMode::GotoByteInput => self.input_prompt@ + " "@ + self.input_buf@,
            InputMode::SaveConfirm => "Save changes? [Yes] [No]"@,
            InputMode::Help => "Press any key to close"@,
            InputMode::Normal => if self.search_active && self.search is Some {
                self.search_status_spec(data)
            } else {
                self.normal_status_spec(max_rows)
            },
            InputMode::ModeSelect => mode_select_keys(),
            InputMode::FileBrowser => "File Browser"@,
            _ => Seq::empty(),
        }
    }

    /// The text of the status bar (see `status_spec`) on a screen that shows
    /// `max_rows` rows of data.
    pub fn status_text(&self, data: &[u8], max_rows: usize) -> (r: String)
        requires
            self.wf(),
            self.file_size <= data@.len(),
            max_rows >= 1,
            self.current_pack * 256 + self.scroll_top + max_rows <= usize::MAX,
        ensures
            r@ == self.status_spec(data@, max_rows as int),
    {
        proof {
            lemma_wf_parts(*self);
        }
        let mut v: Vec<char> = Vec::new();
        match self.input_mode {
            InputMode::Edit => {
                let b: u8 = if self.cursor_byte < self.file_size {
                    self.byte_at(data, self.cursor_byte)
                } else {
                    0
                };
                push_str(&mut v, match self.mode {
                    DisplayMode::Ascii => "[EDIT ASCII]",
                    DisplayMode::Utf8 => "[EDIT UTF8]",
                    DisplayMode::Hex => "[EDIT HEX]",
                });
                push_str(&mut v, " [");
                let hi = b / 16;
                let lo = b % 16;
                v.push(if hi < 10 { (48u8 + hi) as char } else { (55u8 + hi) as char });
                v.push(if lo < 10 { (48u8 + lo) as char } else { (55u8 + lo) as char });
                push_str(&mut v, "]  & ");
                push_hex_padded(&mut v, self.cursor_byte, status_offset_width(self.file_size));
                push_str(&mut v, "  @");
                push_hex(&mut v, self.cursor_byte / self.pack_size + 1);
                push_str(&mut v, "/");
                push_hex(&mut v, self.total_packs);
                proof {
                    assert(v@ =~= self.edit_status_spec(data@));
                }
            },
            InputMode::SearchInput | InputMode::StringSearchInput | InputMode::GotoInput
            | InputMode::GotoByteInput => {
                push_str(&mut v, self.input_prompt.as_str());
                push_str(&mut v, " ");
                push_str(&mut v, self.input_buf.as_str());
            },
            InputMode::SaveConfirm => {
                push_str(&mut v, "Save changes? [Yes] [No]");
            },
            InputMode::Help => {
                push_str(&mut v, "Press any key to close");
            },
            InputMode::Normal => {
                if self.search_active && self.search.is_some() {
                    self.push_search_status(&mut v, data);
                } else {
                    self.push_normal_status(&mut v, max_rows);
                }
            },
            InputMode::ModeSelect => {
                push_str(
                    &mut v,
                    "↑↓:select Enter:confirm Esc:cancel 1/2/3:mode 4:256 5:RGB 6:HSL 7:GRAY 8:HEAT 9:hsl",
                );
            },
            InputMode::FileBrowser => {
                push_str(&mut v, "File Browser");
            },
            _ => {},
        }
        proof {
            assert(v@ =~= self.status_spec(data@, max_rows as int));
        }
        string_from(&v)
    }

    /// The shown text of the search: cut to 24 characters and `...` when
    /// longer.
    fn search_label(&self) -> (d: Vec<char>)
        requires
            self.search is Some,
        ensures
            d@ == ({
                let lab = self.search->0.tag()@;
                if lab.len() > 24 {
                    lab.take(24) + "..."@
                } else {
                    lab
                }
            }),
    {
        match &self.search {
            Some(s) => {
                let cs = chars_of(s.label().as_str());
                if cs.len() > 24 {
                    let mut d: Vec<char> = Vec::new();
                    let mut i: usize = 0;
                    while i < 24
                        invariant
                            cs@.len() > 24,
                            i <= 24,
                            d@ =~= cs@.take(i as int),
                        decreases 24 - i,
                    {
                        d.push(cs[i]);
                        i += 1;
                    }
                    push_str(&mut d, "...");
                    d
                } else {
                    cs
                }
            },
            None => Vec::new(),
        }
    }

    fn push_search_status(&self, v: &mut Vec<char>, data: &[u8])
        requires
            self.wf(),
            self.search is Some,
            old(v)@.len() == 0,
        ensures
            final(v)@ == self.search_status_spec(data@),
    {
        proof {
            lemma_wf_parts(*self);
        }
        let n = self.current_match_number(data);
        let d = self.search_label();
        match &self.search {
            Some(s) => {
                push_str(v, "Search: ");
                proof {
                    assert(v@ =~= "Search: "@);
                }
                push_all(v, &d);
                push_str(v, " [");
                push_dec(v, n);
                push_str(v, "/");
                push_dec(v, s.match_total());
                if s.has_more() {
                    push_str(v, "+");
                } else {
                    proof {
                        assert(v@ =~= v@ + Seq::<char>::empty());
                    }
                }
                push_str(v, "] @");
                let cur_pack: usize = match self.current_match {
                    Some(p) => p / self.pack_size + 1,
                    None => 0,
                };
                push_hex(v, cur_pack);
                push_str(v, "/");
                push_hex(v, self.total_packs);
                push_str(v, "  ↑↓:next ESC:clear");
            },
            None => {},
        }
    }

    fn push_normal_status(&self, v: &mut Vec<char>, max_rows: usize)
        requires
            self.wf(),
            max_rows >= 1,
            self.current_pack * 256 + self.scroll_top + max_rows <= usize::MAX,
            old(v)@.len() == 0,
        ensures
            final(v)@ == self.normal_status_spec(max_rows as int),
    {
        proof {
            lemma_wf_parts(*self);
        }
        push_str(v, self.mode.label());
        proof {
            assert(v@ =~= mode_label(self.mode));
        }
        if self.dirty {
            push_str(v, " [MODIFIED]");
        } else {
            proof {
                assert(v@ =~= v@ + Seq::<char>::empty());
            }
        }
        push_str(v, "  & ");
        push_hex_padded(v, self.cursor_byte, status_offset_width(self.file_size));
        let top = self.global_scroll_top();
        let rows = self.global_total_rows();
        let cap: usize = if rows >= 1 { rows - 1 } else { 0 };
        let last_row: usize = if top + max_rows - 1 < cap { top + max_rows - 1 } else { cap };
        push_str(v, "  pack ");
        push_hex(v, last_row / (self.pack_size / 16) + 1);
        push_str(v, "/");
        push_hex(v, self.total_packs);
        push_str(v, "  [MENU]");
    }
}

/// Pushes the characters of `d`.
fn push_all(v: &mut Vec<char>, d: &Vec<char>)
    ensures
        final(v)@ == old(v)@ + d@,
{
    let ghost start = v@;
    let mut i: usize = 0;
    while i < d.len()
        invariant
            i <= d@.len(),
            v@ =~= start + d@.take(i as int),
        decreases d.len() - i,
    {
        v.push(d[i]);
        i += 1;
    }
    proof {
        assert(d@.take(d@.len() as int) =~= d@);
    }
}

} // verus!

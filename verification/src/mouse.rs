//! Where a mouse click lands: a byte of the data area, a row of the
//! display-mode chooser or of the menu, a field of the status bar.
use vstd::prelude::*;
use crate::app::{App, DisplayMode, InputMode};
use vstd::string::StringExecFns;
use crate::keys::sat_sub;

verus! {

/// The offset of the byte under the pointer at column `mx`, row `my` of a
/// screen `height` rows high whose data rows start at row 2 and column 4,
/// two columns a byte, sixteen bytes a row, the view's top at row `top` of
/// the file; `None` off the data area or past the end of the file.
pub open spec fn data_offset_spec(mx: int, my: int, height: int, top: int, file_size: int) -> Option<int> {
    if my >= 2 && mx >= 4 && my < sat_sub(height, 1) && (mx - 4) / 2 < 16 {
        let off = (my - 2 + top) * 16 + (mx - 4) / 2;
        if off < file_size {
            Some(off)
        } else {
            None
        }
    } else {
        None
    }
}

/// The byte under the pointer (see `data_offset_spec`).
pub fn data_offset_at(mx: u16, my: u16, height: u16, top: usize, file_size: usize) -> (r: Option<usize>)
    requires
        top + 0x10000 <= usize::MAX / 16,
    ensures
        match data_offset_spec(mx as int, my as int, height as int, top as int, file_size as int) {
            Some(o) => r == Some(o as usize),
            None => r is None,
        },
{
    if my >= 2 && mx >= 4 && my < height.saturating_sub(1) {
        let col = (mx - 4) as usize;
        let bc = col / 2;
        if bc < 16 {
            let row = (my - 2) as usize + top;
            let off = row * 16 + bc;
            if off < file_size {
                return Some(off);
            }
        }
    }
    None
}

/// The row of a dropdown under the pointer: `rows` rows of `width` columns
/// starting at column `x`, row `y`; `None` outside.
pub open spec fn dropdown_row(mx: int, my: int, x: int, y: int, width: int, rows: int) -> Option<int> {
    if x <= mx < x + width && y <= my < y + rows {
        Some(my - y)
    } else {
        None
    }
}

/// The row of the display-mode chooser under the pointer: twelve rows of
/// ten columns at the left, just above the status bar of a screen
/// `height` rows high.
pub fn chooser_row_at(mx: u16, my: u16, height: u16) -> (r: Option<u16>)
    requires
        height >= 13,
    ensures
        match dropdown_row(mx as int, my as int, 0, height - 1 - 12, 10, 12) {
            Some(row) => r == Some(row as u16),
            None => r is None,
        },
{
    let dh: u16 = 12;
    let dy = height - 1 - dh;
    if mx < 10 && my >= dy && my < dy + dh {
        Some(my - dy)
    } else {
        None
    }
}

/// The row of the menu under the pointer: three rows of fourteen columns
/// at the right, just above the status bar of a screen `width` columns
/// wide and `height` rows high.
pub fn menu_row_at(mx: u16, my: u16, width: u16, height: u16) -> (r: Option<u16>)
    ensures
        match dropdown_row(
            mx as int,
            my as int,
            sat_sub(width as int, 14),
            sat_sub(sat_sub(height as int, 1), 3),
            14,
            3,
        ) {
            Some(row) => r == Some(row as u16),
            None => r is None,
        },
{
    let dx = width.saturating_sub(14);
    let dy = height.saturating_sub(1).saturating_sub(3);
    if mx >= dx && (mx as u32) < dx as u32 + 14 && my >= dy && (my as u32) < dy as u32 + 3 {
        Some(my - dy)
    } else {
        None
    }
}

/// What a row of the display-mode chooser does when clicked.
#[derive(Debug, Clone, Copy, PartialEq, Eq, Structural)]
pub enum ChooserPick {
    /// Show the data in this mode (and close the chooser).
    Mode(DisplayMode),
    /// Turn every background scheme off.
    NoColour,
    /// Press the radio button of this background scheme (see `radio_flags`).
    Radio(u8),
    /// The separator row: nothing.
    Nothing,
}

/// The chooser's rows: the three modes, a separator, "no colour", then the
/// seven background schemes.
pub open spec fn chooser_pick_spec(row: int) -> ChooserPick {
    if row == 0 {
        ChooserPick::Mode(DisplayMode::Ascii)
    } else if row == 1 {
        ChooserPick::Mode(DisplayMode::Hex)
    } else if row == 2 {
        ChooserPick::Mode(DisplayMode::Utf8)
    } else if row == 4 {
        ChooserPick::NoColour
    } else if 5 <= row <= 11 {
        ChooserPick::Radio((row - 5) as u8)
    } else {
        ChooserPick::Nothing
    }
}

/// What clicking row `row` of the chooser does (see `chooser_pick_spec`).
pub fn chooser_pick(row: u16) -> (r: ChooserPick)
    ensures
        r == chooser_pick_spec(row as int),
{
    if row == 0 {
        ChooserPick::Mode(DisplayMode::Ascii)
    } else if row == 1 {
        ChooserPick::Mode(DisplayMode::Hex)
    } else if row == 2 {
        ChooserPick::Mode(DisplayMode::Utf8)
    } else if row == 4 {
        ChooserPick::NoColour
    } else if 5 <= row && row <= 11 {
        ChooserPick::Radio((row - 5) as u8)
    } else {
        ChooserPick::Nothing
    }
}

/// Number of lower-case hex digits of `n` (`{:x}`).
pub open spec fn hex_len(n: nat) -> nat
    decreases n,
{
    if n < 16 {
        1
    } else {
        1 + hex_len(n / 16)
    }
}

/// `16` to the power `j`.
pub open spec fn pow16(j: nat) -> nat
    decreases j,
{
    if j == 0 {
        1
    } else {
        16 * pow16((j - 1) as nat)
    }
}

proof fn lemma_hex_len_bound(n: nat, j: nat)
    requires
        j >= 1,
        n < pow16(j),
    ensures
        hex_len(n) <= j,
    decreases j,
{
    if n >= 16 {
        if j == 1 {
            assert(pow16(1) == 16) by {
                reveal_with_fuel(pow16, 2);
            }
        } else {
            let p = pow16((j - 1) as nat);
            assert(n / 16 < p) by (nonlinear_arith)
                requires
                    n < 16 * p,
            ;
            lemma_hex_len_bound(n / 16, (j - 1) as nat);
        }
    }
}

proof fn lemma_hex_len_usize(n: usize)
    ensures
        1 <= hex_len(n as nat) <= 16,
{
    assert(pow16(16) == 0x1_0000_0000_0000_0000) by {
        reveal_with_fuel(pow16, 17);
    }
    lemma_hex_len_bound(n as nat, 16);
}

fn hex_len_of(n: usize) -> (r: usize)
    ensures
        r == hex_len(n as nat),
        1 <= r <= 16,
{
    proof {
        lemma_hex_len_usize(n);
    }
    let mut m = n;
    let mut k: usize = 1;
    while m >= 16
        invariant
            k + hex_len(m as nat) == 1 + hex_len(n as nat),
            1 <= hex_len(n as nat) <= 16,
            1 <= k,
        decreases m,
    {
        proof {
            assert(hex_len(m as nat) == 1 + hex_len((m / 16) as nat));
            assert(hex_len((m / 16) as nat) >= 1) by {
                reveal_with_fuel(hex_len, 2);
                if m / 16 >= 16 {
                }
            }
        }
        m = m / 16;
        k = k + 1;
    }
    k
}

/// A field of the status bar.
#[derive(Debug, Clone, Copy, PartialEq, Eq, Structural)]
pub enum StatusField {
    /// The mode label: opens the display-mode chooser.
    Mode,
    /// The cursor's offset: opens the "go to offset" prompt.
    Offset,
    /// The pack number: opens the "go to pack" prompt.
    Pack,
    /// The right end: opens the menu.
    Menu,
    /// Between fields.
    Nothing,
}

/// Hex digits the status bar gives an offset in a file of `file_size`
/// bytes.
pub open spec fn offset_width(file_size: int) -> int {
    if file_size <= 0xff {
        2
    } else if file_size <= 0xffff {
        4
    } else if file_size <= 0xffffff {
        6
    } else {
        8
    }
}

/// Hex digits the status bar gives an offset (see `offset_width`).
pub fn status_offset_width(file_size: usize) -> (r: usize)
    ensures
        r == offset_width(file_size as int),
{
    if file_size <= 0xff {
        2
    } else if file_size <= 0xffff {
        4
    } else if file_size <= 0xffffff {
        6
    } else {
        8
    }
}

/// The field of the status bar at column `mx`: the first seven columns are
/// the mode; after the mode label (`label_len` columns), a marker of unsaved
/// edits (11 columns when `dirty`) and two spaces comes `@` and the offset
/// (see `offset_width`), then after two spaces `pack p/n` (the cursor's pack
/// counted from 1 and the number of packs, in hex), then after two more
/// spaces the menu to the end.
pub open spec fn status_field_spec(
    mx: int,
    label_len: int,
    dirty: bool,
    file_size: int,
    cursor: int,
    total_packs: int,
) -> StatusField {
    let at = label_len + (if dirty { 11int } else { 0int }) + 2;
    let at_len = 1 + offset_width(file_size);
    let pack_at = at + at_len + 2;
    let pack_len = 5 + hex_len((cursor / 4096 + 1) as nat) + 1 + hex_len(total_packs as nat);
    let menu_at = pack_at + pack_len + 2;
    if mx < 7 {
        StatusField::Mode
    } else if at <= mx < at + at_len {
        StatusField::Offset
    } else if pack_at <= mx < pack_at + pack_len {
        StatusField::Pack
    } else if mx >= menu_at {
        StatusField::Menu
    } else {
        StatusField::Nothing
    }
}

/// The field of the status bar under the pointer (see
/// `status_field_spec`).
pub fn status_field_at(
    mx: u16,
    label_len: usize,
    dirty: bool,
    file_size: usize,
    cursor: usize,
    total_packs: usize,
) -> (r: StatusField)
    requires
        label_len <= 0xffff,
        cursor / 4096 + 1 <= usize::MAX,
    ensures
        r == status_field_spec(mx as int, label_len as int, dirty, file_size as int, cursor as int, total_packs as int),
{
    let mx = mx as usize;
    let at = label_len + if dirty { 11 } else { 0 } + 2;
    let at_len = 1 + status_offset_width(file_size);
    let pack_at = at + at_len + 2;
    let pack_len = 5 + hex_len_of(cursor / 4096 + 1) + 1 + hex_len_of(total_packs);
    let menu_at = pack_at + pack_len + 2;
    if mx < 7 {
        StatusField::Mode
    } else if at <= mx && mx < at + at_len {
        StatusField::Offset
    } else if pack_at <= mx && mx < pack_at + pack_len {
        StatusField::Pack
    } else if mx >= menu_at {
        StatusField::Menu
    } else {
        StatusField::Nothing
    }
}


/// Columns of the display mode's label in the status bar.
pub open spec fn label_cols(mode: DisplayMode) -> int {
    match mode {
        DisplayMode::Ascii => 7,
        DisplayMode::Hex => 5,
        DisplayMode::Utf8 => 6,
    }
}

/// The input mode after a click on field `f` of the status bar in mode `m`.
pub open spec fn status_click_mode(m: InputMode, f: StatusField) -> InputMode {
    match f {
        StatusField::Mode => InputMode::ModeSelect,
        StatusField::Offset => InputMode::GotoByteInput,
        StatusField::Pack => InputMode::GotoInput,
        StatusField::Menu => InputMode::Menu,
        StatusField::Nothing => m,
    }
}

fn status_step(
    mode: &mut InputMode,
    buf: &mut String,
    prompt: &mut String,
    sel: &mut usize,
    f: StatusField,
)
    ensures
        *final(mode) == status_click_mode(*old(mode), f),
        final(buf)@ == if f == StatusField::Offset || f == StatusField::Pack {
            Seq::<char>::empty()
        } else {
            old(buf)@
        },
        final(prompt)@ == match f {
            StatusField::Offset => "Go to byte (hex):"@,
            StatusField::Pack => "Go to pack (hex):"@,
            _ => old(prompt)@,
        },
        *final(sel) == if f == StatusField::Menu {
            0
        } else {
            *old(sel)
        },
{
    match f {
        StatusField::Mode => {
            *mode = InputMode::ModeSelect;
        },
        StatusField::Offset => {
            *mode = InputMode::GotoByteInput;
            *buf = String::new();
            *prompt = String::from_str("Go to byte (hex):");
        },
        StatusField::Pack => {
            *mode = InputMode::GotoInput;
            *buf = String::new();
            *prompt = String::from_str("Go to pack (hex):");
        },
        StatusField::Menu => {
            *mode = InputMode::Menu;
            *sel = 0;
        },
        StatusField::Nothing => {},
    }
}

/// The input mode after a click on row `row` of the open menu (`None`
/// outside it) in mode `m`.
pub open spec fn menu_click_mode(m: InputMode, row: Option<u16>) -> InputMode {
    match row {
        Some(0) => InputMode::Help,
        Some(2) => InputMode::About,
        None => InputMode::Normal,
        _ => m,
    }
}

fn menu_step(mode: &mut InputMode, help_scroll: &mut usize, row: Option<u16>) -> (sample: bool)
    ensures
        *final(mode) == menu_click_mode(*old(mode), row),
        *final(help_scroll) == if row == Some(0u16) {
            0
        } else {
            *old(help_scroll)
        },
        sample == (row == Some(1u16)),
{
    match row {
        Some(0) => {
            *mode = InputMode::Help;
            *help_scroll = 0;
            false
        },
        Some(1) => true,
        Some(2) => {
            *mode = InputMode::About;
            false
        },
        Some(_) => false,
        None => {
            *mode = InputMode::Normal;
            false
        },
    }
}

impl App {
    /// The field of the status bar at column `mx` (see `status_field_spec`).
    pub open spec fn status_field(&self, mx: int) -> StatusField {
        status_field_spec(
            mx,
            label_cols(self.mode),
            self.dirty,
            self.file_size as int,
            self.cursor_byte as int,
            self.total_packs as int,
        )
    }

    fn status_field_at_col(&self, mx: u16) -> (f: StatusField)
        ensures
            f == self.status_field(mx as int),
    {
        let cols: usize = match self.mode {
            DisplayMode::Ascii => 7,
            DisplayMode::Hex => 5,
            DisplayMode::Utf8 => 6,
        };
        status_field_at(mx, cols, self.dirty, self.file_size, self.cursor_byte, self.total_packs)
    }

    /// A left click at column `mx` of the status bar in normal mode: on the
    /// mode, the display-mode chooser opens; on the offset, a prompt for a
    /// byte offset, on the pack, a prompt for a pack (each with an empty
    /// input); on the menu button, the menu with its first item selected;
    /// elsewhere nothing changes.
    pub fn status_click(&mut self, mx: u16)
        ensures
            ({
                let f = old(self).status_field(mx as int);
                &&& final(self).input_mode == status_click_mode(old(self).input_mode, f)
                &&& final(self).input_buf@ == if f == StatusField::Offset || f == StatusField::Pack {
                    Seq::<char>::empty()
                } else {
                    old(self).input_buf@
                }
                &&& final(self).input_prompt@ == match f {
                    StatusField::Offset => "Go to byte (hex):"@,
                    StatusField::Pack => "Go to pack (hex):"@,
                    _ => old(self).input_prompt@,
                }
                &&& final(self).menu_selected == if f == StatusField::Menu {
                    0
                } else {
                    old(self).menu_selected
                }
            }),
            *final(self) == (App {
                input_mode: final(self).input_mode,
                input_buf: final(self).input_buf,
                input_prompt: final(self).input_prompt,
                menu_selected: final(self).menu_selected,
                ..*old(self)
            }),
    {
        let f = self.status_field_at_col(mx);
        status_step(&mut self.input_mode, &mut self.input_buf, &mut self.input_prompt, &mut self.menu_selected, f);
    }

    /// A left click in the open menu on its row `row` (`None` outside the
    /// menu): the first row opens the help at its top, the third the about
    /// box, a click outside closes the menu; the second row asks the caller
    /// to write the sample file (`true`), changing nothing.
    pub fn menu_click(&mut self, row: Option<u16>) -> (sample: bool)
        ensures
            final(self).input_mode == menu_click_mode(old(self).input_mode, row),
            final(self).help_scroll == if row == Some(0u16) {
                0
            } else {
                old(self).help_scroll
            },
            sample == (row == Some(1u16)),
            *final(self) == (App {
                input_mode: final(self).input_mode,
                help_scroll: final(self).help_scroll,
                ..*old(self)
            }),
    {
        menu_step(&mut self.input_mode, &mut self.help_scroll, row)
    }
}

} // verus!

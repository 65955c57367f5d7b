use read_bin::app::{App, DisplayMode, InputMode};
use read_bin::render::{
    alternate_dims, cell_emphasis, Emphasis, byte_disp, byte_display, byte_type_group, char_type_group, cube_rgb, gray_bg, gray_rgb,
    heat_bg, help_lines, indexed_rgb, parse_hex_input, rgb_bg, rgbbit_bg,
};

#[test]
fn ascii_cells() {
    assert_eq!(byte_disp(0x41, DisplayMode::Ascii), "A ");
    assert_eq!(byte_disp(0x00, DisplayMode::Ascii), ". ");
    assert_eq!(byte_disp(0x09, DisplayMode::Ascii), "↹ ");
    assert_eq!(byte_disp(0x0d, DisplayMode::Ascii), "↵ ");
    assert_eq!(byte_disp(0x0a, DisplayMode::Ascii), "⏎ ");
    assert_eq!(byte_disp(0x1b, DisplayMode::Ascii), "\\e");
    assert_eq!(byte_disp(0x20, DisplayMode::Ascii), "· ");
    assert_eq!(byte_disp(0x05, DisplayMode::Ascii), "05");
    assert_eq!(byte_disp(0xff, DisplayMode::Ascii), "ff");
    assert_eq!(byte_disp(0x41, DisplayMode::Hex), "41");
    assert_eq!(byte_disp(0xab, DisplayMode::Utf8), "ab");
}

#[test]
fn earlier_renderer_cells() {
    assert_eq!(byte_display(0x0d, DisplayMode::Ascii), "\\r");
    assert_eq!(byte_display(0x09, DisplayMode::Ascii), "09");
    assert_eq!(byte_display(0x7e, DisplayMode::Ascii), "~ ");
}

#[test]
fn shade_groups() {
    assert_eq!(byte_type_group(0, DisplayMode::Ascii), 1);
    assert_eq!(byte_type_group(0x41, DisplayMode::Ascii), 5);
    assert_eq!(byte_type_group(0x90, DisplayMode::Ascii), 6);
    assert_eq!(byte_type_group(0x41, DisplayMode::Hex), 1);
    assert_eq!(byte_type_group(0x41, DisplayMode::Utf8), 0);
    assert_eq!(char_type_group('a'), 1);
    assert_eq!(char_type_group('\n'), 2);
    assert_eq!(char_type_group('中'), 4);
    assert_eq!(char_type_group('한'), 5);
    assert_eq!(char_type_group('あ'), 6);
    assert_eq!(char_type_group('—'), 7);
    assert_eq!(char_type_group('é'), 8);
}

#[test]
fn palette_colours() {
    assert_eq!(cube_rgb(16), (0, 0, 0));
    assert_eq!(cube_rgb(231), (255, 255, 255));
    assert_eq!(cube_rgb(16 + 36 + 6 + 1), (95, 95, 95));
    assert_eq!(gray_rgb(232), (8, 8, 8));
    assert_eq!(gray_rgb(255), (238, 238, 238));
    assert_eq!(indexed_rgb(1), (170, 0, 0));
    assert_eq!(indexed_rgb(9), (255, 85, 85));
    assert_eq!(indexed_rgb(196), (255, 0, 0));
    assert_eq!(indexed_rgb(244), (128, 128, 128));
}

#[test]
fn byte_backgrounds() {
    assert_eq!(gray_bg(0x42), (0x42, 0x42, 0x42));
    assert_eq!(heat_bg(0), (0, 0, 0));
    assert_eq!(heat_bg(32), (0, 0, 128));
    assert_eq!(heat_bg(128), (255, 0, 0));
    assert_eq!(rgbbit_bg(0xff), (255, 255, 255));
    assert_eq!(rgbbit_bg(0b0100_0001), (85, 0, 85));
    let data = [10u8, 20, 30];
    assert_eq!(rgb_bg(&data, 1, 3), (10, 20, 30));
    assert_eq!(rgb_bg(&data, 0, 3), (0, 10, 20));
}

#[test]
fn hex_offsets() {
    assert_eq!(parse_hex_input("0x1F"), Some(31));
    assert_eq!(parse_hex_input(" 1g2 "), Some(0x12));
    assert_eq!(parse_hex_input("FF"), Some(255));
    assert_eq!(parse_hex_input(""), None);
    assert_eq!(parse_hex_input("0x"), None);
    assert_eq!(parse_hex_input("zz"), None);
    assert_eq!(parse_hex_input("1ffffffffffffffffffff"), None);
}

#[test]
fn help_has_all_lines() {
    let lines = help_lines();
    assert_eq!(lines.len(), 36);
}

#[test]
fn cell_emphasis_priorities() {
    // the cursor first
    assert_eq!(cell_emphasis(5, true, 5, Some((4, 8)), Some(0), Some(9), true), Emphasis::Cursor);
    // an unfocused cursor counts for nothing
    assert_eq!(cell_emphasis(5, false, 5, None, None, None, false), Emphasis::Plain);
    // the current match comes before the selection and the dimming
    assert_eq!(cell_emphasis(6, true, 5, Some((4, 8)), Some(0), Some(9), true), Emphasis::Match);
    // outside the match, the selection and then the dimming still count
    assert_eq!(cell_emphasis(9, true, 5, Some((4, 8)), Some(0), Some(9), true), Emphasis::Selected);
    assert_eq!(cell_emphasis(10, true, 5, Some((4, 8)), Some(0), Some(9), true), Emphasis::Dimmed);
    assert_eq!(cell_emphasis(10, true, 5, Some((4, 8)), Some(0), Some(9), false), Emphasis::Plain);
    // a selection given from its end backwards
    assert_eq!(cell_emphasis(9, true, 5, None, Some(9), Some(2), true), Emphasis::SelectionStart);
    assert_eq!(cell_emphasis(2, true, 5, None, Some(9), Some(2), true), Emphasis::Selected);
    assert_eq!(cell_emphasis(1, true, 5, None, Some(9), Some(2), false), Emphasis::Plain);
    assert_eq!(cell_emphasis(1, true, 5, None, Some(9), Some(2), true), Emphasis::Dimmed);
    assert_eq!(cell_emphasis(1, true, 5, None, Some(9), None, true), Emphasis::Dimmed);
    assert_eq!(cell_emphasis(1, true, 5, None, None, None, false), Emphasis::Plain);
}

#[test]
fn runs_of_a_group_alternate() {
    assert_eq!(alternate_dims(&vec![]), Vec::<bool>::new());
    assert_eq!(
        alternate_dims(&vec![5, 5, 5, 1, 1, 5, 5, 5, 5]),
        vec![false, true, false, false, true, false, true, false, true]
    );
    assert_eq!(alternate_dims(&vec![0, 0, 3]), vec![true, false, false]);
}

#[test]
fn row_cells_show_edits_in_italics() {
    let mut data = b"AAAB".to_vec();
    data.extend_from_slice(&[0u8; 12]);
    data.push(b'C');
    let mut app = App::new(data.len(), "t".to_string());
    app.cursor_byte = 2;
    app.edit_char(&data, 'Z');
    app.input_mode = InputMode::Normal;
    app.cursor_focused = false;
    let row = app.row_cells(&data, 0);
    assert_eq!(row.len(), 16);
    assert_eq!(row[2].byte, b'Z');
    assert_eq!(row[2].text, "Z ");
    assert!(row[2].italic);
    assert!(!row[0].italic && !row[3].italic);
    assert_eq!(row[0].byte, b'A');
    assert_eq!(
        row.iter().take(6).map(|c| c.shade).collect::<Vec<bool>>(),
        vec![false, true, false, true, false, true]
    );
    assert_eq!(row[5].text, ". ");
    assert!(row.iter().all(|c| c.emphasis == Emphasis::Plain));
    let last = app.row_cells(&data, 1);
    assert_eq!(last.len(), 1);
    assert_eq!(last[0].off, 16);
    assert_eq!(last[0].text, "C ");
    app.cursor_focused = true;
    app.cursor_byte = 16;
    assert_eq!(app.row_cells(&data, 1)[0].emphasis, Emphasis::Cursor);
}

use read_bin::app::{App, DisplayMode, InputMode};
use read_bin::mouse::{
    chooser_pick, chooser_row_at, data_offset_at, menu_row_at, status_field_at, status_offset_width,
    ChooserPick, StatusField,
};

#[test]
fn clicks_on_bytes() {
    // row 2 is the first data row, column 4 the first byte, two columns a byte
    assert_eq!(data_offset_at(4, 2, 40, 0, 1000), Some(0));
    assert_eq!(data_offset_at(7, 2, 40, 0, 1000), Some(1));
    assert_eq!(data_offset_at(35, 3, 40, 10, 1000), Some(11 * 16 + 15));
    assert_eq!(data_offset_at(36, 3, 40, 10, 1000), None);
    assert_eq!(data_offset_at(3, 3, 40, 0, 1000), None);
    assert_eq!(data_offset_at(4, 1, 40, 0, 1000), None);
    assert_eq!(data_offset_at(4, 39, 40, 0, 100000), None);
    assert_eq!(data_offset_at(4, 10, 40, 0, 100), None);
}

#[test]
fn dropdown_rows() {
    // twelve rows ending just above the status bar of a 40-row screen
    assert_eq!(chooser_row_at(0, 27, 40), Some(0));
    assert_eq!(chooser_row_at(9, 38, 40), Some(11));
    assert_eq!(chooser_row_at(10, 30, 40), None);
    assert_eq!(chooser_row_at(0, 26, 40), None);
    assert_eq!(menu_row_at(66, 36, 80, 40), Some(0));
    assert_eq!(menu_row_at(79, 38, 80, 40), Some(2));
    assert_eq!(menu_row_at(65, 36, 80, 40), None);
    assert_eq!(chooser_pick(0), ChooserPick::Mode(DisplayMode::Ascii));
    assert_eq!(chooser_pick(2), ChooserPick::Mode(DisplayMode::Utf8));
    assert_eq!(chooser_pick(3), ChooserPick::Nothing);
    assert_eq!(chooser_pick(4), ChooserPick::NoColour);
    assert_eq!(chooser_pick(5), ChooserPick::Radio(0));
    assert_eq!(chooser_pick(11), ChooserPick::Radio(6));
    assert_eq!(chooser_pick(12), ChooserPick::Nothing);
}

#[test]
fn status_bar_fields() {
    // "[ASCII]  @0000  pack 1/1  menu" for a 1000-byte file
    assert_eq!(status_offset_width(1000), 4);
    assert_eq!(status_offset_width(0x100_0000), 8);
    assert_eq!(status_field_at(3, 7, false, 1000, 0, 1), StatusField::Mode);
    assert_eq!(status_field_at(9, 7, false, 1000, 0, 1), StatusField::Offset);
    assert_eq!(status_field_at(13, 7, false, 1000, 0, 1), StatusField::Offset);
    assert_eq!(status_field_at(14, 7, false, 1000, 0, 1), StatusField::Nothing);
    assert_eq!(status_field_at(16, 7, false, 1000, 0, 1), StatusField::Pack);
    assert_eq!(status_field_at(23, 7, false, 1000, 0, 1), StatusField::Pack);
    assert_eq!(status_field_at(24, 7, false, 1000, 0, 1), StatusField::Nothing);
    assert_eq!(status_field_at(26, 7, false, 1000, 0, 1), StatusField::Menu);
    // unsaved edits shift the fields by eleven columns
    assert_eq!(status_field_at(9, 7, true, 1000, 0, 1), StatusField::Nothing);
    assert_eq!(status_field_at(20, 7, true, 1000, 0, 1), StatusField::Offset);
}

#[test]
fn click_drag_and_release() {
    let mut app = read_bin::app::App::new(100000, "f".to_string());
    app.sel_start = Some(3);
    app.sel_end = Some(9);
    app.click_cell(70000, 40);
    assert_eq!(app.cursor_byte, 70000);
    assert!(app.cursor_focused && app.dragging);
    assert_eq!((app.sel_start, app.sel_end), (None, None));
    // the cursor's row is now the last one on screen
    assert_eq!(app.global_scroll_top(), 70000 / 16 - 36);
    app.drag_to(70040, 40);
    assert_eq!((app.sel_start, app.sel_end), (Some(70040), Some(70040)));
    app.drag_to(70050, 40);
    assert_eq!((app.sel_start, app.sel_end), (Some(70040), Some(70050)));
    app.release_button();
    assert!(!app.dragging);
    assert_eq!((app.sel_start, app.sel_end), (Some(70040), Some(70050)));
    app.click_cell(5, 40);
    app.release_button();
    assert_eq!((app.sel_start, app.sel_end), (None, None));
    assert_eq!(app.global_scroll_top(), 0);
}

#[test]
fn status_bar_clicks_open_prompts() {
    let mut app = App::new(17, "t".to_string());
    app.input_buf = "zz".to_string();
    app.status_click(12);
    assert_eq!(app.input_mode, InputMode::Normal);
    assert_eq!(app.input_buf, "zz");
    app.status_click(10);
    assert_eq!(app.input_mode, InputMode::GotoByteInput);
    assert_eq!(app.input_prompt, "Go to byte (hex):");
    assert_eq!(app.input_buf, "");
    app.input_mode = InputMode::Normal;
    app.status_click(15);
    assert_eq!(app.input_mode, InputMode::GotoInput);
    assert_eq!(app.input_prompt, "Go to pack (hex):");
    app.input_mode = InputMode::Normal;
    app.menu_selected = 2;
    app.status_click(30);
    assert_eq!(app.input_mode, InputMode::Menu);
    assert_eq!(app.menu_selected, 0);
    app.input_mode = InputMode::Normal;
    app.status_click(3);
    assert_eq!(app.input_mode, InputMode::ModeSelect);
}

#[test]
fn menu_clicks() {
    let mut app = App::new(17, "t".to_string());
    app.input_mode = InputMode::Menu;
    app.help_scroll = 5;
    assert!(app.menu_click(Some(1)));
    assert_eq!(app.input_mode, InputMode::Menu);
    assert!(!app.menu_click(Some(0)));
    assert_eq!(app.input_mode, InputMode::Help);
    assert_eq!(app.help_scroll, 0);
    app.input_mode = InputMode::Menu;
    assert!(!app.menu_click(Some(2)));
    assert_eq!(app.input_mode, InputMode::About);
    app.input_mode = InputMode::Menu;
    assert!(!app.menu_click(None));
    assert_eq!(app.input_mode, InputMode::Normal);
}

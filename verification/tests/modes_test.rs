use read_bin::app::{App, DisplayMode, InputMode};

#[test]
fn mode_next_cycles_through_three_modes() {
    assert_eq!(DisplayMode::Ascii.next(), DisplayMode::Hex);
    assert_eq!(DisplayMode::Hex.next(), DisplayMode::Utf8);
    assert_eq!(DisplayMode::Utf8.next(), DisplayMode::Ascii);
}

#[test]
fn mode_prev_undoes_next() {
    for m in [DisplayMode::Ascii, DisplayMode::Hex, DisplayMode::Utf8] {
        assert_eq!(m.next().prev(), m);
        assert_eq!(m.prev().next(), m);
        assert_eq!(m.next().next().next(), m);
    }
}

#[test]
fn mode_labels() {
    assert_eq!(DisplayMode::Ascii.label(), "[ASCII]");
    assert_eq!(DisplayMode::Hex.label(), "[HEX]");
    assert_eq!(DisplayMode::Utf8.label(), "[UTF8]");
}

#[test]
fn new_app_starts_at_first_pack() {
    let app = App::new(10000, "f.bin".to_string());
    assert_eq!(app.file_size, 10000);
    assert_eq!(app.pack_size, 4096);
    assert_eq!(app.total_packs, 3);
    assert_eq!(app.current_pack, 0);
    assert_eq!(app.scroll_top, 0);
    assert_eq!(app.mode, DisplayMode::Ascii);
    assert_eq!(app.input_mode, InputMode::Normal);
    assert!(!app.dirty);
    assert!(app.search.is_none());
    assert_eq!(app.filename, "f.bin");
}

#[test]
fn rows_and_lengths() {
    let mut app = App::new(10000, "f".to_string());
    assert_eq!(app.max_rows(40), 37);
    assert_eq!(app.max_rows(2), 0);
    assert_eq!(app.data_len(), 4096);
    assert_eq!(app.total_rows(), 256);
    app.current_pack = 2;
    assert_eq!(app.data_len(), 10000 - 8192);
    assert_eq!(app.total_rows(), (1808 + 15) / 16);
    assert_eq!(app.global_total_rows(), 625);
}

#[test]
fn global_scroll_round_trip() {
    let mut app = App::new(10000, "f".to_string());
    app.set_global_scroll(300);
    assert_eq!(app.current_pack, 1);
    assert_eq!(app.scroll_top, 44);
    assert_eq!(app.global_scroll_top(), 300);
    assert_eq!(app.global_to_local(300), (1, 44));
    // capped at the last row of the file
    app.set_global_scroll(100000);
    assert_eq!(app.global_scroll_top(), 624);
    assert_eq!(app.global_to_local(100000), (2, 100000 % 256));
}

#[test]
fn cursor_scrolls_into_view() {
    let mut app = App::new(100000, "f".to_string());
    app.cursor_byte = 16 * 50;
    app.ensure_cursor_visible(13);
    // ten rows on screen: the cursor's row becomes the last one
    assert_eq!(app.global_scroll_top(), 41);
    app.cursor_byte = 16 * 5;
    app.ensure_cursor_visible(13);
    assert_eq!(app.global_scroll_top(), 5);
    // a visible cursor changes nothing
    app.cursor_byte = 16 * 7;
    app.ensure_cursor_visible(13);
    assert_eq!(app.global_scroll_top(), 5);
}

#[test]
fn mods_string_lists_flags() {
    let mut app = App::new(10, "f".to_string());
    assert_eq!(app.mods_string(), "");
    app.flag_immediate = true;
    app.flag_lock = "f";
    app.flag_track = true;
    app.flag_copy = true;
    assert_eq!(app.mods_string(), "iftc");
    app.flag_inotify = true;
    app.flag_lock = "4";
    assert_eq!(app.mods_string(), "i4Tc");
}

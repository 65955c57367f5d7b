use read_bin::app::{App, InputMode};
use read_bin::search::Needle;

fn sample() -> Vec<u8> {
    let mut data = vec![0u8; 17];
    data[2] = 0x41;
    data[3] = 0xab;
    data
}

#[test]
fn normal_status_line() {
    let data = sample();
    let mut app = App::new(data.len(), "t".to_string());
    assert_eq!(app.status_text(&data, 20), "[ASCII]  & 00  pack 1/1  [MENU]");
    app.dirty = true;
    app.cursor_byte = 0x10;
    assert_eq!(app.status_text(&data, 20), "[ASCII] [MODIFIED]  & 10  pack 1/1  [MENU]");
}

#[test]
fn edit_status_line() {
    let data = sample();
    let mut app = App::new(data.len(), "t".to_string());
    app.input_mode = InputMode::Edit;
    app.cursor_byte = 2;
    assert_eq!(app.status_text(&data, 20), "[EDIT ASCII] [41]  & 02  @1/1");
    app.cursor_byte = 3;
    assert_eq!(app.status_text(&data, 20), "[EDIT ASCII] [AB]  & 03  @1/1");
    app.edit_char(&data, 'Z');
    app.cursor_byte = 3;
    assert_eq!(app.status_text(&data, 20), "[EDIT ASCII] [5A]  & 03  @1/1");
}

#[test]
fn prompt_and_fixed_status_lines() {
    let data = sample();
    let mut app = App::new(data.len(), "t".to_string());
    app.input_mode = InputMode::SaveConfirm;
    assert_eq!(app.status_text(&data, 20), "Save changes? [Yes] [No]");
    app.input_mode = InputMode::Help;
    assert_eq!(app.status_text(&data, 20), "Press any key to close");
    app.input_mode = InputMode::GotoInput;
    app.input_prompt = "Go to pack (hex):".to_string();
    app.input_buf = "1f".to_string();
    assert_eq!(app.status_text(&data, 20), "Go to pack (hex): 1f");
    app.input_mode = InputMode::Menu;
    assert_eq!(app.status_text(&data, 20), "");
}

#[test]
fn search_status_line() {
    let mut data = vec![0u8; 10000];
    data[100] = 0xde;
    data[101] = 0xad;
    data[5000] = 0xde;
    data[5001] = 0xad;
    let mut app = App::new(data.len(), "f".to_string());
    assert!(app.apply_search(Needle::Lit(vec![0xde, 0xad]), 2, "dead".to_string(), &data, 40));
    assert_eq!(app.status_text(&data, 20), "Search: dead [1/2] @1/3  ↑↓:next ESC:clear");
    assert!(app.next_global(&data, 40));
    assert_eq!(app.status_text(&data, 20), "Search: dead [2/2] @2/3  ↑↓:next ESC:clear");
}

#[test]
fn packs_cover_the_file() {
    assert_eq!(App::new(0, "e".to_string()).total_packs, 0);
    assert_eq!(App::new(1, "e".to_string()).total_packs, 1);
    assert_eq!(App::new(4096, "e".to_string()).total_packs, 1);
    assert_eq!(App::new(4097, "e".to_string()).total_packs, 2);
}

use read_bin::app::{App, DisplayMode};
use read_bin::search::Needle;

fn file() -> Vec<u8> {
    (0u8..32).collect()
}

#[test]
fn modify_then_read_back() {
    let data = file();
    let mut app = App::new(data.len(), "f".to_string());
    app.modify(&data, 2, 0x41);
    assert_eq!(app.byte_at(&data, 2), 0x41);
    assert_eq!(app.byte_at(&data, 3), 3);
    assert!(app.dirty);
    assert_eq!(app.undo_stack.len(), 1);
    assert_eq!(app.last_modified, Some(2));
    assert!(app.modified.is_modified(2));
    assert_eq!(app.original_values.get(&2), Some(&2));
    // writing the value shown changes nothing
    app.modify(&data, 2, 0x41);
    assert_eq!(app.undo_stack.len(), 1);
    // offsets past the end are ignored
    app.modify(&data, 99, 1);
    assert_eq!(app.undo_stack.len(), 1);
}

#[test]
fn undo_restores_and_redo_reapplies() {
    let data = file();
    let mut app = App::new(data.len(), "f".to_string());
    app.modify(&data, 5, 0xee);
    app.undo(&data);
    assert_eq!(app.byte_at(&data, 5), 5);
    assert!(app.undo_stack.is_empty());
    assert_eq!(app.redo_stack.len(), 1);
    assert!(!app.dirty);
    app.redo(&data);
    assert_eq!(app.byte_at(&data, 5), 0xee);
    assert_eq!(app.undo_stack.len(), 1);
    assert!(app.redo_stack.is_empty());
    assert!(app.dirty);
    // a new edit empties the redo stack
    app.undo(&data);
    app.modify(&data, 6, 1);
    assert!(app.redo_stack.is_empty());
}

#[test]
fn undo_with_nothing_to_undo_changes_nothing() {
    let data = file();
    let mut app = App::new(data.len(), "f".to_string());
    app.undo(&data);
    app.redo(&data);
    assert!(app.undo_stack.is_empty() && app.redo_stack.is_empty());
    assert!(!app.dirty);
}

#[test]
fn restore_puts_back_the_first_value() {
    let data = file();
    let mut app = App::new(data.len(), "f".to_string());
    app.modify(&data, 7, 0x10);
    app.modify(&data, 7, 0x20);
    app.restore_at(&data, 7);
    assert_eq!(app.byte_at(&data, 7), 7);
    assert!(!app.modified.is_modified(7));
    assert!(app.original_values.get(&7).is_none());
    // undo history is kept
    assert_eq!(app.undo_stack.len(), 2);
}

#[test]
fn hex_typing_fills_both_halves() {
    let data = file();
    let mut app = App::new(data.len(), "f".to_string());
    app.mode = DisplayMode::Hex;
    app.cursor_byte = 1;
    app.edit_hex(&data, 'f');
    assert_eq!(app.byte_at(&data, 1), 0xf1);
    assert_eq!((app.cursor_byte, app.cursor_nibble), (1, 1));
    app.edit_hex(&data, 'A');
    assert_eq!(app.byte_at(&data, 1), 0xfa);
    assert_eq!((app.cursor_byte, app.cursor_nibble), (2, 0));
    app.edit_hex(&data, 'g');
    assert_eq!(app.byte_at(&data, 2), 2);
    assert_eq!((app.cursor_byte, app.cursor_nibble), (2, 0));
    // the last byte's low half keeps the cursor there
    app.cursor_byte = 31;
    app.cursor_nibble = 1;
    app.edit_hex(&data, '0');
    assert_eq!(app.byte_at(&data, 31), 0x10);
    assert_eq!((app.cursor_byte, app.cursor_nibble), (31, 1));
}

#[test]
fn character_typing_writes_utf8() {
    let data = file();
    let mut app = App::new(data.len(), "f".to_string());
    app.cursor_byte = 3;
    app.edit_char(&data, 'é');
    assert_eq!(app.byte_at(&data, 3), 0xc3);
    assert_eq!(app.byte_at(&data, 4), 0xa9);
    assert_eq!(app.cursor_byte, 5);
    // at the end the character is cut, and the cursor stops past the end
    app.cursor_byte = 31;
    app.edit_char(&data, '中');
    assert_eq!(app.byte_at(&data, 31), 0xe4);
    assert_eq!(app.cursor_byte, 32);
    // a whole character reaching the end leaves the cursor on the last byte
    app.cursor_byte = 30;
    app.edit_char(&data, 'é');
    assert_eq!(app.byte_at(&data, 30), 0xc3);
    assert_eq!(app.byte_at(&data, 31), 0xa9);
    assert_eq!(app.cursor_byte, 31);
}

#[test]
fn search_jumps_to_matches() {
    let mut data = vec![0u8; 10000];
    data[100] = 0xde;
    data[101] = 0xad;
    data[5000] = 0xde;
    data[5001] = 0xad;
    let mut app = App::new(data.len(), "f".to_string());
    assert!(app.apply_search(Needle::Lit(vec![0xde, 0xad]), 2, "dead".to_string(), &data, 40));
    assert!(app.search_active);
    assert_eq!(app.search_len, 2);
    assert_eq!(app.current_match, Some(100));
    assert_eq!(app.cursor_byte, 100);
    assert_eq!(app.current_match_range(), Some((100, 102)));
    assert_eq!(app.current_match_number(&data), 1);
    assert!(app.next_global(&data, 40));
    assert_eq!(app.current_match, Some(5000));
    assert_eq!(app.current_pack, 1);
    // counted from 1
    assert_eq!(app.current_match_number(&data), 2);
    assert!(!app.next_global(&data, 40));
    assert_eq!(app.current_match, Some(5000));
    assert!(app.prev_global(&data, 40));
    assert_eq!(app.current_match, Some(100));
    assert!(app.jump_to_page_match(1, &data, 40));
    assert_eq!(app.current_match, Some(5000));
    assert!(app.jump_to_page_match_prev(0, &data, 40));
    assert_eq!(app.current_match, Some(100));
    app.clear_search();
    assert!(!app.search_active);
    assert!(app.search.is_none());
    assert_eq!(app.current_match_range(), None);
}

#[test]
fn saving_merges_the_edits() {
    let data = vec![1u8, 2, 3, 4];
    let mut app = App::new(data.len(), "f".to_string());
    app.modify(&data, 1, 9);
    app.modify(&data, 3, 7);
    assert_eq!(app.merged_bytes(&data), vec![1u8, 9, 3, 7]);
    assert_eq!(data, vec![1u8, 2, 3, 4]);
}

#[test]
fn typing_pushes_one_undo_entry_per_changed_byte() {
    let data = vec![b'a', b'x', b'c'];
    let mut app = App::new(data.len(), "f".to_string());
    app.edit_char(&data, 'a');
    assert_eq!(app.undo_stack.len(), 0);
    app.edit_char(&data, 'b');
    assert_eq!(app.undo_stack.len(), 1);
    assert_eq!((app.undo_stack[0].offset, app.undo_stack[0].old, app.undo_stack[0].new), (1, b'x', b'b'));
}

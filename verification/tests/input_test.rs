use read_bin::keys::{command_of, Command, KeyPress};
use read_bin::app::{App, DisplayMode, InputMode};
use read_bin::keys::{quit_request, Key};
use read_bin::nav::Nav;

#[test]
fn quit_asks_to_save_edits() {
    let (mut mode, mut sel) = (InputMode::Normal, false);
    assert!(quit_request(false, &mut mode, &mut sel));
    assert_eq!((mode, sel), (InputMode::Normal, false));
    assert!(!quit_request(true, &mut mode, &mut sel));
    assert_eq!((mode, sel), (InputMode::SaveConfirm, true));
}

#[test]
fn goto_pack_and_offset() {
    let data = vec![0u8; 20000];
    let mut app = App::new(data.len(), "f".to_string());
    app.input_mode = InputMode::GotoInput;
    app.input_buf = "0x3".to_string();
    app.submit_input(&data, 40);
    assert_eq!(app.input_mode, InputMode::Normal);
    assert!(app.input_buf.is_empty());
    assert_eq!(app.current_pack, 2);
    assert_eq!(app.cursor_byte, 2 * 4096);
    // a pack past the end changes nothing but the prompt
    app.input_mode = InputMode::GotoInput;
    app.input_buf = "ff".to_string();
    app.submit_input(&data, 40);
    assert_eq!(app.cursor_byte, 2 * 4096);
    app.input_mode = InputMode::GotoByteInput;
    app.input_buf = " 1234 ".to_string();
    app.submit_input(&data, 40);
    assert_eq!(app.cursor_byte, 0x1234);
    assert_eq!(app.current_pack, 1);
}

#[test]
fn search_from_the_prompts() {
    let mut data = vec![0u8; 9000];
    data[50..53].copy_from_slice(b"abc");
    data[8000..8003].copy_from_slice(b"abc");
    let mut app = App::new(data.len(), "f".to_string());
    app.input_mode = InputMode::StringSearchInput;
    app.input_buf = "  abc ".to_string();
    app.submit_input(&data, 40);
    assert!(app.search_active);
    assert_eq!(app.search_len, 3);
    assert_eq!(app.current_match, Some(50));
    assert_eq!(app.search.as_ref().unwrap().label(), "\"abc\"");
    app.input_mode = InputMode::SearchInput;
    app.input_buf = "61 62 63".to_string();
    app.submit_input(&data, 40);
    assert_eq!(app.search_len, 3);
    assert_eq!(app.search.as_ref().unwrap().label(), "61 62 63");
    // unreadable text starts no search
    app.clear_search();
    app.input_mode = InputMode::SearchInput;
    app.input_buf = "6q".to_string();
    app.submit_input(&data, 40);
    assert!(!app.search_active);
}

#[test]
fn navigation_steps() {
    let mut data = vec![0u8; 20000];
    data[9000] = 0xaa;
    data[9001] = 0xbb;
    let mut app = App::new(data.len(), "f".to_string());
    assert!(!app.apply_nav(Nav::ScrollTo(300), &data, 40));
    assert_eq!(app.global_scroll_top(), 300);
    assert!(!app.apply_nav(Nav::ShowPack(3), &data, 40));
    assert_eq!((app.current_pack, app.scroll_top), (3, 0));
    assert!(!app.apply_nav(Nav::Stay, &data, 40));
    assert_eq!((app.current_pack, app.scroll_top), (3, 0));
    assert!(app.apply_search(read_bin::search::Needle::Lit(vec![0xaa, 0xbb]), 2, "aabb".into(), &data, 40));
    assert!(app.apply_nav(Nav::FirstMatch, &data, 40));
    assert_eq!(app.current_match, Some(9000));
    assert!(!app.apply_nav(Nav::NextMatch, &data, 40));
    // a step back lands on the first match of its target page
    assert!(!app.apply_nav(Nav::MatchUpTo(4), &data, 40));
    assert!(app.apply_nav(Nav::MatchUpTo(2), &data, 40));
    assert_eq!(app.current_match, Some(9000));
    assert!(!app.apply_nav(Nav::MatchFrom(3), &data, 40));
}

#[test]
fn first_matches_of_file_and_page() {
    let mut data = vec![0u8; 20000];
    for p in [0usize, 8200, 9000, 12000] {
        data[p] = 0xaa;
        data[p + 1] = 0xbb;
    }
    let mut app = App::new(data.len(), "f".to_string());
    app.cursor_byte = 5000;
    assert!(app.apply_search(read_bin::search::Needle::Lit(vec![0xaa, 0xbb]), 2, "aabb".into(), &data, 40));
    assert_eq!(app.current_match, Some(8200));
    // Home: the very first match, at offset 0
    assert!(app.apply_nav(Nav::FirstMatch, &data, 40));
    assert_eq!(app.current_match, Some(0));
    assert_eq!(app.current_match_number(&data), 1);
    // the first match on page 2, going back from page 3
    app.current_pack = 3;
    assert!(app.apply_nav(Nav::MatchUpTo(2), &data, 40));
    assert_eq!(app.current_match, Some(8200));
    assert_eq!(app.current_match_number(&data), 2);
}

#[test]
fn edit_mode_arrows() {
    let data = vec![0u8; 10000];
    let mut app = App::new(data.len(), "f".to_string());
    app.mode = DisplayMode::Hex;
    app.cursor_byte = 4095;
    app.cursor_nibble = 1;
    app.edit_arrow(Key::Right, 40);
    assert_eq!((app.cursor_byte, app.cursor_nibble), (4096, 0));
    // the view scrolls so that the cursor's row is the last one shown
    assert_eq!(app.global_scroll_top(), 256 - 36);
    app.edit_arrow(Key::Left, 40);
    assert_eq!((app.cursor_byte, app.cursor_nibble), (4095, 1));
    app.edit_arrow(Key::PageDown, 40);
    assert_eq!(app.cursor_byte, 4095 + 37 * 16);
    app.cursor_byte = 9999;
    app.current_pack = 2;
    app.scroll_top = 0;
    app.edit_arrow(Key::Down, 40);
    assert_eq!(app.cursor_byte, 9999);
}

#[test]
fn key_commands() {
    let plain = |key| KeyPress { key, ctrl: false, alt: false };
    let ctrl = |key| KeyPress { key, ctrl: true, alt: false };
    let alt = |key| KeyPress { key, ctrl: false, alt: true };
    assert_eq!(command_of(ctrl(Key::Char('z')), InputMode::Normal, false), Command::Undo);
    assert_eq!(command_of(ctrl(Key::Char('s')), InputMode::Help, false), Command::Save);
    assert_eq!(command_of(ctrl(Key::Left), InputMode::Edit, false), Command::PackBack);
    assert_eq!(command_of(ctrl(Key::Left), InputMode::Normal, false), Command::Ignore);
    // a Ctrl key without a shortcut goes to the mode
    assert_eq!(command_of(ctrl(Key::Char('x')), InputMode::Normal, false), Command::ForMode(Key::Char('x')));
    assert_eq!(command_of(alt(Key::Char('j')), InputMode::Normal, false), Command::MarkStart);
    assert_eq!(command_of(alt(Key::Up), InputMode::Edit, false), Command::Increment);
    assert_eq!(command_of(plain(Key::Char('z')), InputMode::Normal, false), Command::ForMode(Key::Char('z')));
    // the key after Ctrl+K
    assert_eq!(command_of(plain(Key::Char('R')), InputMode::Normal, true), Command::Restore);
    assert_eq!(command_of(ctrl(Key::Char('m')), InputMode::Edit, true), Command::OpenMenu);
    assert_eq!(command_of(plain(Key::Char('x')), InputMode::Normal, true), Command::Ignore);
}

#[test]
fn edit_pack_steps_and_nudges() {
    let data: Vec<u8> = (0..10000u32).map(|i| (i % 256) as u8).collect();
    let mut app = App::new(data.len(), "f".to_string());
    app.edit_pack_step(true, 40);
    assert_eq!(app.cursor_byte, 4096);
    assert_eq!(app.current_pack, 1);
    app.edit_pack_step(false, 40);
    assert_eq!(app.cursor_byte, 0);
    app.edit_pack_step(false, 40);
    assert_eq!(app.cursor_byte, 0);
    app.cursor_byte = 5;
    app.nudge_byte(&data, true);
    assert_eq!(app.byte_at(&data, 5), 6);
    app.nudge_byte(&data, true);
    assert_eq!(app.byte_at(&data, 5), 7);
    app.cursor_byte = 0;
    app.nudge_byte(&data, false);
    assert_eq!(app.byte_at(&data, 0), 0);
    assert_eq!(app.undo_stack.len(), 2);
    app.cursor_byte = 255;
    app.nudge_byte(&data, true);
    assert_eq!(app.byte_at(&data, 255), 255);
}

#[test]
fn search_steps_reach_the_nearest_matches() {
    let mut data = vec![0u8; 20000];
    for p in [0usize, 4095, 9000] {
        data[p] = 0xaa;
        data[p + 1] = 0xbb;
    }
    let mut app = App::new(data.len(), "f".to_string());
    // a match at the cursor becomes current
    assert!(app.apply_search(read_bin::search::Needle::Lit(vec![0xaa, 0xbb]), 2, "aabb".into(), &data, 40));
    assert_eq!(app.current_match, Some(0));
    assert!(app.apply_nav(Nav::NextMatch, &data, 40));
    assert_eq!(app.current_match, Some(4095));
    assert!(app.apply_nav(Nav::NextMatch, &data, 40));
    assert_eq!(app.current_match, Some(9000));
    assert!(app.apply_nav(Nav::PrevMatch, &data, 40));
    assert_eq!(app.current_match, Some(4095));
    assert!(app.apply_nav(Nav::PrevMatch, &data, 40));
    assert_eq!(app.current_match, Some(0));
    assert!(!app.apply_nav(Nav::PrevMatch, &data, 40));
    assert_eq!(app.current_match, Some(0));
    // from page 1 on, the first match is the one at 9000 (4095 starts in page 0)
    assert!(app.apply_nav(Nav::MatchFrom(1), &data, 40));
    assert_eq!(app.current_match, Some(9000));
    assert!(app.apply_nav(Nav::MatchUpTo(0), &data, 40));
    assert_eq!(app.current_match, Some(0));
}

use read_bin::app::{App, DisplayMode, InputMode};
use read_bin::colors::{parse_hex3, split_top_level};
use read_bin::keys::{cycle_flags, radio_flags, save_prompt_key, selection_text, Action, Key};
use read_bin::nav::{edit_move, normal_nav, Nav};

#[test]
fn help_popup_keys() {
    let mut app = App::new(100, "f".to_string());
    app.input_mode = InputMode::Help;
    app.help_key(Key::Down);
    app.help_key(Key::PageDown);
    assert_eq!(app.help_scroll, 11);
    app.help_key(Key::Char('k'));
    assert_eq!(app.help_scroll, 10);
    app.help_key(Key::PageUp);
    app.help_key(Key::PageUp);
    assert_eq!(app.help_scroll, 0);
    app.help_key(Key::Char('q'));
    assert_eq!(app.input_mode, InputMode::Normal);
}

#[test]
fn menu_keys() {
    let mut app = App::new(100, "f".to_string());
    app.input_mode = InputMode::Menu;
    assert!(!app.menu_key(Key::Down));
    assert!(!app.menu_key(Key::Down));
    assert!(!app.menu_key(Key::Down));
    assert_eq!(app.menu_selected, 2);
    assert!(!app.menu_key(Key::Up));
    assert_eq!(app.menu_selected, 1);
    assert!(app.menu_key(Key::Enter));
    assert_eq!(app.input_mode, InputMode::Menu);
    assert!(app.menu_key(Key::Char('s')));
    app.help_scroll = 5;
    assert!(!app.menu_key(Key::Char('h')));
    assert_eq!(app.input_mode, InputMode::Help);
    assert_eq!(app.help_scroll, 0);
    app.input_mode = InputMode::Menu;
    app.menu_key(Key::Char('a'));
    assert_eq!(app.input_mode, InputMode::About);
    app.about_key(Key::Char('x'));
    assert_eq!(app.input_mode, InputMode::About);
    app.about_key(Key::Esc);
    assert_eq!(app.input_mode, InputMode::Normal);
}

#[test]
fn mode_chooser_keys() {
    let mut app = App::new(100, "f".to_string());
    app.input_mode = InputMode::ModeSelect;
    assert_eq!(app.mode_select_key(Key::Down), None);
    assert_eq!(app.mode, DisplayMode::Hex);
    assert_eq!(app.mode_select_key(Key::Char('k')), None);
    assert_eq!(app.mode, DisplayMode::Ascii);
    assert_eq!(app.mode_select_key(Key::Char('5')), Some(1));
    assert_eq!(app.input_mode, InputMode::ModeSelect);
    assert_eq!(app.mode_select_key(Key::Char('0')), Some(6));
    assert_eq!(app.mode_select_key(Key::Char('3')), None);
    assert_eq!(app.mode, DisplayMode::Utf8);
    assert_eq!(app.input_mode, InputMode::Normal);
}

#[test]
fn background_switches() {
    let none = (false, false, false, false, false, false, false);
    let rgb = radio_flags(none, 1);
    assert_eq!(rgb, (false, true, false, false, false, false, false));
    // pressing another turns the first off
    assert_eq!(radio_flags(rgb, 4), (false, false, false, false, true, false, false));
    // pressing the same one again turns it off
    assert_eq!(radio_flags(rgb, 1), none);
    // stepping: none → 256 colours → RGB → ... → RGB by bits → none
    let mut f = none;
    let mut seen = Vec::new();
    for _ in 0..8 {
        f = cycle_flags(f);
        seen.push(f);
    }
    assert_eq!(seen[0], (true, false, false, false, false, false, false));
    assert_eq!(seen[1], (false, true, false, false, false, false, false));
    assert_eq!(seen[6], (false, false, false, false, false, false, true));
    assert_eq!(seen[7], none);
}

#[test]
fn save_prompt() {
    let (mut sel, mut dirty) = (true, true);
    assert!(matches!(save_prompt_key(&mut sel, &mut dirty, Key::Left), Action::Nothing));
    assert!(!sel);
    assert!(matches!(save_prompt_key(&mut sel, &mut dirty, Key::Enter), Action::Quit));
    assert!(dirty);
    assert!(matches!(save_prompt_key(&mut sel, &mut dirty, Key::Char('y')), Action::SaveAndQuit));
    assert!(!dirty);
    dirty = true;
    sel = true;
    assert!(matches!(save_prompt_key(&mut sel, &mut dirty, Key::Char(' ')), Action::SaveAndQuit));
    assert!(!dirty);
    assert!(matches!(save_prompt_key(&mut sel, &mut dirty, Key::Esc), Action::Quit));
    assert!(matches!(save_prompt_key(&mut sel, &mut dirty, Key::Char('x')), Action::Nothing));
}

#[test]
fn copy_text_per_mode() {
    let data = [0x48u8, 0x69, 0x0d, 0x0a, 0x1b, 0x00, 0x20, 0xc3, 0xa9];
    assert_eq!(selection_text(&data, 0, 7, DisplayMode::Ascii), "Hi.... ");
    assert_eq!(selection_text(&data, 0, 3, DisplayMode::Hex), "48 69 0d");
    assert_eq!(selection_text(&data, 0, 0, DisplayMode::Hex), "");
    assert_eq!(selection_text(&data, 6, 3, DisplayMode::Utf8), " é");
    // a character may run past the selection
    assert_eq!(selection_text(&data, 7, 1, DisplayMode::Utf8), "é");
}

#[test]
fn edit_cursor_moves() {
    // hex mode: halves first, then bytes
    assert_eq!(edit_move(Key::Left, true, 5, 1, 0, 100, 1, 10), (5, 0, 0, false));
    assert_eq!(edit_move(Key::Left, true, 5, 0, 0, 100, 1, 10), (4, 1, 0, false));
    assert_eq!(edit_move(Key::Right, true, 5, 0, 0, 100, 1, 10), (5, 1, 0, false));
    assert_eq!(edit_move(Key::Right, true, 5, 1, 0, 100, 1, 10), (6, 0, 0, false));
    // into the previous and next packs
    assert_eq!(edit_move(Key::Left, false, 0, 0, 1, 10000, 3, 10), (4095, 0, 0, true));
    assert_eq!(edit_move(Key::Right, false, 9999, 0, 2, 10000, 3, 10), (9999, 0, 2, false));
    assert_eq!(edit_move(Key::Right, false, 4095, 0, 0, 10000, 3, 10), (4096, 0, 0, false));
    assert_eq!(edit_move(Key::Up, false, 20, 0, 0, 100, 1, 10), (4, 0, 0, false));
    assert_eq!(edit_move(Key::Up, false, 4, 0, 1, 10000, 3, 10), (4084, 0, 0, true));
    assert_eq!(edit_move(Key::Down, false, 90, 0, 0, 100, 1, 10), (90, 0, 0, false));
    assert_eq!(edit_move(Key::Down, false, 10, 0, 0, 100, 1, 10), (26, 0, 0, false));
    assert_eq!(edit_move(Key::PageDown, false, 10, 0, 0, 100, 1, 10), (99, 0, 0, false));
    assert_eq!(edit_move(Key::PageUp, false, 10, 0, 0, 100, 1, 10), (0, 0, 0, false));
    assert_eq!(edit_move(Key::Char('a'), false, 10, 0, 0, 100, 1, 10), (10, 0, 0, false));
}

#[test]
fn normal_mode_steps() {
    // not searching: scroll and page, bounded
    assert_eq!(normal_nav(Key::Down, false, 0, 3, 0, 625, 37), Nav::ScrollTo(1));
    assert_eq!(normal_nav(Key::Up, false, 0, 3, 0, 625, 37), Nav::Stay);
    assert_eq!(normal_nav(Key::Char('J'), false, 0, 3, 600, 625, 37), Nav::ScrollTo(588));
    assert_eq!(normal_nav(Key::Char('K'), false, 0, 3, 10, 625, 37), Nav::ScrollTo(0));
    assert_eq!(normal_nav(Key::Right, false, 2, 3, 0, 625, 37), Nav::Stay);
    assert_eq!(normal_nav(Key::Char('l'), false, 1, 3, 0, 625, 37), Nav::ShowPack(2));
    assert_eq!(normal_nav(Key::Char('L'), false, 1, 3, 0, 625, 37), Nav::ShowPack(2));
    assert_eq!(normal_nav(Key::Home, false, 2, 3, 0, 625, 37), Nav::ShowPack(0));
    assert_eq!(normal_nav(Key::PageDown, false, 0, 3, 0, 625, 37), Nav::ScrollTo(18));
    // searching: matches
    assert_eq!(normal_nav(Key::Down, true, 0, 3, 0, 625, 37), Nav::NextMatch);
    assert_eq!(normal_nav(Key::Char('o'), true, 0, 3, 0, 625, 37), Nav::MatchUpTo(0));
    assert_eq!(normal_nav(Key::Char('p'), true, 0, 3, 0, 625, 37), Nav::MatchFrom(2));
    assert_eq!(normal_nav(Key::Char('p'), true, 0, 300, 0, 625, 37), Nav::MatchFrom(256));
    assert_eq!(normal_nav(Key::Home, true, 2, 3, 0, 625, 37), Nav::FirstMatch);
    assert_eq!(normal_nav(Key::Right, true, 2, 3, 0, 625, 37), Nav::MatchFrom(2));
    assert_eq!(normal_nav(Key::Left, true, 0, 3, 0, 625, 37), Nav::MatchUpTo(0));
    assert_eq!(normal_nav(Key::Char('x'), true, 0, 3, 0, 625, 37), Nav::Stay);
}

#[test]
fn colour_readers() {
    assert_eq!(parse_hex3("ff8000"), Some([255, 128, 0]));
    assert_eq!(parse_hex3("FF8000extra"), Some([255, 128, 0]));
    assert_eq!(parse_hex3("+f0000"), Some([15, 0, 0]));
    assert_eq!(parse_hex3("ff80"), None);
    assert_eq!(parse_hex3("gg0000"), None);
    assert_eq!(split_top_level("fg: red , bg: [1, 2, 3],x", ','), vec!["fg: red", "bg: [1, 2, 3]", "x"]);
    assert_eq!(split_top_level("", ','), vec![""]);
    assert_eq!(split_top_level("a]]b,c", ','), vec!["a]]b", "c"]);
}

#[test]
fn eight_steps_come_back() {
    let start = (false, false, true, false, false, false, false);
    let mut f = start;
    for _ in 0..8 {
        f = cycle_flags(f);
    }
    assert_eq!(f, start);
}

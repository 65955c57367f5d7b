use read_bin::browser::sort_by_lower_name;
use read_bin::browser::{BrowserPick, DirEntry, FileBrowser};
use std::path::PathBuf;

fn browser(n: usize) -> FileBrowser {
    let mut b = FileBrowser::new(PathBuf::from("/"));
    for i in 0..n {
        b.entries.push(DirEntry { name: format!("e{}", i), is_dir: false, size: i as u64 });
    }
    b
}

#[test]
fn cursor_moves_within_entries() {
    let mut b = browser(5);
    assert_eq!(b.cursor, 0);
    b.move_up();
    assert_eq!(b.cursor, 0);
    b.move_down();
    b.move_down();
    assert_eq!(b.cursor, 2);
    b.page_down(10);
    assert_eq!(b.cursor, 4);
    b.move_down();
    assert_eq!(b.cursor, 4);
    b.page_up(3);
    assert_eq!(b.cursor, 1);
    b.page_up(3);
    assert_eq!(b.cursor, 0);
}

#[test]
fn view_follows_cursor() {
    let mut b = browser(50);
    b.cursor = 30;
    b.ensure_visible(10);
    assert_eq!(b.scroll_top, 21);
    b.cursor = 5;
    b.ensure_visible(10);
    assert_eq!(b.scroll_top, 5);
    b.cursor = 9;
    b.ensure_visible(10);
    assert_eq!(b.scroll_top, 5);
}

fn row(name: &str, is_dir: bool, size: u64) -> DirEntry {
    DirEntry { name: name.to_string(), is_dir, size }
}

#[test]
fn sorting_ignores_case_and_keeps_ties() {
    let sorted = sort_by_lower_name(vec![
        row("b", false, 1),
        row("A", false, 2),
        row("a", false, 3),
        row("C", false, 4),
    ]);
    let names: Vec<(String, u64)> = sorted.iter().map(|e| (e.name.clone(), e.size)).collect();
    assert_eq!(
        names,
        vec![("A".to_string(), 2), ("a".to_string(), 3), ("b".to_string(), 1), ("C".to_string(), 4)]
    );
}

#[test]
fn listing_puts_directories_before_files() {
    let mut b = FileBrowser::new(PathBuf::from("/tmp"));
    b.cursor = 3;
    b.scroll_top = 2;
    b.set_listing(
        true,
        vec![row("zeta.txt", false, 5), row("Docs", true, 0), row("alpha.bin", false, 9), row("bin", true, 0)],
    );
    let names: Vec<&str> = b.entries.iter().map(|e| e.name.as_str()).collect();
    assert_eq!(names, vec!["*sample", "..", "bin", "Docs", "alpha.bin", "zeta.txt"]);
    assert_eq!(b.entries[0].size, 256);
    assert!(b.entries[1].is_dir);
    assert_eq!((b.cursor, b.scroll_top), (0, 0));
    b.set_listing(false, vec![]);
    let names: Vec<&str> = b.entries.iter().map(|e| e.name.as_str()).collect();
    assert_eq!(names, vec!["*sample"]);
}

#[test]
fn choosing_a_row() {
    let mut b = FileBrowser::new(PathBuf::from("/tmp"));
    assert_eq!(b.pick(), BrowserPick::Nothing);
    b.set_listing(true, vec![row("notes.txt", false, 5), row("src", true, 0)]);
    assert_eq!(b.pick(), BrowserPick::Sample);
    b.move_down();
    assert_eq!(b.pick(), BrowserPick::Parent);
    b.move_down();
    assert_eq!(b.pick(), BrowserPick::Subdir);
    b.move_down();
    assert_eq!(b.pick(), BrowserPick::File);
}

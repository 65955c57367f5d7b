use read_bin::modified::ModifiedMap;

#[test]
fn marks_are_remembered() {
    let mut m = ModifiedMap::new();
    assert!(!m.is_modified(5));
    m.mark(5);
    m.mark(5000);
    m.mark(3 * 1024 * 1024 * 1024 + 17);
    assert!(m.is_modified(5));
    assert!(m.is_modified(5000));
    assert!(m.is_modified(3 * 1024 * 1024 * 1024 + 17));
    assert!(!m.is_modified(6));
    assert!(!m.is_modified(4999));
    assert!(!m.is_modified(3 * 1024 * 1024 * 1024 + 16));
}

#[test]
fn unmark_removes_only_that_offset() {
    let mut m = ModifiedMap::new();
    m.mark(10);
    m.mark(11);
    m.unmark(10);
    assert!(!m.is_modified(10));
    assert!(m.is_modified(11));
    m.unmark(11);
    assert!(!m.is_modified(11));
    m.unmark(99);
    assert!(!m.is_modified(99));
    m.mark(10);
    assert!(m.is_modified(10));
}

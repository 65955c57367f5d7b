use read_bin::bytepat::{compile_bytes_pattern, compile_fallback_pat, BytePat};

#[test]
fn single_byte_patterns() {
    assert!(BytePat::exact(0x41).matches(0x41));
    assert!(!BytePat::exact(0x41).matches(0x42));
    assert!(BytePat::hi_nibble(4).matches(0x4f));
    assert!(!BytePat::hi_nibble(4).matches(0x5f));
    assert!(BytePat::lo_nibble(2).matches(0xa2));
    assert!(!BytePat::lo_nibble(2).matches(0xa3));
    assert!(BytePat::any().matches(0x00));
}

#[test]
fn advanced_hex_pattern() {
    let p = compile_bytes_pattern("4X z x1 ff").unwrap();
    assert_eq!(p.pats.len(), 4);
    let data = [0u8, 0x4a, 0x99, 0x31, 0xff, 0x4b, 0x00, 0x11, 0xfe];
    assert_eq!(p.find_in(&data, 0), Some(1));
    assert_eq!(p.find_in(&data, 2), None);
}

#[test]
fn bad_advanced_patterns() {
    assert!(compile_bytes_pattern("").is_none());
    assert!(compile_bytes_pattern("--").is_none());
    // a lone last digit
    assert!(compile_bytes_pattern("ab c").is_none());
    assert!(compile_bytes_pattern("z").is_some());
}

#[test]
fn fallback_reads_hex_pairs_and_characters() {
    let p = compile_fallback_pat("41g").unwrap();
    assert_eq!(p.pats.len(), 2);
    let data = b"xAg";
    assert_eq!(p.find_in(data, 0), Some(1));
    // a backslash before digits keeps them as characters
    let q = compile_fallback_pat("\\41").unwrap();
    assert_eq!(q.pats.len(), 3);
    assert_eq!(q.find_in(b"\\41", 0), Some(0));
    assert!(compile_fallback_pat("").is_none());
}

#[test]
fn empty_pattern_finds_nothing() {
    let p = compile_bytes_pattern("z").unwrap();
    assert_eq!(p.find_in(&[], 0), None);
    assert_eq!(p.find_in(&[7], 0), Some(0));
    assert_eq!(p.find_in(&[7], 1), None);
}

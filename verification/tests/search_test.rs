use read_bin::search::{
    atoms_match, chunk_matches, compile_pat, hv, literal_matches_at, nib_match, parse_input,
    parse_str_input, tokenize, NibAtom, SearchKind,
};

#[test]
fn hex_digit_values() {
    assert_eq!(hv('0'), Some(0));
    assert_eq!(hv('9'), Some(9));
    assert_eq!(hv('a'), Some(10));
    assert_eq!(hv('F'), Some(15));
    assert_eq!(hv('g'), None);
}

#[test]
fn pure_hex_is_a_byte_search() {
    match parse_input("  de ad BE ef ") {
        Some(SearchKind::Hex { bytes, label }) => {
            assert_eq!(bytes, vec![0xde, 0xad, 0xbe, 0xef]);
            assert_eq!(label, "de ad BE ef");
        }
        _ => panic!("expected a byte search"),
    }
}

#[test]
fn odd_hex_falls_back_to_a_pattern_or_nothing() {
    // three digits: not a byte string, and an odd nibble count is no pattern
    assert!(parse_input("abc").is_none());
    assert!(parse_input("   ").is_none());
    assert!(parse_input("").is_none());
}

#[test]
fn nibble_pattern_search() {
    match parse_input("4x z [0-3]f") {
        Some(SearchKind::Pat { pat, label }) => {
            assert_eq!(
                pat,
                vec![
                    NibAtom::Exact(4),
                    NibAtom::Any,
                    NibAtom::Any,
                    NibAtom::Any,
                    NibAtom::Range(0, 3),
                    NibAtom::Exact(15),
                ]
            );
            assert_eq!(label, "4x z [0-3]f");
        }
        _ => panic!("expected a pattern"),
    }
    assert!(parse_input("4q").is_none());
}

#[test]
fn tokenize_ranges_are_ordered() {
    assert_eq!(tokenize("[9-2]"), Some(vec![NibAtom::Range(2, 9)]));
    assert_eq!(tokenize("X"), Some(vec![NibAtom::Any]));
    assert_eq!(tokenize("[12"), None);
    assert_eq!(compile_pat("x"), None);
    assert_eq!(compile_pat("xx"), Some(vec![NibAtom::Any, NibAtom::Any]));
}

#[test]
fn string_search_is_quoted_utf8() {
    let (label, bytes) = parse_str_input("  héllo ").unwrap();
    assert_eq!(label, "\"héllo\"");
    assert_eq!(bytes, "héllo".as_bytes().to_vec());
    assert!(parse_str_input(" \t ").is_none());
}

#[test]
fn nibble_matching() {
    assert!(nib_match(&NibAtom::Exact(3), 3));
    assert!(!nib_match(&NibAtom::Exact(3), 4));
    assert!(nib_match(&NibAtom::Range(2, 5), 5));
    assert!(!nib_match(&NibAtom::Range(2, 5), 6));
    assert!(nib_match(&NibAtom::Any, 9));
    let atoms = vec![NibAtom::Exact(4), NibAtom::Any, NibAtom::Range(0, 1), NibAtom::Exact(0xf)];
    let data = [0x00, 0x41, 0x1f, 0x00];
    assert!(atoms_match(&atoms, &data, 1));
    assert!(!atoms_match(&atoms, &data, 0));
}

#[test]
fn literal_matches() {
    let data = b"abcabcab";
    assert!(literal_matches_at(b"cab", data, 2));
    assert!(!literal_matches_at(b"cab", data, 3));
    assert_eq!(chunk_matches(b"ab", data, 0, 8), vec![(0, 2), (3, 5), (6, 8)]);
    assert_eq!(chunk_matches(b"ab", data, 1, 7), vec![(3, 5)]);
    assert_eq!(chunk_matches(b"aa", data, 0, 8), vec![]);
}

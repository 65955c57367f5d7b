use read_bin::bitmap::{decode, encode, next_set, prev_set, set_bit, BitSearch, GB_SIZE, MB_SIZE};
use read_bin::search::{Needle, NibAtom};

#[test]
fn coordinates_round_trip() {
    let pos = 3 * GB_SIZE + 5 * MB_SIZE + 7 * 4096 + 9;
    assert_eq!(decode(pos), (3, 5, 7, 9));
    assert_eq!(encode(3, 5, 7, 9), pos);
    assert_eq!(decode(0), (0, 0, 0, 0));
}

#[test]
fn bit_scans() {
    let mut bm = [0u8; 4];
    set_bit(&mut bm, 3);
    set_bit(&mut bm, 17);
    assert_eq!(bm, [0b0000_1000, 0, 0b0000_0010, 0]);
    assert_eq!(next_set(&bm, 32, 0), Some(3));
    assert_eq!(next_set(&bm, 32, 4), Some(17));
    assert_eq!(next_set(&bm, 32, 18), None);
    assert_eq!(next_set(&bm, 10, 4), None);
    assert_eq!(prev_set(&bm, 31), Some(17));
    assert_eq!(prev_set(&bm, 16), Some(3));
    assert_eq!(prev_set(&bm, 2), None);
}

#[test]
fn literal_search_steps_through_matches() {
    let data = b"xxabxxxxabxx".to_vec();
    let mut bs = BitSearch::new(Needle::Lit(b"ab".to_vec()), 2, "ab".to_string(), data.len());
    assert!(bs.has_more());
    assert_eq!(bs.scanned(), 0);
    assert_eq!(bs.next_match_after(&data, usize::MAX), Some(2));
    assert_eq!(bs.next_match_after(&data, 2), Some(8));
    assert_eq!(bs.next_match_after(&data, 8), None);
    assert!(!bs.has_more());
    assert_eq!(bs.prev_match_before(&data, 8), Some(2));
    assert_eq!(bs.prev_match_before(&data, 2), None);
    assert!(bs.matches_at(&data, 8));
    assert!(!bs.matches_at(&data, 7));
    assert_eq!(bs.pack_matches(&data, 0, 4096), vec![(2, 4), (8, 10)]);
}

#[test]
fn scanning_a_chunk_counts_matches() {
    let data = b"abab".to_vec();
    let mut bs = BitSearch::new(Needle::Lit(b"ab".to_vec()), 2, "ab".to_string(), data.len());
    assert_eq!(bs.scan_chunk(&data), 2);
    assert!(!bs.has_more());
    assert_eq!(bs.scanned(), 4);
}

#[test]
fn pattern_search() {
    // 4? then any byte then 0x0f
    let atoms = vec![NibAtom::Exact(4), NibAtom::Any, NibAtom::Any, NibAtom::Any, NibAtom::Exact(0), NibAtom::Exact(15)];
    let data = vec![0x00, 0x41, 0x99, 0x0f, 0x45, 0x00, 0x0e];
    let mut bs = BitSearch::new(Needle::Pat(atoms), 3, "4x z 0f".to_string(), data.len());
    assert_eq!(bs.next_match_after(&data, usize::MAX), Some(1));
    assert_eq!(bs.next_match_after(&data, 1), None);
}

#[test]
fn empty_needle_finds_nothing() {
    let data = b"abc".to_vec();
    let mut bs = BitSearch::new(Needle::Lit(Vec::new()), 0, String::new(), data.len());
    assert_eq!(bs.next_match_after(&data, usize::MAX), None);
    assert_eq!(bs.prev_match_before(&data, 3), None);
}

#[test]
fn matches_across_a_page_edge_are_found() {
    let mut data = vec![0u8; 4098];
    data[4095] = 0xab;
    data[4096] = 0xcd;
    let mut bs = BitSearch::new(Needle::Lit(vec![0xab, 0xcd]), 2, "abcd".to_string(), data.len());
    bs.scan_chunk(&data);
    assert_eq!(bs.next_match_after(&data, 0), Some(4095));
    assert_eq!(bs.next_match_after(&data, 4095), None);
    assert_eq!(bs.prev_match_before(&data, 4098), Some(4095));
    assert_eq!(bs.prev_match_before(&data, 4095), None);
}

#[test]
fn next_and_previous_are_the_nearest_matches() {
    let mut data = vec![0u8; 6000];
    for p in [100usize, 4095, 5000] {
        data[p] = 0xab;
        data[p + 1] = 0xcd;
    }
    let mut bs = BitSearch::new(Needle::Lit(vec![0xab, 0xcd]), 2, "abcd".to_string(), data.len());
    assert_eq!(bs.next_match_after(&data, 0), Some(100));
    assert_eq!(bs.next_match_after(&data, 100), Some(4095));
    assert_eq!(bs.next_match_after(&data, 4095), Some(5000));
    assert_eq!(bs.prev_match_before(&data, 5000), Some(4095));
    assert_eq!(bs.prev_match_before(&data, 4095), Some(100));
    assert_eq!(bs.prev_match_before(&data, 100), None);
    // a match that would run past the end is none
    assert_eq!(bs.next_match_after(&data, 5000), None);
    let short = vec![0xabu8];
    let mut bs2 = BitSearch::new(Needle::Lit(vec![0xab, 0xcd]), 2, "abcd".to_string(), short.len());
    assert_eq!(bs2.next_match_after(&short, usize::MAX), None);
    assert_eq!(bs2.prev_match_before(&short, 1), None);
}

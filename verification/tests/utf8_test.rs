use read_bin::utf8::{byte_class, decode_row, display_width, ByteClass, Utf8Segment};
use read_bin::utf8_span;

#[test]
fn byte_classes() {
    assert_eq!(byte_class(0x41), ByteClass::Ascii);
    assert_eq!(byte_class(0x80), ByteClass::Tail);
    assert_eq!(byte_class(0xC0), ByteClass::Invalid);
    assert_eq!(byte_class(0xC3), ByteClass::Duo);
    assert_eq!(byte_class(0xE4), ByteClass::Trio);
    assert_eq!(byte_class(0xF0), ByteClass::Quo);
    assert_eq!(byte_class(0xF8), ByteClass::Invalid);
}

#[test]
fn widths() {
    assert_eq!(display_width('a'), 1);
    assert_eq!(display_width('中'), 2);
    assert_eq!(display_width('😀'), 2);
    assert_eq!(display_width('é'), 1);
}

#[test]
fn decode_row_of_mixed_bytes() {
    let data = "aé中".as_bytes();
    let segs = decode_row(data, 0, data.len());
    assert_eq!(
        segs,
        vec![
            Utf8Segment::Char { pos: 0, ch: 'a', len: 1 },
            Utf8Segment::Char { pos: 1, ch: 'é', len: 2 },
            Utf8Segment::Char { pos: 3, ch: '中', len: 3 },
        ]
    );
}

#[test]
fn decode_row_marks_bad_bytes() {
    let data = [0xff, 0x41, 0x80];
    let segs = decode_row(&data, 0, 3);
    assert_eq!(segs[0], Utf8Segment::Invalid { pos: 0 });
    assert!(matches!(segs[1], Utf8Segment::Char { pos: 1, ch: 'A', len: 1 }));
    assert_eq!(segs[2], Utf8Segment::Invalid { pos: 2 });
}

#[test]
fn span_decoding_runs_past_the_row() {
    // a three-byte character starting at the last position of a two-byte row
    let data = [0x41, 0xe4, 0xb8, 0xad];
    let segs = utf8_span::decode_row(&data, 0, 2, 0);
    assert_eq!(
        segs,
        vec![
            utf8_span::Segment::Char { pos: 0, ch: 'A', len: 1 },
            utf8_span::Segment::Char { pos: 1, ch: '中', len: 3 },
        ]
    );
    let from_one = utf8_span::decode_row(&data, 0, 2, 1);
    assert_eq!(from_one.len(), 1);
}

//! Row decoding that lets a character run past the end of the row (into the
//! following bytes), starting from any position of the row.
use vstd::prelude::*;
use crate::utf8::{char_at, decode_at, lead_len_of, lemma_char_at_encoded};

pub use crate::utf8::{byte_class, display_width, ByteClass};

verus! {

/// A decoded piece of a row: a character of `len` bytes at row position
/// `pos`, or one byte at `pos` that starts no valid character.
#[derive(Debug, Clone, PartialEq, Eq, Structural)]
pub enum Segment {
    Char { pos: usize, ch: char, len: usize },
    Invalid { pos: usize },
}

/// Segments from position `i` up to `count`, where a character may use any of
/// the `total` bytes from `offset` and control characters are kept.
pub open spec fn span_segments(
    s: Seq<u8>,
    offset: int,
    count: int,
    total: int,
    i: int,
) -> Seq<Segment>
    decreases (if i < count { count - i } else { 0 }),
{
    if i >= count || i < 0 {
        Seq::empty()
    } else {
        match char_at(s, offset, total, i, false) {
            Some((ch, n)) => {
                seq![Segment::Char { pos: i as usize, ch, len: n as usize }] + span_segments(
                    s,
                    offset,
                    count,
                    total,
                    i + n,
                )
            },
            None => seq![Segment::Invalid { pos: i as usize }] + span_segments(
                s,
                offset,
                count,
                total,
                i + 1,
            ),
        }
    }
}

/// Decodes row positions `start_pos..count` of the bytes from `offset`; a
/// character starting in the row may end anywhere before the end of `data`.
pub fn decode_row(data: &[u8], offset: usize, count: usize, start_pos: usize) -> (out: Vec<
    Segment,
>)
    requires
        start_pos < count ==> offset + count <= data@.len(),
    ensures
        out@ == span_segments(
            data@,
            offset as int,
            count as int,
            if offset <= data@.len() { data@.len() - offset } else { 0 },
            start_pos as int,
        ),
{
    let total: usize = if offset <= data.len() { data.len() - offset } else { 0 };
    let mut out: Vec<Segment> = Vec::new();
    let mut i: usize = start_pos;
    if start_pos >= count {
        return out;
    }
    while i < count
        invariant
            offset + count <= data.len(),
            start_pos <= i,
            start_pos < count,
            total == data.len() - offset,
            i <= total,
            span_segments(data@, offset as int, count as int, total as int, start_pos as int)
                == out@ + span_segments(data@, offset as int, count as int, total as int, i as int),
        decreases total - i,
    {
        let b = data[offset + i];
        let n = lead_len_of(b);
        let mut decoded: Option<char> = None;
        if n != 0 && n <= total - i {
            decoded = decode_at(data, offset + i, n);
        }
        match decoded {
            Some(ch) => {
                proof {
                    vstd::utf8::char_u32_cast(ch, ch as u32);
                }
                assert(char_at(data@, offset as int, total as int, i as int, false) == Some(
                    (ch, n as int),
                ));
                let ghost old_out = out@;
                out.push(Segment::Char { pos: i, ch, len: n });
                assert(out@ == old_out + seq![Segment::Char { pos: i, ch, len: n }]);
                i += n;
            },
            None => {
                assert(char_at(data@, offset as int, total as int, i as int, false) is None);
                let ghost old_out = out@;
                out.push(Segment::Invalid { pos: i });
                assert(out@ == old_out + seq![Segment::Invalid { pos: i }]);
                i += 1;
            },
        }
    }
    out
}

/// Where the bytes from row position `i` are the UTF-8 encoding of a
/// character `c` (any character, controls included here) lying within the
/// bytes available, the decoded row continues there with one character
/// segment holding `c` and spanning exactly the bytes of its encoding.
pub proof fn law_span_decodes_encoded_char(s: Seq<u8>, offset: int, count: int, total: int, i: int, c: char)
    requires
        0 <= offset,
        0 <= i < count,
        i <= usize::MAX,
        i + vstd::utf8::encode_scalar(c as u32).len() <= total,
        offset + i + vstd::utf8::encode_scalar(c as u32).len() <= s.len(),
        s.subrange(offset + i, offset + i + vstd::utf8::encode_scalar(c as u32).len())
            == vstd::utf8::encode_scalar(c as u32),
    ensures
        span_segments(s, offset, count, total, i).len() > 0,
        span_segments(s, offset, count, total, i)[0] == (Segment::Char {
            pos: i as usize,
            ch: c,
            len: vstd::utf8::encode_scalar(c as u32).len() as usize,
        }),
{
    lemma_char_at_encoded(s, offset, total, i, c, false);
}

} // verus!

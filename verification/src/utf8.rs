//! UTF-8 byte classification and row decoding for the UTF-8 display mode.
use vstd::prelude::*;

verus! {

/// Whether `u` is a Unicode scalar value, i.e. a value `char` can hold.
pub open spec fn is_scalar_value(u: u32) -> bool {
    u <= 0xD7FF || (0xE000 <= u && u <= 0x10FFFF)
}

/// `char::from_u32`: `Some` exactly for Unicode scalar values, holding the
/// char of that value.
pub assume_specification[ char::from_u32 ](i: u32) -> (r: Option<char>)
    ensures
        r is Some <==> is_scalar_value(i),
        r matches Some(c) ==> c as u32 == i,
;

/// Kind of a byte seen on its own in a UTF-8 stream.
#[derive(Debug, Clone, Copy, PartialEq, Eq, Structural)]
pub enum ByteClass {
    Ascii,
    Tail,
    Invalid,
    Duo,
    Trio,
    Quo,
}

/// 0x00-0x7F single byte, 0x80-0xBF continuation, 0xC2-0xDF / 0xE0-0xEF /
/// 0xF0-0xF7 heads of 2/3/4-byte sequences, everything else invalid.
pub open spec fn class_of(b: u8) -> ByteClass {
    if b <= 0x7F {
        ByteClass::Ascii
    } else if b <= 0xBF {
        ByteClass::Tail
    } else if b <= 0xC1 {
        ByteClass::Invalid
    } else if b <= 0xDF {
        ByteClass::Duo
    } else if b <= 0xEF {
        ByteClass::Trio
    } else if b <= 0xF7 {
        ByteClass::Quo
    } else {
        ByteClass::Invalid
    }
}

pub fn byte_class(b: u8) -> (c: ByteClass)
    ensures
        c == class_of(b),
{
    if b <= 0x7F {
        ByteClass::Ascii
    } else if b <= 0xBF {
        ByteClass::Tail
    } else if b <= 0xC1 {
        ByteClass::Invalid
    } else if b <= 0xDF {
        ByteClass::Duo
    } else if b <= 0xEF {
        ByteClass::Trio
    } else if b <= 0xF7 {
        ByteClass::Quo
    } else {
        ByteClass::Invalid
    }
}

/// A decoded piece of a row: a character spanning `len` bytes from row
/// position `pos`, or a single byte at `pos` that starts no valid character.
#[derive(Debug, Clone, PartialEq, Eq, Structural)]
pub enum Utf8Segment {
    Char { pos: usize, ch: char, len: usize },
    Invalid { pos: usize },
}

/// Length of the sequence a lead byte announces (0: not a lead byte).
pub open spec fn lead_len(b: u8) -> int {
    if b <= 0x7F {
        1
    } else if 0xC2 <= b && b <= 0xDF {
        2
    } else if 0xE0 <= b && b <= 0xEF {
        3
    } else if 0xF0 <= b && b <= 0xF4 {
        4
    } else {
        0
    }
}

pub open spec fn is_cont(b: u8) -> bool {
    0x80 <= b && b <= 0xBF
}

/// Code point of the `n`-byte sequence starting at `k` in `s`.
pub open spec fn code_point(s: Seq<u8>, k: int, n: int) -> u32 {
    if n == 1 {
        s[k] as u32
    } else if n == 2 {
        (((s[k] & 0x1F) as u32) << 6u32) | ((s[k + 1] & 0x3F) as u32)
    } else if n == 3 {
        (((s[k] & 0x0F) as u32) << 12u32) | (((s[k + 1] & 0x3F) as u32) << 6u32) | ((s[k + 2]
            & 0x3F) as u32)
    } else {
        (((s[k] & 0x07) as u32) << 18u32) | (((s[k + 1] & 0x3F) as u32) << 12u32) | (((s[k + 2]
            & 0x3F) as u32) << 6u32) | ((s[k + 3] & 0x3F) as u32)
    }
}

/// Whether the `n` bytes from `k` are well-formed UTF-8 (continuation bytes,
/// no overlong forms, no surrogates, nothing above U+10FFFF).
pub open spec fn well_formed_at(s: Seq<u8>, k: int, n: int) -> bool {
    let b = s[k];
    &&& 1 <= n <= 4
    &&& forall|j: int| 1 <= j < n ==> is_cont(#[trigger] s[k + j])
    &&& !(n == 3 && b == 0xE0 && s[k + 1] < 0xA0)
    &&& !(n == 3 && b == 0xED && s[k + 1] > 0x9F)
    &&& !(n == 4 && b == 0xF0 && s[k + 1] < 0x90)
    &&& !(n == 4 && b == 0xF4 && s[k + 1] > 0x8F)
    &&& is_scalar_value(code_point(s, k, n))
}

/// The character starting at row position `i` (bytes `offset + i ..`), with its
/// length, when it lies within the first `limit` positions, is well formed, and
/// (where `no_controls` holds) is not a control other than `\n`, `\r`, `\t`.
pub open spec fn char_at(
    s: Seq<u8>,
    offset: int,
    limit: int,
    i: int,
    no_controls: bool,
) -> Option<(char, int)> {
    let k = offset + i;
    let n = lead_len(s[k]);
    if n == 0 || i + n > limit || !well_formed_at(s, k, n) {
        None
    } else {
        let cp = code_point(s, k, n);
        if no_controls && cp < 0x20 && cp != 0x0A && cp != 0x0D && cp != 0x09 {
            None
        } else {
            Some((cp as char, n))
        }
    }
}

/// Segments of the row from position `i` up to `count`.
pub open spec fn row_segments(s: Seq<u8>, offset: int, count: int, i: int) -> Seq<Utf8Segment>
    decreases count - i,
{
    if i >= count || i < 0 {
        Seq::empty()
    } else {
        match char_at(s, offset, count, i, true) {
            Some((ch, n)) => seq![Utf8Segment::Char { pos: i as usize, ch, len: n as usize }]
                + row_segments(s, offset, count, i + n),
            None => seq![Utf8Segment::Invalid { pos: i as usize }] + row_segments(
                s,
                offset,
                count,
                i + 1,
            ),
        }
    }
}

/// Decodes the sequence at `k` if it is a well-formed `n`-byte character.
pub(crate) fn decode_at(data: &[u8], k: usize, n: usize) -> (r: Option<char>)
    requires
        1 <= n <= 4,
        k + n <= data@.len(),
    ensures
        r is Some <==> well_formed_at(data@, k as int, n as int),
        r matches Some(c) ==> c as u32 == code_point(data@, k as int, n as int),
{
    let b = data[k];
    let mut j: usize = 1;
    while j < n
        invariant
            1 <= j <= n <= 4,
            k + n <= data.len(),
            forall|t: int| 1 <= t < j ==> is_cont(#[trigger] data@[k + t]),
        decreases n - j,
    {
        let cb = data[k + j];
        if !(0x80 <= cb && cb <= 0xBF) {
            return None;
        }
        j += 1;
    }
    if n == 3 && b == 0xE0 && data[k + 1] < 0xA0 {
        return None;
    }
    if n == 3 && b == 0xED && data[k + 1] > 0x9F {
        return None;
    }
    if n == 4 && b == 0xF0 && data[k + 1] < 0x90 {
        return None;
    }
    if n == 4 && b == 0xF4 && data[k + 1] > 0x8F {
        return None;
    }
    let cp: u32 = if n == 1 {
        b as u32
    } else if n == 2 {
        (((b & 0x1F) as u32) << 6u32) | ((data[k + 1] & 0x3F) as u32)
    } else if n == 3 {
        (((b & 0x0F) as u32) << 12u32) | (((data[k + 1] & 0x3F) as u32) << 6u32) | ((data[k + 2]
            & 0x3F) as u32)
    } else {
        (((b & 0x07) as u32) << 18u32) | (((data[k + 1] & 0x3F) as u32) << 12u32) | (((data[k
            + 2] & 0x3F) as u32) << 6u32) | ((data[k + 3] & 0x3F) as u32)
    };
    char::from_u32(cp)
}

pub(crate) fn lead_len_of(b: u8) -> (n: usize)
    ensures
        n == lead_len(b),
{
    if b <= 0x7F {
        1
    } else if 0xC2 <= b && b <= 0xDF {
        2
    } else if 0xE0 <= b && b <= 0xEF {
        3
    } else if 0xF0 <= b && b <= 0xF4 {
        4
    } else {
        0
    }
}

/// Splits the `count` bytes from `offset` into characters and invalid bytes.
/// A character must end within the row; controls other than `\n`, `\r`, `\t`
/// count as invalid bytes.
pub fn decode_row(data: &[u8], offset: usize, count: usize) -> (out: Vec<Utf8Segment>)
    requires
        offset + count <= data@.len(),
    ensures
        out@ == row_segments(data@, offset as int, count as int, 0),
{
    let mut out: Vec<Utf8Segment> = Vec::new();
    let mut i: usize = 0;
    while i < count
        invariant
            offset + count <= data.len(),
            i <= count,
            row_segments(data@, offset as int, count as int, 0) == out@ + row_segments(
                data@,
                offset as int,
                count as int,
                i as int,
            ),
        decreases count - i,
    {
        let b = data[offset + i];
        let n = lead_len_of(b);
        let mut decoded: Option<char> = None;
        if n != 0 && n <= count - i {
            match decode_at(data, offset + i, n) {
                Some(ch) => {
                    let u = ch as u32;
                    if !(u < 0x20 && u != 0x0A && u != 0x0D && u != 0x09) {
                        decoded = Some(ch);
                    }
                },
                None => {},
            }
        }
        match decoded {
            Some(ch) => {
                proof {
                    vstd::utf8::char_u32_cast(ch, ch as u32);
                }
                assert(char_at(data@, offset as int, count as int, i as int, true) == Some(
                    (ch, n as int),
                ));
                let ghost old_out = out@;
                out.push(Utf8Segment::Char { pos: i, ch, len: n });
                assert(out@ == old_out + seq![Utf8Segment::Char { pos: i, ch, len: n }]);
                i += n;
            },
            None => {
                assert(char_at(data@, offset as int, count as int, i as int, true) is None);
                let ghost old_out = out@;
                out.push(Utf8Segment::Invalid { pos: i });
                assert(out@ == old_out + seq![Utf8Segment::Invalid { pos: i }]);
                i += 1;
            },
        }
    }
    out
}

/// Code points that take two terminal columns (CJK, Hangul, full-width forms,
/// pictographs, ...).
pub open spec fn is_wide(u: u32) -> bool {
    (0x1100 <= u && u <= 0x115F) || u == 0x2329 || u == 0x232A || (0x2E80 <= u && u <= 0x33FF)
        || (0x3400 <= u && u <= 0x4DBF) || (0x4E00 <= u && u <= 0x9FFF) || (0xA000 <= u && u
        <= 0xA4CF) || (0xAC00 <= u && u <= 0xD7AF) || (0xF900 <= u && u <= 0xFAFF) || (0xFE30
        <= u && u <= 0xFE6F) || (0xFF00 <= u && u <= 0xFF60) || (0xFFE0 <= u && u <= 0xFFE6)
        || (0x1F000 <= u && u <= 0x1F9FF) || (0x20000 <= u && u <= 0x2FA1F)
}

/// Terminal columns a character occupies: 2 for wide characters, else 1.
pub fn display_width(ch: char) -> (w: usize)
    ensures
        w == (if is_wide(ch as u32) { 2usize } else { 1usize }),
{
    let u = ch as u32;
    if (0x1100 <= u && u <= 0x115F) || u == 0x2329 || u == 0x232A || (0x2E80 <= u && u <= 0x33FF)
        || (0x3400 <= u && u <= 0x4DBF) || (0x4E00 <= u && u <= 0x9FFF) || (0xA000 <= u && u
        <= 0xA4CF) || (0xAC00 <= u && u <= 0xD7AF) || (0xF900 <= u && u <= 0xFAFF) || (0xFE30
        <= u && u <= 0xFE6F) || (0xFF00 <= u && u <= 0xFF60) || (0xFFE0 <= u && u <= 0xFFE6)
        || (0x1F000 <= u && u <= 0x1F9FF) || (0x20000 <= u && u <= 0x2FA1F) {
        2
    } else {
        1
    }
}

proof fn lemma_encoding_1(v: u32, b0: u8)
    by (bit_vector)
    requires
        v <= 0x7F,
        b0 == (v & 0x7F) as u8,
    ensures
        b0 <= 0x7F,
        b0 as u32 == v,
{
}

proof fn lemma_encoding_2(v: u32, b0: u8, b1: u8)
    by (bit_vector)
    requires
        0x80 <= v <= 0x7FF,
        b0 == 0xC0 | ((v >> 6) & 0x1F) as u8,
        b1 == 0x80 | (v & 0x3F) as u8,
    ensures
        0xC2 <= b0 <= 0xDF,
        0x80 <= b1 <= 0xBF,
        (((b0 & 0x1F) as u32) << 6u32) | ((b1 & 0x3F) as u32) == v,
{
}

proof fn lemma_encoding_3(v: u32, b0: u8, b1: u8, b2: u8)
    by (bit_vector)
    requires
        0x800 <= v <= 0xFFFF,
        !(0xD800 <= v <= 0xDFFF),
        b0 == 0xE0 | ((v >> 12) & 0x0F) as u8,
        b1 == 0x80 | ((v >> 6) & 0x3F) as u8,
        b2 == 0x80 | (v & 0x3F) as u8,
    ensures
        0xE0 <= b0 <= 0xEF,
        0x80 <= b1 <= 0xBF,
        0x80 <= b2 <= 0xBF,
        !(b0 == 0xE0 && b1 < 0xA0),
        !(b0 == 0xED && b1 > 0x9F),
        (((b0 & 0x0F) as u32) << 12u32) | (((b1 & 0x3F) as u32) << 6u32) | ((b2 & 0x3F) as u32) == v,
{
}

proof fn lemma_encoding_4(v: u32, b0: u8, b1: u8, b2: u8, b3: u8)
    by (bit_vector)
    requires
        0x10000 <= v <= 0x10FFFF,
        b0 == 0xF0 | ((v >> 18) & 0x7) as u8,
        b1 == 0x80 | ((v >> 12) & 0x3F) as u8,
        b2 == 0x80 | ((v >> 6) & 0x3F) as u8,
        b3 == 0x80 | (v & 0x3F) as u8,
    ensures
        0xF0 <= b0 <= 0xF4,
        0x80 <= b1 <= 0xBF,
        0x80 <= b2 <= 0xBF,
        0x80 <= b3 <= 0xBF,
        !(b0 == 0xF0 && b1 < 0x90),
        !(b0 == 0xF4 && b1 > 0x8F),
        (((b0 & 0x07) as u32) << 18u32) | (((b1 & 0x3F) as u32) << 12u32) | (((b2 & 0x3F) as u32)
            << 6u32) | ((b3 & 0x3F) as u32) == v,
{
}

/// A character that is not a control other than `\n`, `\r`, `\t`.
pub open spec fn shown_char(c: char) -> bool {
    !((c as u32) < 0x20 && c != '\n' && c != '\r' && c != '\t')
}

/// The character found at row position `i` when the bytes there are the
/// UTF-8 encoding of `c`, for a shown character or when controls are kept.
pub(crate) proof fn lemma_char_at_encoded(s: Seq<u8>, offset: int, limit: int, i: int, c: char, nc: bool)
    requires
        0 <= offset,
        0 <= i,
        i + vstd::utf8::encode_scalar(c as u32).len() <= limit,
        offset + i + vstd::utf8::encode_scalar(c as u32).len() <= s.len(),
        s.subrange(offset + i, offset + i + vstd::utf8::encode_scalar(c as u32).len())
            == vstd::utf8::encode_scalar(c as u32),
        nc ==> shown_char(c),
    ensures
        1 <= vstd::utf8::encode_scalar(c as u32).len() <= 4,
        char_at(s, offset, limit, i, nc) == Some((c, vstd::utf8::encode_scalar(c as u32).len() as int)),
{
    let v = c as u32;
    let e = vstd::utf8::encode_scalar(v);
    let k = offset + i;
    vstd::utf8::char_is_scalar(c);
    vstd::utf8::char_u32_cast(c, v);
    assert forall|j: int| 0 <= j < e.len() implies s[k + j] == e[j] by {
        assert(s.subrange(k, k + e.len())[j] == s[k + j]);
    }
    if vstd::utf8::has_width_1_encoding(v) {
        assert(e =~= seq![vstd::utf8::leading_byte_width_1(v)]);
        assert(s[k + 0] == e[0]);
        lemma_encoding_1(v, s[k]);
        assert(char_at(s, offset, limit, i, nc) == Some((c, 1int)));
    } else if vstd::utf8::has_width_2_encoding(v) {
        lemma_encoding_2(v, s[k], s[k + 1]);
        assert(well_formed_at(s, k, 2));
        assert(char_at(s, offset, limit, i, nc) == Some((c, 2int)));
    } else if vstd::utf8::has_width_3_encoding(v) {
        lemma_encoding_3(v, s[k], s[k + 1], s[k + 2]);
        assert forall|j: int| 1 <= j < 3 implies is_cont(#[trigger] s[k + j]) by {}
        assert(well_formed_at(s, k, 3));
        assert(char_at(s, offset, limit, i, nc) == Some((c, 3int)));
    } else {
        lemma_encoding_4(v, s[k], s[k + 1], s[k + 2], s[k + 3]);
        assert forall|j: int| 1 <= j < 4 implies is_cont(#[trigger] s[k + j]) by {}
        assert(well_formed_at(s, k, 4));
        assert(char_at(s, offset, limit, i, nc) == Some((c, 4int)));
    }
}

/// Decoding gives back what UTF-8 encoding wrote: where a row holds, from
/// position `i`, the standard UTF-8 encoding of a character `c` (one to four
/// bytes, ending within the row) that is not a control other than `\n`,
/// `\r`, `\t`, the decoded row continues there with one character segment
/// holding `c` and spanning exactly the bytes of its encoding.
pub proof fn law_decodes_encoded_char(s: Seq<u8>, offset: int, count: int, i: int, c: char)
    requires
        0 <= offset,
        0 <= i <= usize::MAX,
        i + vstd::utf8::encode_scalar(c as u32).len() <= count,
        offset + i + vstd::utf8::encode_scalar(c as u32).len() <= s.len(),
        s.subrange(offset + i, offset + i + vstd::utf8::encode_scalar(c as u32).len())
            == vstd::utf8::encode_scalar(c as u32),
        shown_char(c),
    ensures
        row_segments(s, offset, count, i).len() > 0,
        row_segments(s, offset, count, i)[0] == (Utf8Segment::Char {
            pos: i as usize,
            ch: c,
            len: vstd::utf8::encode_scalar(c as u32).len() as usize,
        }),
{
    lemma_char_at_encoded(s, offset, count, i, c, true);
}

/// One character segment per character of `cs`, the first at position `p`,
/// each as long as the character's UTF-8 encoding.
pub open spec fn encoded_segments(cs: Seq<char>, p: int) -> Seq<Utf8Segment>
    decreases cs.len(),
{
    if cs.len() == 0 {
        Seq::empty()
    } else {
        let n = vstd::utf8::encode_scalar(cs[0] as u32).len() as int;
        seq![Utf8Segment::Char { pos: p as usize, ch: cs[0], len: n as usize }] + encoded_segments(
            cs.drop_first(),
            p + n,
        )
    }
}

/// A row holding, from position `i` to its end, the UTF-8 encoding of a
/// text without controls (other than `\n`, `\r`, `\t`) decodes to exactly
/// the characters of that text, in order, each spanning its encoding.
pub proof fn law_decodes_encoded_text(s: Seq<u8>, offset: int, count: int, i: int, cs: Seq<char>)
    requires
        0 <= offset,
        0 <= i,
        count <= usize::MAX,
        i + vstd::utf8::encode_utf8(cs).len() == count,
        offset + count <= s.len(),
        s.subrange(offset + i, offset + count) == vstd::utf8::encode_utf8(cs),
        forall|j: int| 0 <= j < cs.len() ==> shown_char(#[trigger] cs[j]),
    ensures
        row_segments(s, offset, count, i) == encoded_segments(cs, i),
    decreases cs.len(),
{
    if cs.len() == 0 {
        assert(row_segments(s, offset, count, i) =~= Seq::<Utf8Segment>::empty());
    } else {
        let c = cs[0];
        let e = vstd::utf8::encode_scalar(c as u32);
        let rest = cs.drop_first();
        let er = vstd::utf8::encode_utf8(rest);
        assert(vstd::utf8::encode_utf8(cs) == e + er);
        let n = e.len() as int;
        assert(s.subrange(offset + i, offset + i + n) =~= (e + er).subrange(0, n));
        assert((e + er).subrange(0, n) =~= e);
        assert(shown_char(cs[0]));
        lemma_char_at_encoded(s, offset, count, i, c, true);
        assert(s.subrange(offset + i + n, offset + count) =~= (e + er).subrange(n, (e + er).len() as int));
        assert((e + er).subrange(n, (e + er).len() as int) =~= er);
        assert forall|j: int| 0 <= j < rest.len() implies shown_char(#[trigger] rest[j]) by {
            assert(rest[j] == cs[j + 1]);
        }
        law_decodes_encoded_text(s, offset, count, i + n, rest);
        assert(row_segments(s, offset, count, i) == seq![Utf8Segment::Char { pos: i as usize, ch: c, len: n as usize }]
            + row_segments(s, offset, count, i + n));
    }
}

} // verus!

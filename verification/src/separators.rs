//! Paragraph separators: the characters that end a paragraph, how a text
//! that ends with one is recognised by its last bytes, and why the bytes tell
//! the truth about the characters.

use vstd::prelude::*;
use vstd::utf8::{
    encode_utf8, encode_scalar, decode_utf8, is_continuation_byte, has_width_1_encoding,
    has_width_2_encoding, has_width_3_encoding, char_is_scalar, encode_utf8_decode_utf8,
};

verus! {

/// Whether `c` is a paragraph separator: one of the characters of
/// bidirectional class B, which are U+000A, U+000D, U+001C, U+001D, U+001E,
/// U+0085 and U+2029.
pub open spec fn is_paragraph_separator(c: char) -> bool {
    c == '\u{a}' || c == '\u{d}' || c == '\u{1c}' || c == '\u{1d}' || c == '\u{1e}' || c
        == '\u{85}' || c == '\u{2029}'
}

/// A text without its trailing paragraph separator: without its last
/// character, if that is a paragraph separator, and the whole text otherwise.
pub open spec fn without_separator(chars: Seq<char>) -> Seq<char> {
    if chars.len() > 0 && is_paragraph_separator(chars.last()) {
        chars.drop_last()
    } else {
        chars
    }
}

/// Whether `byte` alone is the encoding of a paragraph separator: of one of
/// U+000A, U+000D, U+001C, U+001D and U+001E.
pub open spec fn is_separator_byte(byte: u8) -> bool {
    byte == 0x0a || byte == 0x0d || byte == 0x1c || byte == 0x1d || byte == 0x1e
}

/// The number of bytes of the paragraph separator that `bytes[start..end]`
/// ends with, or 0 if it ends with none: 1 for a separator of one byte, 2
/// for the bytes of U+0085 and 3 for the bytes of U+2029.
pub open spec fn separator_width(bytes: Seq<u8>, start: int, end: int) -> int {
    if end - start >= 1 && is_separator_byte(bytes[end - 1]) {
        1
    } else if end - start >= 2 && bytes[end - 2] == 0xc2 && bytes[end - 1] == 0x85 {
        2
    } else if end - start >= 3 && bytes[end - 3] == 0xe2 && bytes[end - 2] == 0x80 && bytes[end
        - 1] == 0xa9 {
        3
    } else {
        0
    }
}

/// The encoding of a sequence of characters ends with the encoding of its
/// last character.
pub proof fn lemma_encode_push(chars: Seq<char>, c: char)
    ensures
        encode_utf8(chars.push(c)) == encode_utf8(chars) + encode_scalar(c as u32),
    decreases chars.len(),
{
    let longer = chars.push(c);
    if chars.len() == 0 {
        assert(longer.drop_first() =~= Seq::<char>::empty());
        assert(encode_utf8(longer.drop_first()) =~= Seq::<u8>::empty());
        assert(longer[0] == c);
        assert(encode_utf8(longer) =~= encode_scalar(c as u32));
        assert(encode_utf8(chars) + encode_scalar(c as u32) =~= encode_scalar(c as u32));
    } else {
        assert(longer.drop_first() =~= chars.drop_first().push(c));
        lemma_encode_push(chars.drop_first(), c);
        assert(encode_utf8(longer) =~= encode_utf8(chars) + encode_scalar(c as u32));
    }
}

/// The encoding of a character has one to four bytes, of which the first is
/// no continuation byte and every other one is.
pub proof fn lemma_scalar_shape(c: char)
    ensures
        1 <= encode_scalar(c as u32).len() <= 4,
        !is_continuation_byte(encode_scalar(c as u32)[0]),
        forall|i: int|
            1 <= i < encode_scalar(c as u32).len() ==> is_continuation_byte(
                #[trigger] encode_scalar(c as u32)[i],
            ),
{
    let s = c as u32;
    char_is_scalar(c);
    if has_width_1_encoding(s) {
        assert(((s & 0x7F) as u8) < 0x80) by (bit_vector)
            requires
                s <= 0x7F,
        ;
    } else if has_width_2_encoding(s) {
        assert(0xC0 <= (0xC0u8 | (((s >> 6) & 0x1F) as u8))) by (bit_vector);
        assert(0x80 <= (0x80u8 | ((s & 0x3F) as u8)) <= 0xBF) by (bit_vector);
    } else if has_width_3_encoding(s) {
        assert(0xE0 <= (0xE0u8 | (((s >> 12) & 0x0F) as u8))) by (bit_vector);
        assert(0x80 <= (0x80u8 | (((s >> 6) & 0x3F) as u8)) <= 0xBF) by (bit_vector);
        assert(0x80 <= (0x80u8 | ((s & 0x3F) as u8)) <= 0xBF) by (bit_vector);
    } else {
        assert(0xF0 <= (0xF0u8 | (((s >> 18) & 0x7) as u8))) by (bit_vector);
        assert(0x80 <= (0x80u8 | (((s >> 12) & 0x3F) as u8)) <= 0xBF) by (bit_vector);
        assert(0x80 <= (0x80u8 | (((s >> 6) & 0x3F) as u8)) <= 0xBF) by (bit_vector);
        assert(0x80 <= (0x80u8 | ((s & 0x3F) as u8)) <= 0xBF) by (bit_vector);
    }
}

/// Two characters with the same encoding are the same character.
pub proof fn lemma_scalar_injective(c: char, d: char)
    requires
        encode_scalar(c as u32) == encode_scalar(d as u32),
    ensures
        c == d,
{
    lemma_encode_push(Seq::<char>::empty(), c);
    lemma_encode_push(Seq::<char>::empty(), d);
    encode_utf8_decode_utf8(Seq::<char>::empty().push(c));
    encode_utf8_decode_utf8(Seq::<char>::empty().push(d));
    assert(Seq::<char>::empty().push(c)[0] == c);
    assert(Seq::<char>::empty().push(d)[0] == d);
}

/// The encodings of the paragraph separators.
pub proof fn lemma_separator_encodings()
    ensures
        encode_scalar('\u{a}' as u32) == seq![0x0au8],
        encode_scalar('\u{d}' as u32) == seq![0x0du8],
        encode_scalar('\u{1c}' as u32) == seq![0x1cu8],
        encode_scalar('\u{1d}' as u32) == seq![0x1du8],
        encode_scalar('\u{1e}' as u32) == seq![0x1eu8],
        encode_scalar('\u{85}' as u32) == seq![0xc2u8, 0x85u8],
        encode_scalar('\u{2029}' as u32) == seq![0xe2u8, 0x80u8, 0xa9u8],
{
    assert((0x0au32 & 0x7F) as u8 == 0x0au8) by (bit_vector);
    assert((0x0du32 & 0x7F) as u8 == 0x0du8) by (bit_vector);
    assert((0x1cu32 & 0x7F) as u8 == 0x1cu8) by (bit_vector);
    assert((0x1du32 & 0x7F) as u8 == 0x1du8) by (bit_vector);
    assert((0x1eu32 & 0x7F) as u8 == 0x1eu8) by (bit_vector);
    assert(0xC0u8 | (((0x85u32 >> 6) & 0x1F) as u8) == 0xc2u8) by (bit_vector);
    assert(0x80u8 | ((0x85u32 & 0x3F) as u8) == 0x85u8) by (bit_vector);
    assert(0xE0u8 | (((0x2029u32 >> 12) & 0x0F) as u8) == 0xe2u8) by (bit_vector);
    assert(0x80u8 | (((0x2029u32 >> 6) & 0x3F) as u8) == 0x80u8) by (bit_vector);
    assert(0x80u8 | ((0x2029u32 & 0x3F) as u8) == 0xa9u8) by (bit_vector);
    assert(encode_scalar('\u{a}' as u32) =~= seq![0x0au8]);
    assert(encode_scalar('\u{d}' as u32) =~= seq![0x0du8]);
    assert(encode_scalar('\u{1c}' as u32) =~= seq![0x1cu8]);
    assert(encode_scalar('\u{1d}' as u32) =~= seq![0x1du8]);
    assert(encode_scalar('\u{1e}' as u32) =~= seq![0x1eu8]);
    assert(encode_scalar('\u{85}' as u32) =~= seq![0xc2u8, 0x85u8]);
    assert(encode_scalar('\u{2029}' as u32) =~= seq![0xe2u8, 0x80u8, 0xa9u8]);
}

/// The bytes tell the truth about the characters. The encoding of a text
/// ends with the bytes of a paragraph separator exactly if the last character
/// of the text is one, and then those bytes are the whole encoding of that
/// character.
pub proof fn lemma_separator_width(chars: Seq<char>)
    ensures
        separator_width(encode_utf8(chars), 0, encode_utf8(chars).len() as int) == if chars.len()
            > 0 && is_paragraph_separator(chars.last()) {
            encode_scalar(chars.last() as u32).len() as int
        } else {
            0
        },
{
    let bytes = encode_utf8(chars);
    let n = bytes.len() as int;
    if chars.len() == 0 {
        assert(bytes =~= Seq::<u8>::empty());
    } else {
        let c = chars.last();
        let head = encode_utf8(chars.drop_last());
        let tail = encode_scalar(c as u32);
        let len = tail.len() as int;
        assert(chars =~= chars.drop_last().push(c));
        lemma_encode_push(chars.drop_last(), c);
        lemma_scalar_shape(c);
        lemma_separator_encodings();
        assert(bytes == head + tail);
        assert(n == head.len() + len);
        assert(bytes[n - 1] == tail[len - 1]);
        if len >= 2 {
            assert(bytes[n - 2] == tail[len - 2]);
            assert(is_continuation_byte(tail[len - 1]));
        }
        if len >= 3 {
            assert(bytes[n - 3] == tail[len - 3]);
            assert(is_continuation_byte(tail[len - 2]));
        }
        if len >= 4 {
            assert(is_continuation_byte(tail[len - 3]));
        }
        if is_paragraph_separator(c) {
        } else {
            if is_separator_byte(bytes[n - 1]) {
                assert(len == 1);
                let d = if bytes[n - 1] == 0x0a {
                    '\u{a}'
                } else if bytes[n - 1] == 0x0d {
                    '\u{d}'
                } else if bytes[n - 1] == 0x1c {
                    '\u{1c}'
                } else if bytes[n - 1] == 0x1d {
                    '\u{1d}'
                } else {
                    '\u{1e}'
                };
                assert(tail =~= encode_scalar(d as u32));
                lemma_scalar_injective(c, d);
            } else if n >= 2 && bytes[n - 2] == 0xc2 && bytes[n - 1] == 0x85 {
                assert(len == 2);
                assert(tail =~= encode_scalar('\u{85}' as u32));
                lemma_scalar_injective(c, '\u{85}');
            } else if n >= 3 && bytes[n - 3] == 0xe2 && bytes[n - 2] == 0x80 && bytes[n - 1]
                == 0xa9 {
                assert(len == 3);
                assert(tail =~= encode_scalar('\u{2029}' as u32));
                lemma_scalar_injective(c, '\u{2029}');
            }
        }
    }
}

/// Cutting the bytes of a trailing paragraph separator off the encoding of a
/// text leaves the encoding of the text without its trailing separator.
pub proof fn lemma_trimmed_text(chars: Seq<char>)
    ensures
        decode_utf8(
            encode_utf8(chars).subrange(
                0,
                encode_utf8(chars).len() - separator_width(
                    encode_utf8(chars),
                    0,
                    encode_utf8(chars).len() as int,
                ),
            ),
        ) == without_separator(chars),
{
    let bytes = encode_utf8(chars);
    let n = bytes.len() as int;
    lemma_separator_width(chars);
    if chars.len() > 0 && is_paragraph_separator(chars.last()) {
        let c = chars.last();
        assert(chars =~= chars.drop_last().push(c));
        lemma_encode_push(chars.drop_last(), c);
        assert(bytes.subrange(0, n - encode_scalar(c as u32).len()) =~= encode_utf8(
            chars.drop_last(),
        ));
        encode_utf8_decode_utf8(chars.drop_last());
    } else {
        assert(bytes.subrange(0, n) =~= bytes);
        encode_utf8_decode_utf8(chars);
    }
}

} // verus!

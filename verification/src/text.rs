//! Strings as UTF-8: comparing two strings and cutting a string at byte
//! offsets that lie on character boundaries.

use vstd::prelude::*;
use vstd::string::StringSliceAdditionalSpecFns;
use vstd::utf8::{
    valid_utf8, is_char_boundary, decode_utf8, encode_utf8_valid_utf8, encode_utf8_decode_utf8,
    is_char_boundary_start_end_of_seq, is_char_boundary_iff_not_is_continuation_byte,
    valid_utf8_split,
};

verus! {

/// Two strings with the same bytes hold the same characters.
pub proof fn lemma_bytes_determine_text(a: &str, b: &str)
    requires
        a.spec_bytes() == b.spec_bytes(),
    ensures
        a@ == b@,
{
    encode_utf8_decode_utf8(a@);
    encode_utf8_decode_utf8(b@);
}

/// Whether two strings hold the same characters.
pub fn str_eq(a: &str, b: &str) -> (r: bool)
    ensures
        r == (a@ == b@),
{
    let x = a.as_bytes();
    let y = b.as_bytes();
    if x.len() != y.len() {
        return false;
    }
    let mut i: usize = 0;
    while i < x.len()
        invariant
            i <= x.len(),
            x.len() == y.len(),
            x@ == a.spec_bytes(),
            y@ == b.spec_bytes(),
            forall|k: int| 0 <= k < i ==> x@[k] == y@[k],
        decreases x.len() - i,
    {
        if x[i] != y[i] {
            return false;
        }
        i += 1;
    }
    proof {
        assert(x@ =~= y@);
        lemma_bytes_determine_text(a, b);
    }
    true
}

/// What `start..end` has to satisfy to cut a piece out of `bytes`: both
/// offsets within the text, in order, and on character boundaries.
pub open spec fn is_text_range(bytes: Seq<u8>, start: int, end: int) -> bool {
    &&& 0 <= start <= end <= bytes.len()
    &&& is_char_boundary(bytes, start)
    &&& is_char_boundary(bytes, end)
}

/// A character boundary of a text is one of each prefix that reaches it.
pub proof fn lemma_boundary_in_prefix(bytes: Seq<u8>, start: int, end: int)
    requires
        valid_utf8(bytes),
        is_text_range(bytes, start, end),
    ensures
        valid_utf8(bytes.subrange(0, end)),
        is_char_boundary(bytes.subrange(0, end), start),
{
    valid_utf8_split(bytes, end);
    let head = bytes.subrange(0, end);
    if start == end {
        is_char_boundary_start_end_of_seq(head);
    } else {
        is_char_boundary_iff_not_is_continuation_byte(bytes, start);
        is_char_boundary_iff_not_is_continuation_byte(head, start);
    }
}

/// Whether `start..end` can be cut out of `text`.
pub fn is_range_of(text: &str, start: usize, end: usize) -> (r: bool)
    ensures
        r == is_text_range(text.spec_bytes(), start as int, end as int),
{
    let len = text.as_bytes().len();
    start <= end && end <= len && text.is_char_boundary(start) && text.is_char_boundary(end)
}

/// The piece of `text` between the byte offsets `start` and `end`.
pub fn slice_str(text: &str, start: usize, end: usize) -> (r: &str)
    requires
        is_text_range(text.spec_bytes(), start as int, end as int),
    ensures
        r.spec_bytes() == text.spec_bytes().subrange(start as int, end as int),
        r@ == decode_utf8(text.spec_bytes().subrange(start as int, end as int)),
{
    proof {
        encode_utf8_valid_utf8(text@);
        lemma_boundary_in_prefix(text.spec_bytes(), start as int, end as int);
    }
    let (head, _) = text.split_at(end);
    proof {
        encode_utf8_valid_utf8(head@);
    }
    let (_, piece) = head.split_at(start);
    proof {
        assert(piece.spec_bytes() =~= text.spec_bytes().subrange(start as int, end as int));
        encode_utf8_decode_utf8(piece@);
    }
    piece
}

} // verus!

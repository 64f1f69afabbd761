//! Text helpers: comparing strings and cutting a byte range out of a text.

use vstd::prelude::*;
use vstd::string::StringSliceAdditionalSpecFns;
use vstd::utf8::{
    decode_utf8, encode_utf8, encode_utf8_decode_utf8, encode_utf8_valid_utf8, is_char_boundary,
    is_char_boundary_iff_not_is_continuation_byte, is_char_boundary_start_end_of_seq,
    valid_utf8_split,
};

verus! {

/// The byte range `start..end` lies inside the UTF-8 encoding of `text` and
/// neither end cuts a character in two.
pub open spec fn sliceable(text: Seq<char>, start: int, end: int) -> bool {
    &&& 0 <= start <= end <= encode_utf8(text).len()
    &&& is_char_boundary(encode_utf8(text), start)
    &&& is_char_boundary(encode_utf8(text), end)
}

/// The characters that the bytes `start..end` of `text` spell, or nothing
/// where that range cannot be cut out.
pub open spec fn slice_of(text: Seq<char>, start: int, end: int) -> Seq<char> {
    if sliceable(text, start, end) {
        decode_utf8(encode_utf8(text).subrange(start, end))
    } else {
        Seq::empty()
    }
}

/// Cutting out the whole text gives the text back.
pub proof fn lemma_slice_all(text: Seq<char>)
    ensures
        sliceable(text, 0, encode_utf8(text).len() as int),
        slice_of(text, 0, encode_utf8(text).len() as int) == text,
{
    let bytes = encode_utf8(text);
    encode_utf8_valid_utf8(text);
    is_char_boundary_start_end_of_seq(bytes);
    assert(bytes.subrange(0, bytes.len() as int) =~= bytes);
    encode_utf8_decode_utf8(text);
}

/// Whether two strings hold the same characters.
pub fn same_text(a: &str, b: &str) -> (same: bool)
    ensures
        same == (a@ == b@),
{
    let x = a.as_bytes();
    let y = b.as_bytes();
    proof {
        encode_utf8_decode_utf8(a@);
        encode_utf8_decode_utf8(b@);
    }
    if x.len() != y.len() {
        return false;
    }
    let mut i: usize = 0;
    while i < x.len()
        invariant
            i <= x.len(),
            x.len() == y.len(),
            x@ == encode_utf8(a@),
            y@ == encode_utf8(b@),
            forall|j: int| 0 <= j < i ==> x@[j] == y@[j],
        decreases x.len() - i,
    {
        if x[i] != y[i] {
            return false;
        }
        i += 1;
    }
    assert(x@ =~= y@);
    true
}

/// The part of `text` between the byte offsets `start` and `end`; the empty
/// string where the offsets do not delimit a run of whole characters.
pub fn slice_text<'a>(text: &'a str, start: usize, end: usize) -> (part: &'a str)
    ensures
        part@ == slice_of(text@, start as int, end as int),
{
    proof {
        encode_utf8_valid_utf8(text@);
    }
    let len = text.as_bytes().len();
    if start <= end && end <= len && text.is_char_boundary(start) && text.is_char_boundary(end) {
        let ghost bytes = encode_utf8(text@);
        let (head, _) = text.split_at(end);
        proof {
            valid_utf8_split(bytes, end as int);
            let head_bytes = bytes.subrange(0, end as int);
            if start < end {
                is_char_boundary_iff_not_is_continuation_byte(bytes, start as int);
                is_char_boundary_iff_not_is_continuation_byte(head_bytes, start as int);
            } else {
                is_char_boundary_start_end_of_seq(head_bytes);
            }
        }
        let (_, part) = head.split_at(start);
        proof {
            assert(part.spec_bytes() =~= bytes.subrange(start as int, end as int));
            encode_utf8_decode_utf8(part@);
        }
        part
    } else {
        let part = "";
        proof {
            reveal_strlit("");
        }
        part
    }
}

} // verus!

//! Facts about the UTF-8 bytes of text that the highlighters rely on.

use vstd::prelude::*;
use vstd::utf8::*;

verus! {

/// The encoding of a concatenation is the concatenation of the encodings.
pub proof fn lemma_encode_concat(a: Seq<char>, b: Seq<char>)
    ensures
        encode_utf8(a + b) == encode_utf8(a) + encode_utf8(b),
    decreases a.len(),
{
    if a.len() == 0 {
        assert(a + b =~= b);
        assert(encode_utf8(a) + encode_utf8(b) =~= encode_utf8(b));
    } else {
        lemma_encode_concat(a.drop_first(), b);
        assert((a + b).drop_first() =~= a.drop_first() + b);
        assert((a + b)[0] == a[0]);
        assert(encode_utf8(a + b) =~= encode_utf8(a) + encode_utf8(b));
    }
}

/// An ASCII byte inside well-formed UTF-8 is a whole character: a character
/// starts at it and the next one starts right after it.
pub proof fn lemma_ascii_byte_is_char(bytes: Seq<u8>, idx: int)
    requires
        valid_utf8(bytes),
        0 <= idx < bytes.len(),
        bytes[idx] < 0x80,
    ensures
        is_char_boundary(bytes, idx),
        is_char_boundary(bytes, idx + 1),
        valid_utf8(bytes.subrange(idx, bytes.len() as int)),
        is_char_boundary(bytes.subrange(idx, bytes.len() as int), 1),
{
    is_char_boundary_iff_not_is_continuation_byte(bytes, idx);
    valid_utf8_split(bytes, idx);
    let rest = bytes.subrange(idx, bytes.len() as int);
    assert(rest[0] == bytes[idx]);
    reveal_with_fuel(valid_utf8, 2);
    reveal_with_fuel(is_char_boundary, 2);
    assert(length_of_first_scalar(rest) == 1);
    assert(is_char_boundary(rest, 1));
    if idx + 1 < bytes.len() {
        is_char_boundary_iff_not_is_continuation_byte(rest, 1);
        assert(rest[1] == bytes[idx + 1]);
        is_char_boundary_iff_not_is_continuation_byte(bytes, idx + 1);
    } else {
        is_char_boundary_start_end_of_seq(bytes);
    }
}

} // verus!

//! Facts about the UTF-8 encoding of character sequences that slicing a
//! string at a token boundary relies on.

use vstd::prelude::*;
use vstd::utf8::*;

verus! {

/// Every character takes at least one byte.
pub proof fn lemma_encoding_length(chars: Seq<char>)
    ensures
        chars.len() <= encode_utf8(chars).len(),
    decreases chars.len(),
{
    if chars.len() > 0 {
        lemma_encoding_length(chars.drop_first());
    }
}

/// The encoding of a concatenation is the concatenation of the encodings.
pub proof fn lemma_encoding_concat(front: Seq<char>, back: Seq<char>)
    ensures
        encode_utf8(front + back) == encode_utf8(front) + encode_utf8(back),
    decreases front.len(),
{
    if front.len() == 0 {
        assert(front + back =~= back);
    } else {
        lemma_encoding_concat(front.drop_first(), back);
        assert((front + back).drop_first() =~= front.drop_first() + back);
    }
}

/// In the encoding of `front + back`, the byte offset at which `back` starts
/// is a character boundary.
pub proof fn lemma_boundary_after_prefix(front: Seq<char>, back: Seq<char>)
    ensures
        is_char_boundary(encode_utf8(front + back), encode_utf8(front).len() as int),
    decreases front.len(),
{
    let bytes = encode_utf8(front + back);
    encode_utf8_valid_utf8(front + back);
    if front.len() > 0 {
        let whole = front + back;
        lemma_boundary_after_prefix(front.drop_first(), back);
        lemma_encoding_concat(front, back);
        encode_utf8_first_scalar(whole);
        assert(whole.drop_first() =~= front.drop_first() + back);
        assert(pop_first_scalar(bytes) =~= encode_utf8(whole.drop_first()));
    }
}

/// Two character sequences with the same encoding are the same.
pub proof fn lemma_encoding_injective(left: Seq<char>, right: Seq<char>)
    requires
        encode_utf8(left) == encode_utf8(right),
    ensures
        left == right,
{
    encode_utf8_decode_utf8(left);
    encode_utf8_decode_utf8(right);
}

/// Cutting the encoding of `front + back` where `back` starts leaves the
/// encodings of `front` and of `back`, so whatever encodes to the second part
/// is `back`.
pub proof fn lemma_split_after_prefix(front: Seq<char>, back: Seq<char>, rest: Seq<char>)
    requires
        encode_utf8(rest) == encode_utf8(front + back).subrange(
            encode_utf8(front).len() as int,
            encode_utf8(front + back).len() as int,
        ),
    ensures
        rest == back,
{
    lemma_encoding_concat(front, back);
    assert(encode_utf8(rest) =~= encode_utf8(back));
    lemma_encoding_injective(rest, back);
}

} // verus!

//! Facts about the bytes of a text in UTF-8.

use vstd::prelude::*;
use vstd::utf8::encode_scalar;
use vstd::utf8::encode_utf8;
use vstd::utf8::is_char_boundary;

verus! {

/// The bytes of two texts together are those of the one and of the other.
pub proof fn lemma_encode_concat(left: Seq<char>, right: Seq<char>)
    ensures
        encode_utf8(left + right) == encode_utf8(left) + encode_utf8(right),
    decreases left.len(),
{
    if left.len() == 0 {
        assert(left + right =~= right);
        assert(encode_utf8(left) + encode_utf8(right) =~= encode_utf8(right));
    } else {
        let first = encode_scalar(left[0] as u32);
        lemma_encode_concat(left.drop_first(), right);
        assert((left + right).drop_first() =~= left.drop_first() + right);
        assert(first + (encode_utf8(left.drop_first()) + encode_utf8(right)) =~= (first
            + encode_utf8(left.drop_first())) + encode_utf8(right));
    }
}

/// A character begins, or the text ends, where one of two texts that follow
/// each other ends.
pub proof fn lemma_encode_boundary(left: Seq<char>, right: Seq<char>)
    ensures
        is_char_boundary(encode_utf8(left + right), encode_utf8(left).len() as int),
    decreases left.len(),
{
    broadcast use vstd::utf8::encode_utf8_valid_utf8;

    if left.len() > 0 {
        let all = encode_utf8(left + right);
        let rest = left.drop_first();
        assert((left + right).drop_first() =~= rest + right);
        vstd::utf8::encode_utf8_first_scalar(left + right);
        lemma_encode_concat(left, right);
        lemma_encode_boundary(rest, right);
        assert(vstd::utf8::pop_first_scalar(all) =~= encode_utf8(rest + right));
    }
}

/// Texts with the same bytes are the same.
pub proof fn lemma_encode_injective(left: Seq<char>, right: Seq<char>)
    requires
        encode_utf8(left) == encode_utf8(right),
    ensures
        left == right,
{
    vstd::utf8::encode_utf8_decode_utf8(left);
    vstd::utf8::encode_utf8_decode_utf8(right);
}

/// Parts of a text that are cut where `left` ends are `left` and what follows
/// it.
pub proof fn lemma_split(left: Seq<char>, right: Seq<char>, head: Seq<char>, tail: Seq<char>)
    requires
        encode_utf8(head) == encode_utf8(left + right).subrange(
            0,
            encode_utf8(left).len() as int,
        ),
        encode_utf8(tail) == encode_utf8(left + right).subrange(
            encode_utf8(left).len() as int,
            encode_utf8(left + right).len() as int,
        ),
    ensures
        head == left,
        tail == right,
{
    lemma_encode_concat(left, right);
    assert(encode_utf8(head) =~= encode_utf8(left));
    assert(encode_utf8(tail) =~= encode_utf8(right));
    lemma_encode_injective(head, left);
    lemma_encode_injective(tail, right);
}

} // verus!

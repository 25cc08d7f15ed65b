//! Byte offsets into UTF-8 text: how the bytes of a text split where its
//! characters split.

use vstd::prelude::*;
use vstd::utf8::*;

verus! {

/// The characters of the text `s` from the byte offset `i` on.
pub open spec fn text_from(s: Seq<char>, i: int) -> Seq<char> {
    decode_utf8(encode_utf8(s).subrange(i, encode_utf8(s).len() as int))
}

/// The encoding of a concatenation is the concatenation of the encodings.
pub proof fn lemma_encode_concat(a: Seq<char>, b: Seq<char>)
    ensures
        encode_utf8(a + b) == encode_utf8(a) + encode_utf8(b),
    decreases a.len(),
{
    if a.len() == 0 {
        assert(a + b =~= b);
        assert(encode_utf8(a) + encode_utf8(b) =~= encode_utf8(b));
    } else {
        lemma_encode_concat(a.drop_first(), b);
        assert((a + b).drop_first() =~= a.drop_first() + b);
        assert((a + b)[0] == a[0]);
        assert(encode_utf8(a + b) =~= encode_utf8(a) + encode_utf8(b));
    }
}

/// Where the characters `a` end inside the encoding of `a + b`, a character
/// begins or the encoding ends.
pub proof fn lemma_boundary_after_prefix(a: Seq<char>, b: Seq<char>)
    ensures
        encode_utf8(a).len() <= encode_utf8(a + b).len(),
        is_char_boundary(encode_utf8(a + b), encode_utf8(a).len() as int),
    decreases a.len(),
{
    let bytes = encode_utf8(a + b);
    lemma_encode_concat(a, b);
    encode_utf8_valid_utf8(a + b);
    if a.len() == 0 {
    } else {
        let tail = a.drop_first();
        lemma_boundary_after_prefix(tail, b);
        lemma_encode_concat(tail, b);
        encode_utf8_first_scalar(a + b);
        assert((a + b).drop_first() =~= tail + b);
        assert((a + b)[0] == a[0]);
        assert(pop_first_scalar(bytes) =~= encode_utf8(tail + b));
        assert(encode_utf8(a).len() == encode_scalar(a[0] as u32).len() + encode_utf8(tail).len());
        assert(encode_scalar(a[0] as u32).len() > 0);
    }
}

/// Cutting the encoding of `a + b` where `a` ends leaves the encoding of `b`.
pub proof fn lemma_text_from_prefix_end(a: Seq<char>, b: Seq<char>)
    ensures
        text_from(a + b, encode_utf8(a).len() as int) == b,
{
    lemma_encode_concat(a, b);
    let bytes = encode_utf8(a + b);
    assert(bytes.subrange(encode_utf8(a).len() as int, bytes.len() as int) =~= encode_utf8(b));
    encode_utf8_decode_utf8(b);
}

/// From a character boundary `i` of the text `s`, going on by the encoding of
/// the next `e` characters leads to a character boundary again, and what is
/// left of the text there is what was left at `i` without those characters.
pub proof fn lemma_advance(s: Seq<char>, i: int, e: int)
    requires
        is_char_boundary(encode_utf8(s), i),
        0 <= e <= text_from(s, i).len(),
    ensures
        i + encode_utf8(text_from(s, i).take(e)).len() <= encode_utf8(s).len(),
        is_char_boundary(
            encode_utf8(s),
            i + encode_utf8(text_from(s, i).take(e)).len(),
        ),
        text_from(s, i + encode_utf8(text_from(s, i).take(e)).len()) == text_from(s, i).skip(e),
{
    let bytes = encode_utf8(s);
    let rest = text_from(s, i);
    encode_utf8_valid_utf8(s);
    encode_utf8_decode_utf8(s);
    lemma_boundary_in_range(bytes, i);
    valid_utf8_split(bytes, i);
    decode_utf8_split(bytes, i);
    let head = decode_utf8(bytes.subrange(0, i));
    assert(s =~= head + rest);
    decode_utf8_encode_utf8(bytes.subrange(0, i));
    assert(encode_utf8(head).len() == i);
    let x = rest.take(e);
    let y = rest.skip(e);
    assert(rest =~= x + y);
    assert(s =~= (head + x) + y);
    lemma_encode_concat(head, x);
    lemma_boundary_after_prefix(head + x, y);
    lemma_text_from_prefix_end(head + x, y);
}

/// A character boundary lies inside the bytes or at their end.
pub proof fn lemma_boundary_in_range(bytes: Seq<u8>, i: int)
    requires
        valid_utf8(bytes),
        is_char_boundary(bytes, i),
    ensures
        0 <= i <= bytes.len(),
{
}

} // verus!

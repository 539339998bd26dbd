//! How the characters of a text and the bytes of its UTF-8 encoding fit
//! together.
//!
//! The executable functions scan bytes; their contracts speak of characters.
//! The lemmas here are what it takes to carry a fact found in the bytes over
//! to the characters: they add to those of `vstd::utf8`.

use vstd::prelude::*;
use vstd::utf8::*;

verus! {

/// Encoding goes piece by piece: the encoding of two texts joined is their
/// encodings joined.
pub proof fn lemma_encode_concat(a: Seq<char>, b: Seq<char>)
    ensures
        encode_utf8(a + b) == encode_utf8(a) + encode_utf8(b),
    decreases a.len(),
{
    if a.len() > 0 {
        assert((a + b).drop_first() =~= a.drop_first() + b);
        lemma_encode_concat(a.drop_first(), b);
    }
}

/// A text and its encoding are empty together.
pub proof fn lemma_encode_empty(a: Seq<char>)
    ensures
        encode_utf8(a).len() == 0 <==> a.len() == 0,
{
    if a.len() > 0 {
        char_is_scalar(a[0]);
    }
}

/// Two texts with the same encoding are the same text.
pub proof fn lemma_encode_injective(a: Seq<char>, b: Seq<char>)
    requires
        encode_utf8(a) == encode_utf8(b),
    ensures
        a == b,
{
    encode_utf8_decode_utf8(a);
    encode_utf8_decode_utf8(b);
}

/// A character below 128 is encoded as the one byte of the same value.
pub proof fn lemma_encode_ascii(c: char)
    requires
        (c as u32) < 0x80,
    ensures
        encode_utf8(seq![c]) == seq![c as u8],
{
    let x = c as u32;
    assert((x & 0x7F) as u8 == x as u8) by (bit_vector)
        requires
            x < 0x80,
    ;
    assert(encode_utf8(seq![c]) =~= encode_scalar(x) + encode_utf8(seq![c].drop_first()));
}

/// Where an encoding starts with a byte below 128, the text starts with the
/// character of that value, and the rest of the bytes encode the rest of the
/// text.
pub proof fn lemma_decode_ascii(bytes: Seq<u8>)
    requires
        valid_utf8(bytes),
        bytes.len() > 0,
        bytes[0] < 0x80,
    ensures
        valid_utf8(bytes.skip(1)),
        is_char_boundary(bytes, 1),
        decode_utf8(bytes) == seq![bytes[0] as char] + decode_utf8(bytes.skip(1)),
{
    let b = bytes[0];
    assert((b & 0x7F) as u32 == b as u32) by (bit_vector)
        requires
            b < 0x80,
    ;
    assert(pop_first_scalar(bytes) =~= bytes.skip(1));
    reveal_with_fuel(is_char_boundary, 2);
}

/// A character below 128 at position `at` of a text is one byte of the
/// encoding, and that byte stands where the encoding of the characters before
/// it ends.
pub proof fn lemma_ascii_char_byte(text: Seq<char>, at: int)
    requires
        0 <= at < text.len(),
        (text[at] as u32) < 0x80,
    ensures
        encode_utf8(text) == encode_utf8(text.take(at)) + seq![text[at] as u8] + encode_utf8(
            text.skip(at + 1),
        ),
{
    assert(text =~= text.take(at) + seq![text[at]] + text.skip(at + 1));
    lemma_encode_concat(text.take(at) + seq![text[at]], text.skip(at + 1));
    lemma_encode_concat(text.take(at), seq![text[at]]);
    lemma_encode_ascii(text[at]);
}

/// Where one valid encoding starts with another, the first ends between two
/// characters of the second.
pub proof fn lemma_prefix_boundary(whole: Seq<u8>, part: Seq<u8>)
    requires
        valid_utf8(whole),
        valid_utf8(part),
        part.len() <= whole.len(),
        whole.take(part.len() as int) == part,
    ensures
        is_char_boundary(whole, part.len() as int),
    decreases part.len(),
{
    if part.len() > 0 {
        // Both start with the same byte, so with a character of the same width.
        let whole_rest = pop_first_scalar(whole);
        let part_rest = pop_first_scalar(part);
        assert(whole_rest.take(part_rest.len() as int) =~= part_rest);
        lemma_prefix_boundary(whole_rest, part_rest);
    }
}

} // verus!

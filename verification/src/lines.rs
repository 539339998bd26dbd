//! Cutting a text into lines without copying it.

use crate::encoding::{
    lemma_ascii_char_byte, lemma_decode_ascii, lemma_encode_empty, lemma_encode_injective,
};
use crate::text::{
    after_first_line, first_line, lemma_line_end, line_end, without_carriage_return,
};
use vstd::prelude::*;
use vstd::string::*;
use vstd::utf8::*;

verus! {

/// The first line-feed byte of an encoding stands where the first line feed
/// of the text does: the bytes before it encode the characters before the
/// line feed, and the bytes after it the characters after.
pub proof fn lemma_first_line_feed(text: Seq<char>, found: int)
    requires
        0 <= found <= encode_utf8(text).len(),
        forall|i: int| 0 <= i < found ==> encode_utf8(text)[i] != 0x0A,
        found < encode_utf8(text).len() ==> encode_utf8(text)[found] == 0x0A,
    ensures
        line_end(text) <= text.len(),
        is_char_boundary(encode_utf8(text), found),
        encode_utf8(text.take(line_end(text) as int)) == encode_utf8(text).take(found),
        found == encode_utf8(text).len() <==> line_end(text) == text.len(),
        found < encode_utf8(text).len() ==> {
            &&& is_char_boundary(encode_utf8(text).skip(found), 1)
            &&& encode_utf8(text.skip(line_end(text) as int + 1)) == encode_utf8(text).skip(
                found + 1,
            )
        },
{
    let bytes = encode_utf8(text);
    encode_utf8_valid_utf8(text);
    encode_utf8_decode_utf8(text);
    if found == bytes.len() {
        // No byte is a line feed, so no character is: a line feed in the
        // text would be a line-feed byte in the encoding.
        assert forall|i: int| 0 <= i < text.len() implies text[i] != '\n' by {
            if text[i] == '\n' {
                lemma_ascii_char_byte(text, i);
                assert(bytes[encode_utf8(text.take(i)).len() as int] == 0x0A);
            }
        }
        lemma_line_end(text, text.len() as int);
        is_char_boundary_start_end_of_seq(bytes);
        assert(text.take(text.len() as int) =~= text);
    } else {
        // A line-feed byte continues no character, so the bytes can be cut
        // before it, and being a character of its own, after it.
        is_char_boundary_iff_not_is_continuation_byte(bytes, found);
        valid_utf8_split(bytes, found);
        decode_utf8_split(bytes, found);
        let head = bytes.subrange(0, found);
        let tail = bytes.subrange(found, bytes.len() as int);
        lemma_decode_ascii(tail);
        let before = decode_utf8(head);
        let after = decode_utf8(tail.skip(1));
        decode_utf8_encode_utf8(head);
        decode_utf8_encode_utf8(tail.skip(1));
        assert(text =~= before + seq!['\n'] + after);
        // This line feed is the first: one before it would be a line-feed
        // byte before `found`.
        assert forall|i: int| 0 <= i < before.len() implies text[i] != '\n' by {
            if before[i] == '\n' {
                lemma_ascii_char_byte(before, i);
                let at = encode_utf8(before.take(i)).len() as int;
                assert(head[at] == 0x0A);
            }
        }
        lemma_line_end(text, before.len() as int);
        assert(text.take(before.len() as int) =~= before);
        assert(text.skip(before.len() as int + 1) =~= after);
    }
}

/// A line ends with a carriage return exactly when its encoding ends with
/// the byte 13, and then the bytes before that byte encode the line without
/// the carriage return.
pub proof fn lemma_trailing_carriage_return(line: Seq<char>)
    ensures
        (line.len() > 0 && line.last() == '\r') <==> (encode_utf8(line).len() > 0 && encode_utf8(
            line,
        ).last() == 0x0D),
        encode_utf8(line).len() > 0 && encode_utf8(line).last() == 0x0D ==> {
            &&& is_char_boundary(encode_utf8(line), encode_utf8(line).len() - 1)
            &&& encode_utf8(without_carriage_return(line)) == encode_utf8(line).drop_last()
        },
{
    let bytes = encode_utf8(line);
    encode_utf8_valid_utf8(line);
    encode_utf8_decode_utf8(line);
    if line.len() > 0 && line.last() == '\r' {
        // The last character is encoded as the last byte.
        lemma_ascii_char_byte(line, line.len() - 1);
    }
    if bytes.len() > 0 && bytes.last() == 0x0D {
        // The last byte continues no character, so it is one, and the last.
        let last = bytes.len() - 1;
        is_char_boundary_iff_not_is_continuation_byte(bytes, last);
        valid_utf8_split(bytes, last);
        decode_utf8_split(bytes, last);
        let head = bytes.subrange(0, last);
        let tail = bytes.subrange(last, bytes.len() as int);
        lemma_decode_ascii(tail);
        decode_utf8_encode_utf8(head);
        assert(line =~= decode_utf8(head) + seq!['\r']);
    }
}

/// The position of the first line-feed byte in `bytes`, or their number
/// where there is none.
fn line_feed_position(bytes: &[u8]) -> (found: usize)
    ensures
        found <= bytes@.len(),
        forall|i: int| 0 <= i < found ==> bytes@[i] != 0x0A,
        found < bytes@.len() ==> bytes@[found as int] == 0x0A,
{
    let mut at: usize = 0;
    while at < bytes.len() && bytes[at] != 0x0A
        invariant
            at <= bytes@.len(),
            forall|i: int| 0 <= i < at ==> bytes@[i] != 0x0A,
        decreases bytes@.len() - at,
    {
        at += 1;
    }
    at
}

/// Splits a text into its first line and what follows that line.
///
/// The empty text has no first line. Otherwise the line comes without its
/// terminator (a line feed, or a carriage return and a line feed), and both
/// parts are slices of `text`.
pub fn split_first_line<'a>(text: &'a str) -> (parts: Option<(&'a str, &'a str)>)
    ensures
        match parts {
            Some((line, rest)) => {
                &&& text@.len() > 0
                &&& line@ == first_line(text@)
                &&& rest@ == after_first_line(text@)
            },
            None => text@.len() == 0,
        },
{
    let bytes = text.as_bytes();
    proof {
        lemma_encode_empty(text@);
    }
    if bytes.len() == 0 {
        return None;
    }
    let found = line_feed_position(bytes);
    proof {
        lemma_first_line_feed(text@, found as int);
    }
    let (head, tail) = text.split_at(found);
    proof {
        lemma_encode_injective(head@, text@.take(line_end(text@) as int));
    }
    if found == bytes.len() {
        proof {
            lemma_encode_empty(tail@);
        }
        return Some((head, tail));
    }
    let (_, rest) = tail.split_at(1);
    proof {
        assert(rest.spec_bytes() =~= bytes@.skip(found + 1));
        lemma_encode_injective(rest@, text@.skip(line_end(text@) as int + 1));
        lemma_trailing_carriage_return(head@);
    }
    let head_bytes = head.as_bytes();
    if found > 0 && head_bytes[found - 1] == 0x0D {
        let (line, _) = head.split_at(found - 1);
        proof {
            lemma_encode_injective(line@, without_carriage_return(head@));
        }
        Some((line, rest))
    } else {
        Some((head, rest))
    }
}

} // verus!

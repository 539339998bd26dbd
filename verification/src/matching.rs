//! Substring tests on text, and lower-casing.

use crate::encoding::{lemma_encode_concat, lemma_encode_empty, lemma_prefix_boundary};
use crate::text::{occurs_at, occurs_in};
use vstd::prelude::*;
use vstd::string::*;
use vstd::utf8::*;

verus! {

/// The lower-case form of a text, as `str::to_lowercase` of the standard
/// library computes it.
///
/// Lower-casing follows Unicode's mappings. It is no replacement of one
/// character by another: a character may become several, and a capital sigma
/// is mapped according to its place in a word. So this function has no body,
/// and nothing is known of it but what is assumed of `str::to_lowercase`
/// below.
pub uninterp spec fn lowercase(text: Seq<char>) -> Seq<char>;

/// Assumed, not proved: what `str::to_lowercase` of the standard library
/// returns.
///
/// The result depends on the characters of the text alone (the mappings are
/// part of the standard library, and no locale is consulted), so it can be
/// given a name, [`lowercase`]. A text without cased characters comes back
/// unchanged; of that only the plainest case is stated, that the empty text
/// gives the empty text.
pub assume_specification[ str::to_lowercase ](text: &str) -> (lowered: String)
    ensures
        lowered@ == lowercase(text@),
        text@.len() == 0 ==> lowered@.len() == 0,
;

/// A text holds another exactly when its encoding holds the encoding of the
/// other.
pub proof fn lemma_occurs_in_encoding(haystack: Seq<char>, needle: Seq<char>)
    ensures
        occurs_in(encode_utf8(haystack), encode_utf8(needle)) <==> occurs_in(haystack, needle),
{
    let bytes = encode_utf8(haystack);
    let pattern = encode_utf8(needle);
    encode_utf8_valid_utf8(haystack);
    encode_utf8_valid_utf8(needle);
    encode_utf8_decode_utf8(haystack);
    encode_utf8_decode_utf8(needle);
    if occurs_in(haystack, needle) {
        // The text is three pieces, the needle in the middle, and so is its
        // encoding.
        let at = choose|at: int| occurs_at(haystack, needle, at);
        let before = haystack.take(at);
        let after = haystack.skip(at + needle.len());
        assert(haystack =~= before + needle + after);
        lemma_encode_concat(before + needle, after);
        lemma_encode_concat(before, needle);
        let start = encode_utf8(before).len() as int;
        assert(bytes.subrange(start, start + pattern.len()) =~= pattern);
        assert(occurs_at(bytes, pattern, start));
    }
    if occurs_in(bytes, pattern) {
        if needle.len() == 0 {
            assert(haystack.subrange(0, 0) =~= needle);
            assert(occurs_at(haystack, needle, 0));
        } else {
            // The pattern starts with the first byte of a character, so the
            // bytes can be cut where it starts. What follows starts with the
            // pattern, so it can be cut where the pattern ends.
            let start = choose|start: int| occurs_at(bytes, pattern, start);
            lemma_encode_empty(needle);
            is_char_boundary_iff_not_is_continuation_byte(bytes, start);
            valid_utf8_split(bytes, start);
            decode_utf8_split(bytes, start);
            let tail = bytes.subrange(start, bytes.len() as int);
            assert(tail.take(pattern.len() as int) =~= pattern);
            lemma_prefix_boundary(tail, pattern);
            decode_utf8_split(tail, pattern.len() as int);
            let before = decode_utf8(bytes.subrange(0, start));
            let after = decode_utf8(tail.subrange(pattern.len() as int, tail.len() as int));
            assert(haystack =~= before + needle + after);
            let at = before.len() as int;
            assert(haystack.subrange(at, at + needle.len()) =~= needle);
            assert(occurs_at(haystack, needle, at));
        }
    }
}

/// Whether `pattern` stands in `bytes` at position `at`.
fn matches_at(bytes: &[u8], pattern: &[u8], at: usize) -> (matched: bool)
    requires
        at + pattern.len() <= bytes.len(),
    ensures
        matched == occurs_at(bytes@, pattern@, at as int),
{
    let mut i: usize = 0;
    while i < pattern.len()
        invariant
            i <= pattern.len(),
            at + pattern.len() <= bytes.len(),
            forall|j: int| 0 <= j < i ==> bytes@[at + j] == pattern@[j],
        decreases pattern.len() - i,
    {
        if bytes[at + i] != pattern[i] {
            return false;
        }
        i += 1;
    }
    assert(bytes@.subrange(at as int, at + pattern@.len()) =~= pattern@);
    true
}

/// Whether `needle` is a contiguous run of `haystack`, compared character by
/// character. The empty text is a run of every text.
pub fn contains(haystack: &str, needle: &str) -> (found: bool)
    ensures
        found == occurs_in(haystack@, needle@),
{
    let bytes = haystack.as_bytes();
    let pattern = needle.as_bytes();
    proof {
        lemma_occurs_in_encoding(haystack@, needle@);
    }
    if pattern.len() > bytes.len() {
        return false;
    }
    let last: usize = bytes.len() - pattern.len();
    let mut at: usize = 0;
    loop
        invariant
            at <= last,
            last == bytes.len() - pattern.len(),
            forall|k: int| 0 <= k < at ==> !occurs_at(bytes@, pattern@, k),
            occurs_in(bytes@, pattern@) <==> occurs_in(haystack@, needle@),
        decreases last - at,
    {
        if matches_at(bytes, pattern, at) {
            return true;
        }
        if at == last {
            return false;
        }
        at += 1;
    }
}

} // verus!

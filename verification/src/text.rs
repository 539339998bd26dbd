//! The mathematical model of texts, lines and substring matches.
//!
//! Everything here is specification and proof: a text is a `Seq<char>`, and
//! the executable functions of this crate state their results in these terms.

use vstd::prelude::*;

verus! {

/// `needle` stands in `haystack` at position `at`.
pub open spec fn occurs_at<T>(haystack: Seq<T>, needle: Seq<T>, at: int) -> bool {
    &&& 0 <= at
    &&& at + needle.len() <= haystack.len()
    &&& haystack.subrange(at, at + needle.len()) == needle
}

/// `needle` is a contiguous run of `haystack`.
pub open spec fn occurs_in<T>(haystack: Seq<T>, needle: Seq<T>) -> bool {
    exists|at: int| occurs_at(haystack, needle, at)
}

/// The number of characters before the first line feed of `text`; the length
/// of `text` where it holds no line feed.
pub open spec fn line_end(text: Seq<char>) -> nat
    decreases text.len(),
{
    if text.len() == 0 || text[0] == '\n' {
        0
    } else {
        (1 + line_end(text.drop_first())) as nat
    }
}

/// `line` without the carriage return that it may end with.
pub open spec fn without_carriage_return(line: Seq<char>) -> Seq<char> {
    if line.len() > 0 && line.last() == '\r' {
        line.drop_last()
    } else {
        line
    }
}

/// The first line of a text that is not empty, without its terminator.
///
/// A line is terminated by a line feed, or by a carriage return followed by a
/// line feed. A last line that no line feed ends is kept whole.
pub open spec fn first_line(text: Seq<char>) -> Seq<char> {
    let end = line_end(text) as int;
    if end < text.len() {
        without_carriage_return(text.take(end))
    } else {
        text
    }
}

/// What follows the first line of `text` and its terminator.
pub open spec fn after_first_line(text: Seq<char>) -> Seq<char> {
    let end = line_end(text) as int;
    if end < text.len() {
        text.skip(end + 1)
    } else {
        Seq::empty()
    }
}

/// The lines of `text`, in order. The empty text has no lines, and a line
/// feed at the very end of the text starts no further line.
pub open spec fn lines_of(text: Seq<char>) -> Seq<Seq<char>>
    decreases text.len(),
{
    if text.len() == 0 {
        Seq::empty()
    } else {
        seq![first_line(text)] + lines_of(after_first_line(text))
    }
}

/// `line_end` is the position of the first line feed: no line feed stands
/// before it, and one stands at it unless the text ends there.
pub proof fn lemma_line_end_is_first(text: Seq<char>)
    ensures
        line_end(text) <= text.len(),
        forall|i: int| 0 <= i < line_end(text) ==> text[i] != '\n',
        line_end(text) < text.len() ==> text[line_end(text) as int] == '\n',
    decreases text.len(),
{
    if text.len() > 0 && text[0] != '\n' {
        let rest = text.drop_first();
        lemma_line_end_is_first(rest);
        assert forall|i: int| 0 <= i < line_end(text) implies text[i] != '\n' by {
            if i > 0 {
                assert(text[i] == rest[i - 1]);
            }
        }
    }
}

/// The position of the first line feed of a text is told by what stands
/// before and at that position.
pub proof fn lemma_line_end(text: Seq<char>, end: int)
    requires
        0 <= end <= text.len(),
        forall|i: int| 0 <= i < end ==> text[i] != '\n',
        end < text.len() ==> text[end] == '\n',
    ensures
        line_end(text) == end,
    decreases end,
{
    if end > 0 {
        let rest = text.drop_first();
        assert forall|i: int| 0 <= i < end - 1 implies rest[i] != '\n' by {
            assert(rest[i] == text[i + 1]);
        }
        lemma_line_end(rest, end - 1);
    }
}

/// Every line of a text stands in the text as it is, and holds no line feed.
pub proof fn lemma_lines_are_runs_of_text(text: Seq<char>, index: int)
    requires
        0 <= index < lines_of(text).len(),
    ensures
        occurs_in(text, lines_of(text)[index]),
        forall|i: int| 0 <= i < lines_of(text)[index].len() ==> lines_of(text)[index][i] != '\n',
    decreases text.len(),
{
    lemma_line_end_is_first(text);
    let end = line_end(text) as int;
    let line = lines_of(text)[index];
    if index == 0 {
        assert(text.subrange(0, line.len() as int) =~= line);
        assert(occurs_at(text, line, 0));
    } else {
        let rest = after_first_line(text);
        lemma_lines_are_runs_of_text(rest, index - 1);
        let at = choose|at: int| occurs_at(rest, line, at);
        assert(text.subrange(end + 1 + at, end + 1 + at + line.len()) =~= line);
        assert(occurs_at(text, line, end + 1 + at));
    }
}

/// A filter that every item passes leaves the sequence as it is.
pub proof fn lemma_filter_keeps_all<T>(items: Seq<T>, test: spec_fn(T) -> bool)
    requires
        forall|i: int| 0 <= i < items.len() ==> test(items[i]),
    ensures
        items.filter(test) == items,
    decreases items.len(),
{
    reveal(Seq::filter);
    if items.len() > 0 {
        lemma_filter_keeps_all(items.drop_last(), test);
    }
}

/// Filtering by a test, then by a narrower one, gives what the narrower test
/// gives alone.
pub proof fn lemma_filter_narrower<T>(
    items: Seq<T>,
    narrow: spec_fn(T) -> bool,
    wide: spec_fn(T) -> bool,
)
    requires
        forall|i: int| 0 <= i < items.len() && narrow(items[i]) ==> wide(items[i]),
    ensures
        items.filter(wide).filter(narrow) == items.filter(narrow),
    decreases items.len(),
{
    reveal(Seq::filter);
    if items.len() > 0 {
        let init = items.drop_last();
        lemma_filter_narrower(init, narrow, wide);
        if wide(items.last()) {
            assert(init.filter(wide).push(items.last()).drop_last() =~= init.filter(wide));
        }
    }
}

} // verus!

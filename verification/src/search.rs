//! Searching a text for the lines that hold a query.

use crate::config::Config;
use crate::lines::split_first_line;
use crate::matching::{contains, lowercase};
use crate::text::{lemma_filter_keeps_all, lemma_filter_narrower, lines_of, occurs_at, occurs_in};
use vstd::prelude::*;
use vstd::string::*;

verus! {

/// The test that a search puts each line to: `needle` occurs in the line or,
/// where `folded`, in the lower-case form of the line.
pub open spec fn line_test(needle: Seq<char>, folded: bool) -> spec_fn(Seq<char>) -> bool {
    |line: Seq<char>|
        occurs_in(
            if folded {
                lowercase(line)
            } else {
                line
            },
            needle,
        )
}

/// The lines of `text` that hold `query`, in the order in which they stand in
/// the text.
///
/// With regard to case a line holds the query when the query occurs in it.
/// Without, the line and the query are each lower-cased as a whole, and the
/// line holds the query when the one result occurs in the other.
pub open spec fn found_lines(query: Seq<char>, text: Seq<char>, case_sensitive: bool) -> Seq<
    Seq<char>,
> {
    if case_sensitive {
        lines_of(text).filter(line_test(query, false))
    } else {
        lines_of(text).filter(line_test(lowercase(query), true))
    }
}

/// The empty text occurs in every line, lower-cased or not: as a needle it
/// keeps all lines.
proof fn lemma_empty_needle_keeps_all(lines: Seq<Seq<char>>, needle: Seq<char>, folded: bool)
    requires
        needle.len() == 0,
    ensures
        lines.filter(line_test(needle, folded)) == lines,
{
    assert forall|i: int| 0 <= i < lines.len() implies line_test(needle, folded)(lines[i]) by {
        let line = if folded {
            lowercase(lines[i])
        } else {
            lines[i]
        };
        assert(line.subrange(0, 0) =~= needle);
        assert(occurs_at(line, needle, 0));
    }
    lemma_filter_keeps_all(lines, line_test(needle, folded));
}

/// Finds the lines of `text` in which `needle` occurs or, where `folded`, in
/// whose lower-case form it occurs.
///
/// The lines come in the order of the text, each as a slice of `text` without
/// its line terminator. `needle` is compared as it is given: a caller that
/// wants letter case ignored hands it in lower-cased.
pub fn select_lines<'a>(text: &'a str, needle: &str, folded: bool) -> (found: Vec<&'a str>)
    ensures
        found.deep_view() == lines_of(text@).filter(line_test(needle@, folded)),
        needle@.len() == 0 ==> found.deep_view() == lines_of(text@),
{
    let mut found: Vec<&'a str> = Vec::new();
    let mut rest: &'a str = text;
    let ghost mut seen: Seq<Seq<char>> = Seq::empty();
    proof {
        reveal(Seq::filter);
    }
    loop
        invariant
            lines_of(text@) == seen + lines_of(rest@),
            found.deep_view() == seen.filter(line_test(needle@, folded)),
        decreases rest@.len(),
    {
        match split_first_line(rest) {
            None => {
                proof {
                    if needle@.len() == 0 {
                        lemma_empty_needle_keeps_all(seen, needle@, folded);
                    }
                }
                return found;
            },
            Some((line, after)) => {
                let hit = if folded {
                    contains(line.to_lowercase().as_str(), needle)
                } else {
                    contains(line, needle)
                };
                proof {
                    reveal(Seq::filter);
                    assert(seen.push(line@).drop_last() =~= seen);
                }
                if hit {
                    found.push(line);
                }
                rest = after;
                proof {
                    seen = seen.push(line@);
                }
            },
        }
    }
}

/// Finds the lines of `text` in which `query` occurs, letter case counting.
///
/// The lines come in the order of the text, each as a slice of `text` without
/// its line terminator. The empty query occurs in every line; the empty text
/// has no lines.
pub fn search<'a>(query: &str, text: &'a str) -> (found: Vec<&'a str>)
    ensures
        found.deep_view() == found_lines(query@, text@, true),
        query@.len() == 0 ==> found.deep_view() == lines_of(text@),
        text@.len() == 0 ==> found@.len() == 0,
{
    select_lines(text, query, false)
}

/// Finds the lines of `text` in which `query` occurs, letter case not
/// counting.
///
/// The query and each line are lower-cased, each as a whole, before they are
/// compared. The lines come as they stand in the text, not lower-cased, in
/// the order of the text, each as a slice of `text` without its line
/// terminator. The empty query occurs in every line; the empty text has no
/// lines.
pub fn search_case_insensitive<'a>(query: &str, text: &'a str) -> (found: Vec<&'a str>)
    ensures
        found.deep_view() == found_lines(query@, text@, false),
        query@.len() == 0 ==> found.deep_view() == lines_of(text@),
        text@.len() == 0 ==> found@.len() == 0,
{
    let lowered = query.to_lowercase();
    select_lines(text, lowered.as_str(), true)
}

/// Searches `contents` as `config` asks: for `config.query`, with or without
/// regard to letter case.
///
/// `contents` is the whole text of the file that `config.filename` names; to
/// read it is the caller's part, and so is to print the lines found, one by
/// one and in this order.
pub fn run<'a>(config: &Config, contents: &'a str) -> (found: Vec<&'a str>)
    ensures
        found.deep_view() == found_lines(config@.query, contents@, config@.case_sensitive),
        config@.query.len() == 0 ==> found.deep_view() == lines_of(contents@),
        contents@.len() == 0 ==> found@.len() == 0,
{
    if config.case_sensitive {
        search(config.query.as_str(), contents)
    } else {
        search_case_insensitive(config.query.as_str(), contents)
    }
}

/// A line in which the query occurs is found by the search that regards
/// letter case. It is found as it stands in the text, and right after those
/// found lines that stand before it in the text.
pub proof fn lemma_holding_line_is_found(query: Seq<char>, text: Seq<char>, index: int)
    requires
        0 <= index < lines_of(text).len(),
        occurs_in(lines_of(text)[index], query),
    ensures
        ({
            let found = found_lines(query, text, true);
            let earlier = lines_of(text).take(index).filter(line_test(query, false));
            &&& earlier.len() < found.len()
            &&& found[earlier.len() as int] == lines_of(text)[index]
            &&& found.take(earlier.len() as int) == earlier
        }),
{
    let lines = lines_of(text);
    let test = line_test(query, false);
    let before = lines.take(index);
    let after = lines.skip(index + 1);
    assert(lines =~= before + (seq![lines[index]] + after));
    Seq::filter_distributes_over_add(before, seq![lines[index]] + after, test);
    after.lemma_filter_prepend(lines[index], test);
}

/// Every line found is a line of the text, and the query occurs in it: as it
/// is written where letter case counts, in lower case where it does not.
pub proof fn lemma_found_line_holds_query(
    query: Seq<char>,
    text: Seq<char>,
    case_sensitive: bool,
    rank: int,
)
    requires
        0 <= rank < found_lines(query, text, case_sensitive).len(),
    ensures
        ({
            let line = found_lines(query, text, case_sensitive)[rank];
            &&& lines_of(text).contains(line)
            &&& case_sensitive ==> occurs_in(line, query)
            &&& !case_sensitive ==> occurs_in(lowercase(line), lowercase(query))
        }),
{
    let test = if case_sensitive {
        line_test(query, false)
    } else {
        line_test(lowercase(query), true)
    };
    let found = lines_of(text).filter(test);
    lines_of(text).lemma_filter_pred(test, rank);
    lines_of(text).lemma_filter_contains_rev(test, found[rank]);
}

/// The search that disregards letter case finds every line that the search
/// that regards it finds, in the same order: what the second finds is what
/// the first finds, less the lines in which the query does not occur as it is
/// written.
///
/// This holds of the texts in which lower-casing keeps the query inside each
/// line that holds it. It does not hold of every text, as a letter's
/// lower-case form may depend on what follows it.
pub proof fn lemma_folded_search_finds_more(query: Seq<char>, text: Seq<char>)
    requires
        forall|i: int|
            0 <= i < lines_of(text).len() && occurs_in(#[trigger] lines_of(text)[i], query)
                ==> occurs_in(lowercase(lines_of(text)[i]), lowercase(query)),
    ensures
        found_lines(query, text, true) == found_lines(query, text, false).filter(
            line_test(query, false),
        ),
{
    lemma_filter_narrower(
        lines_of(text),
        line_test(query, false),
        line_test(lowercase(query), true),
    );
}

/// A search is a function of its inputs: whatever two searches of one text
/// for one query return, they return the same lines in the same order.
pub proof fn lemma_search_is_repeatable(
    query: Seq<char>,
    text: Seq<char>,
    case_sensitive: bool,
    first: Seq<Seq<char>>,
    second: Seq<Seq<char>>,
)
    requires
        first == found_lines(query, text, case_sensitive),
        second == found_lines(query, text, case_sensitive),
    ensures
        first == second,
{
}

} // verus!

use rustgrep::{run, search, search_case_insensitive, Config};

const QUOTE: &str = "\
Two things are infinite:
the universe and human stupidity;
and I'm not sure about the universe.";

#[test]
fn search_finds_one_result() {
    let query = "stupid";
    let text = "\
Two things are infinite:
the universe and human stupidity;
and I'm not sure about the universe.";

    assert_eq!(
        vec!["the universe and human stupidity;"],
        search(query, text)
    );
}

#[test]
fn case_insensitive_search() {
    let query = "STUpiD";
    let text = "\
Two things are infinite:
the universe and human stupidity;
and I'm not sure about the universe.";

    assert_eq!(
        vec!["the universe and human stupidity;"],
        search_case_insensitive(query, text)
    );
}

#[test]
fn case_sensitive_search_misses_other_case() {
    let found = search("STUpiD", QUOTE);
    assert_eq!(found, Vec::<&str>::new());
}

#[test]
fn search_keeps_the_order_of_the_text() {
    let found = search("universe", QUOTE);
    assert_eq!(
        found,
        vec![
            "the universe and human stupidity;",
            "and I'm not sure about the universe.",
        ]
    );
}

#[test]
fn found_line_stands_after_the_earlier_found_lines() {
    let text = "one fish\ntwo birds\nred fish\nblue fish\nlast bird";
    let found = search("fish", text);
    assert_eq!(found, vec!["one fish", "red fish", "blue fish"]);
    // "red fish" is the third line of the text and the second that holds the query.
    assert_eq!(found[1], text.lines().nth(2).unwrap());
}

#[test]
fn folded_search_finds_what_exact_search_finds() {
    let text = "Rust\nrust\nTRUST me\ndusty\nRUST";
    let exact = search("rust", text);
    let folded = search_case_insensitive("rust", text);
    assert_eq!(exact, vec!["rust"]);
    assert_eq!(folded, vec!["Rust", "rust", "TRUST me", "RUST"]);
    let kept: Vec<&str> = folded.iter().copied().filter(|line| exact.contains(line)).collect();
    assert_eq!(kept, exact);
}

#[test]
fn lower_casing_may_lose_a_match_at_a_final_sigma() {
    // The capital sigma that ends the query becomes a final sigma; inside
    // the line the same letter becomes a medial one.
    let text = "\u{391}\u{3a3}\u{391}";
    let query = "\u{391}\u{3a3}";
    assert_eq!(search(query, text), vec![text]);
    assert_eq!(search_case_insensitive(query, text), Vec::<&str>::new());
}

#[test]
fn empty_query_finds_every_line() {
    let text = "first\n\nthird\r\nfourth";
    let all = vec!["first", "", "third", "fourth"];
    assert_eq!(search("", text), all);
    assert_eq!(search_case_insensitive("", text), all);
}

#[test]
fn empty_text_has_no_lines() {
    assert_eq!(search("query", ""), Vec::<&str>::new());
    assert_eq!(search_case_insensitive("query", ""), Vec::<&str>::new());
    assert_eq!(search("", ""), Vec::<&str>::new());
    assert_eq!(search_case_insensitive("", ""), Vec::<&str>::new());
}

#[test]
fn searching_twice_gives_the_same_lines() {
    let first = search("the", QUOTE);
    let second = search("the", QUOTE);
    assert_eq!(first, second);
    let first = search_case_insensitive("THE", QUOTE);
    let second = search_case_insensitive("THE", QUOTE);
    assert_eq!(first, second);
    assert_eq!(first.len(), 2);
}

#[test]
fn query_absent_from_text_finds_nothing() {
    assert_eq!(search("xyz", QUOTE), Vec::<&str>::new());
    assert_eq!(search_case_insensitive("xyz", QUOTE), Vec::<&str>::new());
}

#[test]
fn query_does_not_match_across_lines() {
    assert_eq!(search("infinite:the", QUOTE), Vec::<&str>::new());
    assert_eq!(search("infinite:\nthe", QUOTE), Vec::<&str>::new());
}

#[test]
fn found_lines_are_slices_of_the_text() {
    let text = String::from("alpha\nbeta\ngamma");
    let found = search("a", &text);
    assert_eq!(found.len(), 3);
    let start = text.as_ptr() as usize;
    assert_eq!(found[0].as_ptr() as usize, start);
    assert_eq!(found[1].as_ptr() as usize, start + 6);
    assert_eq!(found[2].as_ptr() as usize, start + 11);
}

#[test]
fn folded_search_returns_lines_as_written() {
    let found = search_case_insensitive("hello", "Say HELLO\nsay bye");
    assert_eq!(found, vec!["Say HELLO"]);
}

#[test]
fn folded_search_lower_cases_letters_beyond_ascii() {
    let text = "\u{c4}pfel und Birnen\n\u{e4}pfel\nApfel";
    assert_eq!(
        search_case_insensitive("\u{c4}PFEL", text),
        vec!["\u{c4}pfel und Birnen", "\u{e4}pfel"]
    );
    assert_eq!(search("\u{c4}PFEL", text), Vec::<&str>::new());
}

#[test]
fn windows_line_endings_are_stripped() {
    let text = "one\r\ntwo\r\nthree\r\n";
    assert_eq!(search("t", text), vec!["two", "three"]);
    assert_eq!(search("two", text)[0].len(), 3);
}

#[test]
fn carriage_return_inside_a_line_can_be_searched() {
    let text = "a\rb\nc";
    assert_eq!(search("\r", text), vec!["a\rb"]);
    assert_eq!(search("\r", "a\r\nb"), Vec::<&str>::new());
}

#[test]
fn run_regards_case_when_asked() {
    let config = Config {
        query: String::from("STUpiD"),
        filename: String::from("quote.txt"),
        case_sensitive: true,
    };
    assert_eq!(run(&config, QUOTE), Vec::<&str>::new());
}

#[test]
fn run_disregards_case_when_asked() {
    let config = Config {
        query: String::from("STUpiD"),
        filename: String::from("quote.txt"),
        case_sensitive: false,
    };
    assert_eq!(run(&config, QUOTE), vec!["the universe and human stupidity;"]);
}

#[test]
fn run_agrees_with_the_two_searches() {
    let text = "Duct tape\nduct\nDUCT";
    let exact = Config {
        query: String::from("duct"),
        filename: String::new(),
        case_sensitive: true,
    };
    let folded = Config {
        query: String::from("duct"),
        filename: String::new(),
        case_sensitive: false,
    };
    assert_eq!(run(&exact, text), search("duct", text));
    assert_eq!(run(&folded, text), search_case_insensitive("duct", text));
    assert_eq!(run(&exact, text), vec!["duct"]);
    assert_eq!(run(&folded, text), vec!["Duct tape", "duct", "DUCT"]);
}

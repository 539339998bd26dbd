use rustgrep::{Config, ConfigError};

fn args(words: &[&str]) -> Vec<String> {
    words.iter().map(|word| word.to_string()).collect()
}

#[test]
fn no_arguments_at_all_is_a_missing_query() {
    assert_eq!(Config::new(&args(&[]), None), Err(ConfigError::MissingQuery));
}

#[test]
fn program_name_alone_is_a_missing_query() {
    assert_eq!(Config::new(&args(&["rustgrep"]), None), Err(ConfigError::MissingQuery));
}

#[test]
fn query_alone_is_a_missing_filename() {
    assert_eq!(
        Config::new(&args(&["rustgrep", "needle"]), None),
        Err(ConfigError::MissingFilename)
    );
}

#[test]
fn query_and_filename_resolve() {
    let config = Config::new(&args(&["rustgrep", "needle", "haystack.txt"]), None).unwrap();
    assert_eq!(config.query, "needle");
    assert_eq!(config.filename, "haystack.txt");
    assert!(config.case_sensitive);
}

#[test]
fn program_name_is_never_taken_for_the_query() {
    let config = Config::new(&args(&["needle", "haystack.txt", "other.txt"]), None).unwrap();
    assert_eq!(config.query, "haystack.txt");
    assert_eq!(config.filename, "other.txt");
}

#[test]
fn further_arguments_are_ignored() {
    let config = Config::new(&args(&["rustgrep", "a", "b", "c", "d"]), None).unwrap();
    assert_eq!(
        config,
        Config { query: String::from("a"), filename: String::from("b"), case_sensitive: true }
    );
}

#[test]
fn set_variable_switches_case_off() {
    let config = Config::new(&args(&["rustgrep", "a", "b"]), Some("1")).unwrap();
    assert!(!config.case_sensitive);
}

#[test]
fn value_of_the_variable_does_not_count() {
    for value in ["", "0", "false", "no", "TRUE"] {
        let config = Config::new(&args(&["rustgrep", "a", "b"]), Some(value)).unwrap();
        assert!(!config.case_sensitive, "value {:?}", value);
    }
}

#[test]
fn missing_arguments_are_reported_whatever_the_variable() {
    assert_eq!(Config::new(&args(&["rustgrep"]), Some("1")), Err(ConfigError::MissingQuery));
    assert_eq!(
        Config::new(&args(&["rustgrep", "a"]), Some("1")),
        Err(ConfigError::MissingFilename)
    );
}

#[test]
fn empty_arguments_are_arguments() {
    let config = Config::new(&args(&["", "", ""]), None).unwrap();
    assert_eq!(config.query, "");
    assert_eq!(config.filename, "");
}

#[test]
fn messages_name_what_is_missing() {
    assert_eq!(ConfigError::MissingQuery.message(), "You must provide a search query");
    assert_eq!(ConfigError::MissingFilename.message(), "You must provide a file name");
}

#[test]
fn variable_is_named_case_insensitive() {
    assert_eq!(Config::case_variable(), "CASE_INSENSITIVE");
}

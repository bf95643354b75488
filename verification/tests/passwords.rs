//! The password builder, and text utilities it rests on.

use random_password::builder::make_password;
use random_password::config::Config;
use random_password::errors::Error;
use random_password::parser::cli;
use random_password::text::join_words;
use random_password::text::parse_usize;
use random_password::text::split_lines;
use random_password::text::str_eq;

fn config_with(dictionary: &str, separator: &str, count: usize) -> Config {
    Config {
        dictionary: String::from(dictionary),
        separator: String::from(separator),
        count,
        dictionary_path: None,
    }
}

#[test]
fn picks_count_distinct_words() {
    let config = config_with("alpha\nbeta\ngamma\ndelta\nepsilon", "::", 3);
    let out = make_password(&config).unwrap();
    let words: Vec<&str> = out.split("::").collect();
    assert_eq!(words.len(), 3);
    for (i, w) in words.iter().enumerate() {
        assert!(["alpha", "beta", "gamma", "delta", "epsilon"].contains(w));
        for v in words.iter().skip(i + 1) {
            assert_ne!(w, v);
        }
    }
}

#[test]
fn uses_every_word_when_count_is_the_size() {
    let config = config_with("alpha\nbeta\ngamma", "-", 3);
    let out = make_password(&config).unwrap();
    let mut words: Vec<&str> = out.split('-').collect();
    words.sort();
    assert_eq!(words, vec!["alpha", "beta", "gamma"]);
}

#[test]
fn single_word_dictionary() {
    let config = config_with("alpha", "-", 1);
    assert_eq!(make_password(&config).unwrap(), "alpha");
}

#[test]
fn zero_count_gives_empty_passphrase() {
    let config = config_with("alpha\nbeta", "-", 0);
    assert_eq!(make_password(&config).unwrap(), "");
}

#[test]
fn fails_when_count_exceeds_dictionary() {
    let config = config_with("alpha\nbeta", "-", 3);
    match make_password(&config) {
        Err(Error::NotEnoughWords) => {},
        other => panic!("expected a not-enough-words error, got {:?}", other),
    }
}

#[test]
fn default_invocation_gives_three_words() {
    let config = cli(&Vec::new()).unwrap();
    let out = make_password(&config).unwrap();
    let words: Vec<&str> = out.split('-').collect();
    assert_eq!(words.len(), 3);
    for (i, w) in words.iter().enumerate() {
        assert!(config.dictionary.lines().any(|line| line == *w));
        for v in words.iter().skip(i + 1) {
            assert_ne!(w, v);
        }
    }
}

#[test]
fn split_lines_matches_line_structure() {
    let lines = split_lines("alpha\nbeta\r\n\ngamma\n");
    assert_eq!(lines, vec!["alpha", "beta", "", "gamma"]);
    assert_eq!(split_lines(""), Vec::<String>::new());
    assert_eq!(split_lines("one"), vec!["one"]);
}

#[test]
fn join_words_interleaves_separator() {
    let words = vec![String::from("a"), String::from("b"), String::from("c")];
    assert_eq!(join_words(&words, "--"), "a--b--c");
    assert_eq!(join_words(&Vec::new(), "--"), "");
    assert_eq!(join_words(&vec![String::from("a")], "--"), "a");
}

#[test]
fn parse_usize_accepts_digits_only() {
    assert_eq!(parse_usize("0"), Some(0));
    assert_eq!(parse_usize("42"), Some(42));
    assert_eq!(parse_usize("+42"), Some(42));
    assert_eq!(parse_usize(""), None);
    assert_eq!(parse_usize("+"), None);
    assert_eq!(parse_usize("4x"), None);
    assert_eq!(parse_usize("-4"), None);
    assert_eq!(parse_usize("18446744073709551615"), Some(usize::MAX));
    assert_eq!(parse_usize("18446744073709551616"), None);
}

#[test]
fn str_eq_compares_contents() {
    assert!(str_eq("count", "count"));
    assert!(!str_eq("count", "county"));
    assert!(!str_eq("count", "Count"));
    assert!(str_eq("", ""));
}

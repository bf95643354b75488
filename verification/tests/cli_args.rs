//! The whole argument parser, exercised through `cli`.

use random_password::errors::Error;
use random_password::parser::cli;

fn strings(items: &[&str]) -> Vec<String> {
    items.iter().map(|s| String::from(*s)).collect()
}

#[test]
fn count_short_attached() {
    let config = cli(&strings(&["-c4"])).unwrap();
    assert_eq!(config.count, 4);
}

#[test]
fn count_short_spaced() {
    let config = cli(&strings(&["-c", "4"])).unwrap();
    assert_eq!(config.count, 4);
}

#[test]
fn count_long() {
    let config = cli(&strings(&["--count", "4"])).unwrap();
    assert_eq!(config.count, 4);
}

#[test]
fn count_accepts_plus_sign() {
    let config = cli(&strings(&["-c", "+7"])).unwrap();
    assert_eq!(config.count, 7);
}

#[test]
fn count_rejects_non_number() {
    match cli(&strings(&["-c", "abc"])) {
        Err(Error::InvalidNumber(text)) => assert_eq!(text, "abc"),
        other => panic!("expected an invalid-number error, got {:?}", other.map(|c| c.count)),
    }
}

#[test]
fn count_rejects_trailing_garbage() {
    match cli(&strings(&["-c4x"])) {
        Err(Error::InvalidNumber(text)) => assert_eq!(text, "4x"),
        other => panic!("expected an invalid-number error, got {:?}", other.map(|c| c.count)),
    }
}

#[test]
fn count_missing_value() {
    match cli(&strings(&["-c"])) {
        Err(Error::MissingValue(flag)) => assert_eq!(flag, "count"),
        other => panic!("expected a missing-value error, got {:?}", other.map(|c| c.count)),
    }
}

#[test]
fn separator_missing_value() {
    match cli(&strings(&["--separator"])) {
        Err(Error::MissingValue(flag)) => assert_eq!(flag, "separator"),
        other => panic!("expected a missing-value error, got {:?}", other.map(|c| c.count)),
    }
}

#[test]
fn unknown_short_flag_is_named() {
    match cli(&strings(&["-x"])) {
        Err(Error::UnknownOption(token)) => assert_eq!(token, "-x"),
        other => panic!("expected an unknown-option error, got {:?}", other.map(|c| c.count)),
    }
}

#[test]
fn unknown_long_flag_is_named() {
    match cli(&strings(&["--bogus"])) {
        Err(Error::UnknownOption(token)) => assert_eq!(token, "bogus"),
        other => panic!("expected an unknown-option error, got {:?}", other.map(|c| c.count)),
    }
}

#[test]
fn lone_dash_is_unknown() {
    match cli(&strings(&["-"])) {
        Err(Error::UnknownOption(token)) => assert_eq!(token, "-"),
        other => panic!("expected an unknown-option error, got {:?}", other.map(|c| c.count)),
    }
}

#[test]
fn separator_short_and_long() {
    let config = cli(&strings(&["-s", "::"])).unwrap();
    assert_eq!(config.separator, "::");
    let config = cli(&strings(&["--separator", "+"])).unwrap();
    assert_eq!(config.separator, "+");
    let config = cli(&strings(&["-s_"])).unwrap();
    assert_eq!(config.separator, "_");
}

#[test]
fn dictionary_records_path() {
    let config = cli(&strings(&["-d", "words.txt"])).unwrap();
    assert_eq!(config.dictionary_path.as_deref(), Some("words.txt"));
    let config = cli(&strings(&["--dictionary", "other.txt"])).unwrap();
    assert_eq!(config.dictionary_path.as_deref(), Some("other.txt"));
}

#[test]
fn defaults_without_flags() {
    let config = cli(&Vec::new()).unwrap();
    assert_eq!(config.count, 3);
    assert_eq!(config.separator, "-");
    assert!(config.dictionary_path.is_none());
    assert!(config.dictionary.lines().count() >= 3);
}

#[test]
fn plain_tokens_are_ignored() {
    let config = cli(&strings(&["hello", "-c2", "world"])).unwrap();
    assert_eq!(config.count, 2);
}

#[test]
fn last_occurrence_wins() {
    let config = cli(&strings(&["-c2", "--count", "5"])).unwrap();
    assert_eq!(config.count, 5);
}

#[test]
fn double_dash_alone_is_unknown() {
    match cli(&strings(&["--"])) {
        Err(Error::UnknownOption(token)) => assert_eq!(token, ""),
        other => panic!("expected an unknown-option error, got {:?}", other.map(|c| c.count)),
    }
}

#[test]
fn empty_separator_value() {
    let config = cli(&strings(&["-s", ""])).unwrap();
    assert_eq!(config.separator, "");
}

//! Count-flag parsing, exercised directly on the flag handlers.

use random_password::config::Config;
use random_password::parser::do_long_option;
use random_password::parser::parse_count;

fn default_config() -> Config {
    Config {
        count: 3,
        dictionary: String::new(),
        separator: String::new(),
        dictionary_path: None,
    }
}

#[test]
fn with_short_option_no_space() {
    let mut config = default_config();
    let args: Vec<String> = Vec::new();
    let mut pos: usize = 0;
    // parse_count(..) expects "-c" to be removed before calling.
    // random_password -c4
    assert!(parse_count(&mut config, "4", &args, &mut pos).is_ok());
    assert_eq!(config.count, 4);
}

#[test]
fn with_short_option_space() {
    let mut config = default_config();
    let args = vec![String::from("4")];
    let mut pos: usize = 0;
    // parse_count(..) expects "-c" to be removed before calling.
    // random_password -c 4
    assert!(parse_count(&mut config, "", &args, &mut pos).is_ok());
    assert_eq!(config.count, 4);
}

#[test]
fn with_long_option() {
    let mut config = default_config();
    let args = vec![String::from("4")];
    let mut pos: usize = 0;
    // do_long_option(..) expects leading "--" to be removed before calling.
    assert!(do_long_option(&mut config, "count", &args, &mut pos).is_ok());
    assert_eq!(config.count, 4);
}

#[test]
fn without_argument_to_short() {
    let mut config = default_config();
    let args: Vec<String> = Vec::new();
    let mut pos: usize = 0;
    // parse_count(..) expects "-c" to be removed before calling.
    // random_password -c
    assert!(parse_count(&mut config, "", &args, &mut pos).is_err());
}

#[test]
fn without_argument_to_long() {
    let mut config = default_config();
    let args: Vec<String> = Vec::new();
    let mut pos: usize = 0;
    // do_long_option(..) expects leading "--" to be removed before calling.
    // random_password --count
    assert!(do_long_option(&mut config, "count", &args, &mut pos).is_err());
}

//! A passphrase generator: a command-line argument parser that produces a
//! configuration (dictionary text, separator, word count), and a password
//! builder that samples distinct words from the dictionary and joins them.

pub mod builder;
pub mod config;
pub mod errors;
pub mod parser;
pub mod text;

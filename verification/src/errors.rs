//! Errors reported by the argument parser and the password builder.

use vstd::prelude::*;

verus! {

/// Spec-level mirror of [`Error`], over sequences of characters.
pub ghost enum ErrorSpec {
    /// A flag that the parser does not recognize; carries the offending text.
    UnknownOption(Seq<char>),
    /// A flag that needs a value was given none; carries the flag's name.
    MissingValue(Seq<char>),
    /// A count value that is not a decimal number fitting `usize`; carries the text.
    InvalidNumber(Seq<char>),
    /// The requested word count exceeds the number of dictionary lines.
    NotEnoughWords,
}

/// What can go wrong while parsing arguments or building a passphrase.
#[derive(Debug)]
pub enum Error {
    /// A flag that the parser does not recognize; carries the offending text.
    UnknownOption(String),
    /// A flag that needs a value was given none; carries the flag's name.
    MissingValue(String),
    /// A count value that is not a decimal number fitting `usize`; carries the text.
    InvalidNumber(String),
    /// The requested word count exceeds the number of dictionary lines.
    NotEnoughWords,
}

impl View for Error {
    type V = ErrorSpec;

    open spec fn view(&self) -> ErrorSpec {
        match self {
            Error::UnknownOption(s) => ErrorSpec::UnknownOption(s@),
            Error::MissingValue(s) => ErrorSpec::MissingValue(s@),
            Error::InvalidNumber(s) => ErrorSpec::InvalidNumber(s@),
            Error::NotEnoughWords => ErrorSpec::NotEnoughWords,
        }
    }
}

} // verus!

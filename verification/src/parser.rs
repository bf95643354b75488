//! The command-line argument parser.
//!
//! The parser walks the argument list (the program name excluded) and folds
//! flags into a [`Config`]. Recognized flags, in short and long form:
//! `-c`/`--count` (word count), `-d`/`--dictionary` (dictionary file path),
//! `-s`/`--separator` (separator text). A short flag takes its value either
//! attached (`-c4`) or as the following argument (`-c 4`); a long flag takes
//! the following argument. When a flag repeats, the last occurrence wins.
//! Tokens that do not start with `-` are ignored.

use vstd::prelude::*;
use vstd::string::StrSliceExecFns;

use crate::config::Config;
use crate::config::ConfigSpec;
use crate::config::default_config_spec;
use crate::errors::Error;
use crate::errors::ErrorSpec;
use crate::text::parse_usize;
use crate::text::parse_usize_spec;
use crate::text::str_eq;

verus! {

/// The value a flag takes when its attached text is `tok` and the arguments
/// from position `i` on are still unread: the attached text if there is any,
/// else the next argument; `None` when both are missing. Returns the value
/// and the position of the next unread argument.
pub open spec fn take_value(tok: Seq<char>, av: Seq<Seq<char>>, i: int) -> Option<(Seq<char>, int)> {
    if tok.len() > 0 {
        Some((tok, i))
    } else if 0 <= i && i < av.len() {
        Some((av[i], i + 1))
    } else {
        None
    }
}

/// The effect of a count flag: its value must parse as a decimal `usize`.
pub open spec fn count_step(conf: ConfigSpec, tok: Seq<char>, av: Seq<Seq<char>>, i: int) -> Result<
    (ConfigSpec, int),
    ErrorSpec,
> {
    match take_value(tok, av, i) {
        None => Err(ErrorSpec::MissingValue("count"@)),
        Some(vj) => match parse_usize_spec(vj.0) {
            None => Err(ErrorSpec::InvalidNumber(vj.0)),
            Some(n) => Ok((conf.with_count(n as nat), vj.1)),
        },
    }
}

/// The effect of a separator flag: its value becomes the separator.
pub open spec fn separator_step(conf: ConfigSpec, tok: Seq<char>, av: Seq<Seq<char>>, i: int) -> Result<
    (ConfigSpec, int),
    ErrorSpec,
> {
    match take_value(tok, av, i) {
        None => Err(ErrorSpec::MissingValue("separator"@)),
        Some(vj) => Ok((conf.with_separator(vj.0), vj.1)),
    }
}

/// The effect of a dictionary flag: its value is recorded as the dictionary
/// file path.
pub open spec fn dictionary_step(conf: ConfigSpec, tok: Seq<char>, av: Seq<Seq<char>>, i: int) -> Result<
    (ConfigSpec, int),
    ErrorSpec,
> {
    match take_value(tok, av, i) {
        None => Err(ErrorSpec::MissingValue("dictionary"@)),
        Some(vj) => Ok((conf.with_dictionary_path(vj.0), vj.1)),
    }
}

/// The effect of a long option named `name` (the leading `--` removed): the
/// flag's value is the next argument; an unrecognized name is an error that
/// carries the name.
pub open spec fn long_step(conf: ConfigSpec, name: Seq<char>, av: Seq<Seq<char>>, i: int) -> Result<
    (ConfigSpec, int),
    ErrorSpec,
> {
    if name == "count"@ {
        count_step(conf, Seq::empty(), av, i)
    } else if name == "separator"@ {
        separator_step(conf, Seq::empty(), av, i)
    } else if name == "dictionary"@ {
        dictionary_step(conf, Seq::empty(), av, i)
    } else {
        Err(ErrorSpec::UnknownOption(name))
    }
}

/// Folds the arguments from position `i` on into `conf`: long options, then
/// short options (`-c`, `-d`, `-s`, anything else an error carrying the
/// token), while tokens without a leading `-` are ignored. A successful step
/// always advances the position; the guard on the recursion makes that fact
/// available to the termination check.
pub open spec fn cli_from(av: Seq<Seq<char>>, i: int, conf: ConfigSpec) -> Result<
    ConfigSpec,
    ErrorSpec,
>
    decreases av.len() - i,
{
    if !(0 <= i && i < av.len()) {
        Ok(conf)
    } else {
        let a = av[i];
        if a.len() >= 2 && a[0] == '-' && a[1] == '-' {
            match long_step(conf, a.subrange(2, a.len() as int), av, i + 1) {
                Err(e) => Err(e),
                Ok(cj) => if cj.1 > i {
                    cli_from(av, cj.1, cj.0)
                } else {
                    Ok(cj.0)
                },
            }
        } else if a.len() >= 1 && a[0] == '-' {
            if a.len() >= 2 && a[1] == 'c' {
                match count_step(conf, a.subrange(2, a.len() as int), av, i + 1) {
                    Err(e) => Err(e),
                    Ok(cj) => if cj.1 > i {
                        cli_from(av, cj.1, cj.0)
                    } else {
                        Ok(cj.0)
                    },
                }
            } else if a.len() >= 2 && a[1] == 'd' {
                match dictionary_step(conf, a.subrange(2, a.len() as int), av, i + 1) {
                    Err(e) => Err(e),
                    Ok(cj) => if cj.1 > i {
                        cli_from(av, cj.1, cj.0)
                    } else {
                        Ok(cj.0)
                    },
                }
            } else if a.len() >= 2 && a[1] == 's' {
                match separator_step(conf, a.subrange(2, a.len() as int), av, i + 1) {
                    Err(e) => Err(e),
                    Ok(cj) => if cj.1 > i {
                        cli_from(av, cj.1, cj.0)
                    } else {
                        Ok(cj.0)
                    },
                }
            } else {
                Err(ErrorSpec::UnknownOption(a))
            }
        } else {
            cli_from(av, i + 1, conf)
        }
    }
}

/// Reads the count flag's value: the attached text `current_option` if
/// nonempty, else the argument at `*pos`; sets the word count on success.
pub fn parse_count(config: &mut Config, current_option: &str, args: &Vec<String>, pos: &mut usize) -> (r: Result<(), Error>)
    ensures
        match count_step(old(config)@, current_option@, args.deep_view(), *old(pos) as int) {
            Ok(cj) => r is Ok && final(config)@ == cj.0 && *final(pos) == cj.1,
            Err(e) => (r matches Err(err) && err@ == e) && *final(config) == *old(config)
                && *final(pos) == *old(pos),
        },
{
    if !current_option.is_empty() {
        match parse_usize(current_option) {
            Some(n) => {
                config.update_word_count(n);
                Ok(())
            },
            None => Err(Error::InvalidNumber(current_option.to_owned())),
        }
    } else if *pos < args.len() {
        let v: &String = &args[*pos];
        proof {
            assert(args.deep_view()[*pos as int] == v@);
        }
        match parse_usize(v.as_str()) {
            Some(n) => {
                config.update_word_count(n);
                *pos = *pos + 1;
                Ok(())
            },
            None => Err(Error::InvalidNumber(v.clone())),
        }
    } else {
        Err(Error::MissingValue("count".to_owned()))
    }
}

/// Reads the separator flag's value in the same way and sets the separator.
pub fn parse_separator(config: &mut Config, current_option: &str, args: &Vec<String>, pos: &mut usize) -> (r: Result<(), Error>)
    ensures
        match separator_step(old(config)@, current_option@, args.deep_view(), *old(pos) as int) {
            Ok(cj) => r is Ok && final(config)@ == cj.0 && *final(pos) == cj.1,
            Err(e) => (r matches Err(err) && err@ == e) && *final(config) == *old(config)
                && *final(pos) == *old(pos),
        },
{
    if !current_option.is_empty() {
        config.update_separator(current_option.to_owned());
        Ok(())
    } else if *pos < args.len() {
        let v: &String = &args[*pos];
        proof {
            assert(args.deep_view()[*pos as int] == v@);
        }
        config.update_separator(v.clone());
        *pos = *pos + 1;
        Ok(())
    } else {
        Err(Error::MissingValue("separator".to_owned()))
    }
}

/// Reads the dictionary flag's value in the same way and records it as the
/// dictionary file path.
pub fn parse_dictionary(config: &mut Config, current_option: &str, args: &Vec<String>, pos: &mut usize) -> (r: Result<(), Error>)
    ensures
        match dictionary_step(old(config)@, current_option@, args.deep_view(), *old(pos) as int) {
            Ok(cj) => r is Ok && final(config)@ == cj.0 && *final(pos) == cj.1,
            Err(e) => (r matches Err(err) && err@ == e) && *final(config) == *old(config)
                && *final(pos) == *old(pos),
        },
{
    if !current_option.is_empty() {
        config.update_dictionary_path(current_option.to_owned());
        Ok(())
    } else if *pos < args.len() {
        let v: &String = &args[*pos];
        proof {
            assert(args.deep_view()[*pos as int] == v@);
        }
        config.update_dictionary_path(v.clone());
        *pos = *pos + 1;
        Ok(())
    } else {
        Err(Error::MissingValue("dictionary".to_owned()))
    }
}

/// Applies a long option named `current_option` (the leading `--` removed),
/// taking its value from the argument at `*pos`.
pub fn do_long_option(config: &mut Config, current_option: &str, args: &Vec<String>, pos: &mut usize) -> (r: Result<(), Error>)
    ensures
        match long_step(old(config)@, current_option@, args.deep_view(), *old(pos) as int) {
            Ok(cj) => r is Ok && final(config)@ == cj.0 && *final(pos) == cj.1,
            Err(e) => (r matches Err(err) && err@ == e) && *final(config) == *old(config)
                && *final(pos) == *old(pos),
        },
{
    proof {
        reveal_strlit("");
        assert(""@ =~= Seq::<char>::empty());
    }
    if str_eq(current_option, "count") {
        parse_count(config, "", args, pos)
    } else if str_eq(current_option, "separator") {
        parse_separator(config, "", args, pos)
    } else if str_eq(current_option, "dictionary") {
        parse_dictionary(config, "", args, pos)
    } else {
        Err(Error::UnknownOption(current_option.to_owned()))
    }
}

/// Parses the whole argument list (the program name excluded) into a
/// [`Config`], starting from the defaults: the bundled dictionary, separator
/// `-`, and three words.
pub fn cli(args: &Vec<String>) -> (r: Result<Config, Error>)
    ensures
        match r {
            Ok(c) => cli_from(args.deep_view(), 0, default_config_spec()) == Ok::<
                ConfigSpec,
                ErrorSpec,
            >(c@),
            Err(e) => cli_from(args.deep_view(), 0, default_config_spec()) == Err::<
                ConfigSpec,
                ErrorSpec,
            >(e@),
        },
{
    let mut config = Config::default();
    let mut pos: usize = 0;
    let ghost av = args.deep_view();
    while pos < args.len()
        invariant
            pos <= args.len(),
            av == args.deep_view(),
            av.len() == args@.len(),
            cli_from(av, pos as int, config@) == cli_from(av, 0, default_config_spec()),
        decreases args@.len() - pos,
    {
        let ghost p = pos as int;
        let a: &String = &args[pos];
        proof {
            assert(av[p] == a@);
        }
        let alen = a.as_str().unicode_len();
        pos = pos + 1;
        if alen >= 2 && a.as_str().get_char(0) == '-' && a.as_str().get_char(1) == '-' {
            let name = a.as_str().substring_char(2, alen);
            proof {
                assert(name@ == av[p].subrange(2, av[p].len() as int));
            }
            match do_long_option(&mut config, name, args, &mut pos) {
                Ok(()) => {},
                Err(e) => {
                    return Err(e);
                },
            }
        } else if alen >= 1 && a.as_str().get_char(0) == '-' {
            if alen >= 2 {
                let f = a.as_str().get_char(1);
                let tok = a.as_str().substring_char(2, alen);
                proof {
                    assert(tok@ == av[p].subrange(2, av[p].len() as int));
                }
                if f == 'c' {
                    match parse_count(&mut config, tok, args, &mut pos) {
                        Ok(()) => {},
                        Err(e) => {
                            return Err(e);
                        },
                    }
                } else if f == 'd' {
                    match parse_dictionary(&mut config, tok, args, &mut pos) {
                        Ok(()) => {},
                        Err(e) => {
                            return Err(e);
                        },
                    }
                } else if f == 's' {
                    match parse_separator(&mut config, tok, args, &mut pos) {
                        Ok(()) => {},
                        Err(e) => {
                            return Err(e);
                        },
                    }
                } else {
                    return Err(Error::UnknownOption(a.clone()));
                }
            } else {
                return Err(Error::UnknownOption(a.clone()));
            }
        } else {
            // not a flag; ignored
        }
    }
    Ok(config)
}

} // verus!

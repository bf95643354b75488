//! The configuration record that the argument parser produces and the
//! password builder consumes.

use vstd::prelude::*;
use vstd::string::StringExecFns;

verus! {

/// Spec-level mirror of [`Config`], over sequences of characters.
pub ghost struct ConfigSpec {
    pub dictionary: Seq<char>,
    pub separator: Seq<char>,
    pub count: nat,
    pub dictionary_path: Option<Seq<char>>,
}

impl ConfigSpec {
    pub open spec fn with_count(self, n: nat) -> ConfigSpec {
        ConfigSpec {
            dictionary: self.dictionary,
            separator: self.separator,
            count: n,
            dictionary_path: self.dictionary_path,
        }
    }

    pub open spec fn with_separator(self, s: Seq<char>) -> ConfigSpec {
        ConfigSpec {
            dictionary: self.dictionary,
            separator: s,
            count: self.count,
            dictionary_path: self.dictionary_path,
        }
    }

    pub open spec fn with_dictionary_path(self, p: Seq<char>) -> ConfigSpec {
        ConfigSpec {
            dictionary: self.dictionary,
            separator: self.separator,
            count: self.count,
            dictionary_path: Some(p),
        }
    }
}

/// The word list that is used when no `-d`/`--dictionary` flag is given.
pub open spec fn default_dictionary_text() -> Seq<char> {
    "apple\nbanana\ncarrot\ndolphin\neagle\nfalcon\ngarden\nharbor\nisland\njungle\nkitten\nlantern\nmeadow\nnectar\norchid\npebble\nquartz\nriver\nsummit\ntiger\numbrella\nvelvet\nwalnut\nxylophone\nyellow\nzephyr\nanchor\nbreeze\ncopper\ndesert\nember\nforest\nglacier\nhollow\nivory\njigsaw\nkernel\nlagoon\nmarble\nnimble"@
}

/// The separator that is used when no `-s`/`--separator` flag is given.
pub open spec fn default_separator_text() -> Seq<char> {
    "-"@
}

/// The word count that is used when no `-c`/`--count` flag is given.
pub open spec fn default_count() -> nat {
    3
}

/// What the parser starts from before any flag is applied.
pub open spec fn default_config_spec() -> ConfigSpec {
    ConfigSpec {
        dictionary: default_dictionary_text(),
        separator: default_separator_text(),
        count: default_count(),
        dictionary_path: None,
    }
}

/// A passphrase configuration: the dictionary text to sample from, the
/// separator placed between the sampled words, and how many words to sample.
/// `dictionary_path` records a `-d`/`--dictionary` flag; the caller is
/// expected to load that file and install its contents with
/// [`Config::update_dictionary`] before building a password.
pub struct Config {
    pub dictionary: String,
    pub separator: String,
    pub count: usize,
    pub dictionary_path: Option<String>,
}

impl View for Config {
    type V = ConfigSpec;

    open spec fn view(&self) -> ConfigSpec {
        ConfigSpec {
            dictionary: self.dictionary@,
            separator: self.separator@,
            count: self.count as nat,
            dictionary_path: match self.dictionary_path {
                Some(p) => Some(p@),
                None => None,
            },
        }
    }
}

impl Config {
    /// Replaces the word count.
    pub fn update_word_count(&mut self, c: usize)
        ensures
            final(self)@ == old(self)@.with_count(c as nat),
    {
        self.count = c;
    }

    /// Replaces the dictionary text.
    pub fn update_dictionary(&mut self, d: String)
        ensures
            final(self)@ == (ConfigSpec { dictionary: d@, ..old(self)@ }),
    {
        self.dictionary = d;
    }

    /// Replaces the separator.
    pub fn update_separator(&mut self, s: String)
        ensures
            final(self)@ == old(self)@.with_separator(s@),
    {
        self.separator = s;
    }

    /// Records the path of a user-supplied dictionary file.
    pub fn update_dictionary_path(&mut self, p: String)
        ensures
            final(self)@ == old(self)@.with_dictionary_path(p@),
    {
        self.dictionary_path = Some(p);
    }
}

impl Default for Config {
    /// The configuration of a bare invocation: the bundled dictionary,
    /// separator `-`, and three words.
    fn default() -> (r: Config)
        ensures
            r@ == default_config_spec(),
    {
        Config {
            dictionary: String::from_str("apple\nbanana\ncarrot\ndolphin\neagle\nfalcon\ngarden\nharbor\nisland\njungle\nkitten\nlantern\nmeadow\nnectar\norchid\npebble\nquartz\nriver\nsummit\ntiger\numbrella\nvelvet\nwalnut\nxylophone\nyellow\nzephyr\nanchor\nbreeze\ncopper\ndesert\nember\nforest\nglacier\nhollow\nivory\njigsaw\nkernel\nlagoon\nmarble\nnimble"),
            separator: String::from_str("-"),
            count: 3,
            dictionary_path: None,
        }
    }
}

} // verus!

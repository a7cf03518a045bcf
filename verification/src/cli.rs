//! The options of one run, the defaults that a configuration may supply, and
//! where a run reads from.

use crate::error::CliError;
use crate::order::is_same_text;
use crate::pattern::{compile, compiled_pattern, matched_texts};
use regex::Regex;
use std::path::PathBuf;
use vstd::prelude::*;
use vstd::string::StringExecFns;

verus! {

/// A file system path.  The library never looks inside one.
#[verifier::external_type_specification]
#[verifier::external_body]
pub struct ExPathBuf(std::path::PathBuf);

/// The options of one run, as given on the command line.
#[derive(Debug)]
pub struct CliArgs {
    /// Files and directories to read; standard input where absent.
    pub target: Option<Vec<PathBuf>>,
    /// Show only the first so many ranked words.
    pub top: Option<usize>,
    /// Drop words of fewer grapheme clusters than this.
    pub min_char: Option<usize>,
    /// `"asc"` ranks rare words first; anything else ranks frequent words first.
    pub sort: String,
    /// Count words as written instead of folding case.
    pub case_sensitive: bool,
    /// Drop stopwords.
    pub no_stopwords: bool,
    /// Drop words in which this expression finds a match.
    pub ignore_words: Option<Regex>,
    /// Skip files with one of these names.
    pub ignore_files: Option<Vec<String>>,
    /// Drop words that hold a character that is not alphabetic.
    pub alphabetic_only: bool,
    /// `"text"`, `"json"` or `"csv"`.
    pub output_format: String,
    /// Where to look for defaults.
    pub config: Option<PathBuf>,
}

/// Defaults for options that the command line left open.
#[derive(Debug)]
pub struct Config {
    /// Default for `top`.
    pub top: Option<usize>,
    /// Default for `min_char`.
    pub min_char: Option<usize>,
    /// Default for `ignore_words`, as the text of a pattern.
    pub ignore_words: Option<String>,
    /// Default for `ignore_files`.
    pub ignore_files: Option<Vec<String>>,
}

/// Where a run reads from.
#[derive(Debug, PartialEq, Eq, Clone, Copy, Structural)]
pub enum Input {
    /// The files and directories named on the command line.
    Targets,
    /// Standard input.
    Stdin,
}

impl Default for Config {
    fn default() -> (config: Config)
        ensures
            config.top is None,
            config.min_char is None,
            config.ignore_words is None,
            config.ignore_files is None,
    {
        Config { top: None, min_char: None, ignore_words: None, ignore_files: None }
    }
}

impl Config {
    /// What is made of an attempt to load a configuration: the configuration
    /// where it was loaded, and no defaults at all where loading failed, so
    /// that a configuration that cannot be used never stops a run.
    pub fn recovered(loaded: Result<Config, CliError>) -> (config: Config)
        ensures
            match loaded {
                Ok(found) => config == found,
                Err(_) => {
                    &&& config.top is None
                    &&& config.min_char is None
                    &&& config.ignore_words is None
                    &&& config.ignore_files is None
                },
            },
    {
        match loaded {
            Ok(found) => found,
            Err(_) => Config { top: None, min_char: None, ignore_words: None, ignore_files: None },
        }
    }
}

/// Whether `merged` is `args` with the options that `args` leaves open taken
/// from `config`.  An option given in `args` stands.  `pattern` is the compiled
/// form of the pattern of `config`, absent where there is none or it does not
/// compile.
pub open spec fn takes_defaults(
    merged: CliArgs,
    args: CliArgs,
    config: Config,
    pattern: Option<Regex>,
) -> bool {
    &&& merged.top == if args.top is Some {
        args.top
    } else {
        config.top
    }
    &&& merged.min_char == if args.min_char is Some {
        args.min_char
    } else {
        config.min_char
    }
    &&& merged.ignore_words == if args.ignore_words is Some {
        args.ignore_words
    } else {
        pattern
    }
    &&& merged.ignore_files == if args.ignore_files is Some {
        args.ignore_files
    } else {
        config.ignore_files
    }
    &&& merged.target == args.target
    &&& merged.sort == args.sort
    &&& merged.case_sensitive == args.case_sensitive
    &&& merged.no_stopwords == args.no_stopwords
    &&& merged.alphabetic_only == args.alphabetic_only
    &&& merged.output_format == args.output_format
    &&& merged.config == args.config
}

/// Why a run with the direction `sort` and the format `output_format` is
/// turned down before it starts, if it is: the direction is neither `"asc"` nor
/// `"desc"`, or else the format is none of `"text"`, `"json"` and `"csv"`.
pub open spec fn objection(sort: Seq<char>, output_format: Seq<char>) -> Option<Seq<char>> {
    if sort != "asc"@ && sort != "desc"@ {
        Some("Unsupported sort order: "@ + sort)
    } else if output_format != "text"@ && output_format != "json"@ && output_format != "csv"@ {
        Some("Unsupported output format: "@ + output_format)
    } else {
        None
    }
}

/// Whether `pattern` is what compiling the pattern of `config` gives: the
/// expression where there is a pattern and it compiles, nothing otherwise.
pub open spec fn compiled_from(pattern: Option<Regex>, config: Config) -> bool {
    match config.ignore_words {
        Some(text) => match compiled_pattern(text@) {
            Some(texts) => pattern matches Some(re) && matched_texts(re) == texts,
            None => pattern is None,
        },
        None => pattern is None,
    }
}

impl CliArgs {
    /// Fills the options that the command line left open from `config`.
    /// `pattern` is the compiled pattern of `config`, if it has one that
    /// compiles.
    pub fn with_defaults(self, config: Config, pattern: Option<Regex>) -> (merged: CliArgs)
        ensures
            takes_defaults(merged, self, config, pattern),
    {
        CliArgs {
            target: self.target,
            top: match self.top {
                Some(top) => Some(top),
                None => config.top,
            },
            min_char: match self.min_char {
                Some(least) => Some(least),
                None => config.min_char,
            },
            sort: self.sort,
            case_sensitive: self.case_sensitive,
            no_stopwords: self.no_stopwords,
            ignore_words: match self.ignore_words {
                Some(re) => Some(re),
                None => pattern,
            },
            ignore_files: match self.ignore_files {
                Some(names) => Some(names),
                None => config.ignore_files,
            },
            alphabetic_only: self.alphabetic_only,
            output_format: self.output_format,
            config: self.config,
        }
    }

    /// Fills the options that the command line left open from `config`.  The
    /// pattern of `config` is compiled only where the command line gave none; a
    /// pattern that does not compile is passed over, as a configuration that
    /// cannot be used falls back to the defaults.
    pub fn apply_config(self, config: Config) -> (merged: CliArgs)
        ensures
            takes_defaults(merged, self, config, merged.ignore_words),
            self.ignore_words is None ==> compiled_from(merged.ignore_words, config),
    {
        let pattern = if self.ignore_words.is_none() {
            match &config.ignore_words {
                Some(text) => match compile(text.as_str()) {
                    Ok(re) => Some(re),
                    Err(_) => None,
                },
                None => None,
            }
        } else {
            None
        };
        self.with_defaults(config, pattern)
    }

    /// Turns down options that no run can follow, before anything is read or
    /// counted: a direction or a format that is not known.
    pub fn validate(&self) -> (outcome: Result<(), CliError>)
        ensures
            match objection(self.sort@, self.output_format@) {
                Some(message) => outcome matches Err(CliError::Other(reason)) && reason@
                    == message,
                None => outcome is Ok,
            },
    {
        let sort = self.sort.as_str();
        let format = self.output_format.as_str();
        if !is_same_text(sort, "asc") && !is_same_text(sort, "desc") {
            Err(CliError::Other(String::from_str("Unsupported sort order: ").concat(sort)))
        } else if !is_same_text(format, "text") && !is_same_text(format, "json") && !is_same_text(
            format,
            "csv",
        ) {
            Err(CliError::Other(String::from_str("Unsupported output format: ").concat(format)))
        } else {
            Ok(())
        }
    }

    /// Where this run reads from: the targets where some are named, standard
    /// input where none is named and something is piped in.  With neither
    /// there is nothing to read, which is an error.
    pub fn input(&self, stdin_is_terminal: bool) -> (outcome: Result<Input, CliError>)
        ensures
            match outcome {
                Ok(Input::Targets) => self.target is Some,
                Ok(Input::Stdin) => self.target is None && !stdin_is_terminal,
                Err(CliError::MissingRequiredArgument(reason)) => {
                    &&& self.target is None
                    &&& stdin_is_terminal
                    &&& reason@ == "No target file or stdin found."@
                },
                Err(_) => false,
            },
    {
        if self.target.is_some() {
            Ok(Input::Targets)
        } else if !stdin_is_terminal {
            Ok(Input::Stdin)
        } else {
            Err(
                CliError::MissingRequiredArgument(
                    String::from_str("No target file or stdin found."),
                ),
            )
        }
    }
}

} // verus!

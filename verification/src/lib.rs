//! Word-frequency counting.
//!
//! Lines of text are cut into words ([`text`]), each word is given its key and
//! passed through a chain of filters ([`filter`]), the keys that survive are
//! counted ([`counter`], [`frequency`]), the counts of several sources are
//! merged ([`merge`]), ranked ([`order`], [`rank`]) and rendered ([`render`],
//! [`json`]).  [`commands`] puts the steps together, [`cli`] holds the options of
//! a run, [`walk`] decides which files a run reads, and [`stoplist`] and
//! [`pattern`] hold what words are filtered by.
//!
//! The library reads no file and prints nothing: the caller hands it lines and
//! prints the text that it returns.

pub mod cli;
pub mod commands;
pub mod counter;
pub mod error;
pub mod filter;
pub mod frequency;
pub mod json;
pub mod merge;
pub mod order;
pub mod pattern;
pub mod rank;
pub mod render;
pub mod stoplist;
pub mod text;
pub mod walk;

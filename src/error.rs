//! The library's error type.
use vstd::prelude::*;

verus! {

/// What can go wrong in the dictionary engine.
#[derive(Debug, Clone, PartialEq, Eq)]
pub enum DictCliError {
    /// An I/O failure, with its message.
    IoError(String),
    /// A path that should be a directory is something else.
    NotDirectory(String),
    /// The language pair has been imported before and no overwrite was asked for.
    AlreadyImported,
    /// No per-user data directory is known.
    NoDataDirectory,
    /// The header of a dictionary source names no language pair.
    NoLanguagePair,
    /// A language pair that does not hold exactly one hyphen.
    InvalidLanguagePair,
    /// The requested source language, and the two that the pair offers.
    SearchLanguageNotAvailable(String, String),
    /// An entry whose brackets are unbalanced or misnested; the character
    /// position at which scanning failed.
    ParseError(usize),
    /// A failure of the index engine, with its message.
    TantivyError(String),
    /// A failure to decode a source row, with its message.
    CsvError(String),
}

} // verus!

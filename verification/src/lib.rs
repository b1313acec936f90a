//! Persian (Farsi) text processing: normalisation, tokenisation, entity
//! recognition, number/money handling and validators for Iranian
//! identifiers.

pub mod config;
pub mod data;
pub mod decimal;
pub mod entity;
pub mod finglish;
pub mod geo;
pub mod jalali;
pub mod diacritics;
pub mod engine;
pub mod numbers;
pub mod matcher;
pub mod money;
pub mod normalizer;
pub mod phonetic;
pub mod script;
pub mod text;
pub mod time_diff;
pub mod transliterate;
pub mod url_fix;
pub mod sentence;
pub mod spell;
pub mod stats;
pub mod stemmer;
pub mod style;
pub mod tantivy_analyzer;
pub mod tokenizer;
pub mod validators;
pub mod zwnj_insert;

pub use config::{
    CustomRule, DigitTarget, ParsitextConfig, ParsitextConfigBuilder, ProcessingMode,
    ProfanityLevel,
};
pub use engine::Parsitext;
pub use entity::{Entity, EntityKind, Span};
pub use money::{MoneyAmount, MoneyUnit};
pub use stats::TextStats;

use vstd::prelude::*;
use crate::config::debug_quoted;

verus! {

/// Errors of this crate.
#[derive(Debug, Clone, PartialEq, Eq)]
#[non_exhaustive]
pub enum Error {
    /// A multi-pattern automaton failed to compile from the given pattern.
    PatternBuild(String),
    /// Validation of an Iranian national ID failed.
    InvalidNationalId(String),
    /// Validation of an Iranian Sheba/IBAN failed.
    InvalidIban(String),
    /// Validation of an Iranian phone number failed.
    InvalidPhone(String),
    /// Validation of an Iranian bank-card Luhn checksum failed.
    InvalidBankCard(String),
    /// Validation of an Iranian postal code failed.
    InvalidPostalCode(String),
    /// Parsing or validation of a vehicle plate failed.
    InvalidCarPlate(String),
}

/// The message of an error: a fixed phrase, `: ` and the offending text
/// quoted as by `{:?}`.
pub open spec fn error_message(e: Error) -> Seq<char> {
    match e {
        Error::PatternBuild(p) => "failed to compile pattern into automaton: "@ + crate::config::debug_str(p@),
        Error::InvalidNationalId(s) => "invalid Iranian national ID: "@ + crate::config::debug_str(s@),
        Error::InvalidIban(s) => "invalid Iranian Sheba (IBAN): "@ + crate::config::debug_str(s@),
        Error::InvalidPhone(s) => "invalid Iranian phone number: "@ + crate::config::debug_str(s@),
        Error::InvalidBankCard(s) => "invalid Iranian bank card: "@ + crate::config::debug_str(s@),
        Error::InvalidPostalCode(s) => "invalid Iranian postal code: "@ + crate::config::debug_str(s@),
        Error::InvalidCarPlate(s) => "invalid Iranian vehicle plate: "@ + crate::config::debug_str(s@),
    }
}

impl Error {
    /// The human-readable message.
    pub fn to_string(&self) -> (s: String)
        ensures
            s@ == error_message(*self),
    {
        let (head, body) = match self {
            Error::PatternBuild(p) => ("failed to compile pattern into automaton: ", p),
            Error::InvalidNationalId(x) => ("invalid Iranian national ID: ", x),
            Error::InvalidIban(x) => ("invalid Iranian Sheba (IBAN): ", x),
            Error::InvalidPhone(x) => ("invalid Iranian phone number: ", x),
            Error::InvalidBankCard(x) => ("invalid Iranian bank card: ", x),
            Error::InvalidPostalCode(x) => ("invalid Iranian postal code: ", x),
            Error::InvalidCarPlate(x) => ("invalid Iranian vehicle plate: ", x),
        };
        let mut s = head.to_owned();
        let q = debug_quoted(body.as_str());
        s.append(q.as_str());
        s
    }
}

/// Per-document processing statistics attached to every [`ProcessedText`].
#[derive(Debug, Clone, Copy, PartialEq, Eq, Structural)]
pub struct ProcessingStats {
    /// Length of the original text in bytes.
    pub original_length: usize,
    /// Length of the normalised text in bytes.
    pub normalized_length: usize,
    /// Number of tokens produced.
    pub token_count: usize,
    /// Wall-clock time spent, in nanoseconds.
    pub processing_time_ns: u64,
}

/// The output of [`engine::Parsitext::process`].
#[derive(Debug, Clone)]
pub struct ProcessedText {
    /// The original input, unchanged.
    pub original: String,
    /// The text after all enabled normalisation passes.
    pub normalized: String,
    /// Tokens of the normalised text.
    pub tokens: Vec<String>,
    /// Entities detected in the normalised text.
    pub entities: Vec<Entity>,
    /// Size and timing statistics for this run.
    pub stats: ProcessingStats,
}

impl ProcessedText {
    /// Number of tokens in the normalised text.
    pub fn token_count(&self) -> (n: usize)
        ensures
            n == self.tokens@.len(),
    {
        self.tokens.len()
    }

    /// Number of entities recognised.
    pub fn entity_count(&self) -> (n: usize)
        ensures
            n == self.entities@.len(),
    {
        self.entities.len()
    }

    /// The normalised text.
    pub fn to_string(&self) -> (s: String)
        ensures
            s@ == self.normalized@,
    {
        self.normalized.clone()
    }
}

} // verus!

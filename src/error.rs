//! Errors of an ingestion run.
use vstd::prelude::*;

verus! {

/// A field that an input row can carry.
#[derive(Clone, Copy, Debug, PartialEq, Eq, Structural)]
pub enum Field {
    Date,
    Payee,
    Amount,
    Category,
    Subcategory,
    Balance,
    Status,
    Reconciled,
}

/// Why an ingestion attempt or run failed.
#[derive(Clone, Debug)]
pub enum ImportError {
    /// A mandatory column was not found: the field and the header row.
    MissingColumn(Field, Vec<String>),
    /// A date field that does not parse: its trimmed text.
    InvalidDate(String),
    /// An amount field that does not parse: its trimmed text.
    InvalidAmount(String),
    /// A record that the delimited-text reader could not read: its 1-based row number.
    CsvSyntax(usize),
    /// The input bytes could not be turned into text.
    Encoding,
    /// A failure reported by the storage collaborator.
    Persistence(String),
}

} // verus!

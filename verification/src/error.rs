//! What can go wrong while a document is turned into typed columns.

use vstd::prelude::*;

verus! {

/// Why a document could not be turned into a table.
#[derive(Debug, PartialEq, Eq)]
pub enum CsvError {
    /// The header has no column with this name, and the schema requires one.
    MissingRequiredColumn(String),
    /// A field of the required column with this name could not be decoded.
    FieldDecodeError(String),
    /// Bytes that should be text are not valid UTF-8.
    InvalidUtf8,
}

} // verus!

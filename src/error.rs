//! Errors of the card-file parser.
use vstd::prelude::*;

verus! {

/// Errors that can occur while parsing a card file.
#[derive(Debug, Clone, PartialEq, Eq)]
pub enum ParseError {
    /// An `ID:` line whose text is neither empty nor an integer.
    InvalidId { line: usize, value: String },
    /// A card with the ID of an earlier card of the same file.
    DuplicateId { id: i64, line: usize },
}

} // verus!

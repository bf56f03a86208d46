//! The ways in which reconciliation fails.

use vstd::prelude::*;
use crate::symbol::{Sym, SymModel};

verus! {

/// A fatal condition met while reconciling a symbol table.  None of
/// them leaves a partial result.
#[derive(Debug, PartialEq, Eq)]
pub enum ResolveError {
    /// The entry at `index` takes its name from the string table, and
    /// the table has no string at `offset`.
    MissingStringTableEntry { index: usize, offset: u32 },
    /// The entry at `index` is a candidate, and `section_index` names
    /// no section of the image.
    InvalidSectionIndex { index: usize, section_index: u32 },
    /// Two definitions, neither an alias of the other, are at the same
    /// address.
    DuplicateSymbol { existing: Sym, new: Sym },
    /// The symbol starts past the end of its own section, so its size
    /// would be negative.
    NegativeSize { symbol: Sym },
}

/// A [`ResolveError`] in contracts.
pub enum ResolveErrorModel {
    MissingStringTableEntry { index: int, offset: u32 },
    InvalidSectionIndex { index: int, section_index: u32 },
    DuplicateSymbol { existing: SymModel, new: SymModel },
    NegativeSize { symbol: SymModel },
}

impl View for ResolveError {
    type V = ResolveErrorModel;

    open spec fn view(&self) -> ResolveErrorModel {
        match self {
            ResolveError::MissingStringTableEntry { index, offset } => {
                ResolveErrorModel::MissingStringTableEntry { index: *index as int, offset: *offset }
            },
            ResolveError::InvalidSectionIndex { index, section_index } => {
                ResolveErrorModel::InvalidSectionIndex {
                    index: *index as int,
                    section_index: *section_index,
                }
            },
            ResolveError::DuplicateSymbol { existing, new } => {
                ResolveErrorModel::DuplicateSymbol { existing: existing@, new: new@ }
            },
            ResolveError::NegativeSize { symbol } => {
                ResolveErrorModel::NegativeSize { symbol: symbol@ }
            },
        }
    }
}

} // verus!

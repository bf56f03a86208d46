//! From the tables of a parsed image to the lines for the debugger.

use vstd::prelude::*;
use metagoblin::pe::section_table::SectionTable;
use metagoblin::pe::symbol::SymbolTable;
use metagoblin::strtab::Strtab;
use crate::coff::{
    LoadError,
    SymbolRecordModel,
    entries_model,
    read_entries,
    read_sections,
    sections_model,
    table_records,
};
use crate::emit::{lines, lines_model, texts};
use crate::error::{ResolveError, ResolveErrorModel};
use crate::names::strtab_entries;
use crate::resolve::{resolve, resolve_model};

verus! {

/// Why an image has no listing.
#[derive(Debug, PartialEq, Eq)]
pub enum ListError {
    /// A table of the image could not be read.
    Load(LoadError),
    /// The symbols of the image could not be reconciled.
    Resolve(ResolveError),
}

/// A [`ListError`] in contracts.
pub enum ListErrorModel {
    Load(LoadError),
    Resolve(ResolveErrorModel),
}

impl View for ListError {
    type V = ListErrorModel;

    open spec fn view(&self) -> ListErrorModel {
        match self {
            ListError::Load(e) => ListErrorModel::Load(*e),
            ListError::Resolve(e) => ListErrorModel::Resolve(e@),
        }
    }
}

/// The listing of an image: the sections are read, then the entries,
/// then the symbols are reconciled, and each becomes a line.  The
/// first of these steps that fails gives the result.
pub open spec fn listing_model(
    records: Seq<SymbolRecordModel>,
    headers: Seq<SectionTable>,
    strings: Map<int, Seq<char>>,
    global_base: u32,
) -> Result<Seq<Seq<char>>, ListErrorModel> {
    match sections_model(headers) {
        Err(e) => Err(ListErrorModel::Load(e)),
        Ok(sections) => match entries_model(records) {
            Err(e) => Err(ListErrorModel::Load(e)),
            Ok(entries) => match resolve_model(entries, sections, strings) {
                Err(e) => Err(ListErrorModel::Resolve(e)),
                Ok(syms) => Ok(lines_model(syms, global_base)),
            },
        },
    }
}

/// Lists the symbols of an image loaded at `global_base`: one line for
/// each address that bears a symbol, in ascending order of address.
pub fn list_symbols(
    symbols: &SymbolTable,
    headers: &Vec<SectionTable>,
    strings: &Strtab,
    global_base: u32,
) -> (r: Result<Vec<String>, ListError>)
    ensures
        match listing_model(
            table_records(*symbols),
            headers@,
            strtab_entries(*strings),
            global_base,
        ) {
            Ok(listing) => r matches Ok(v) && texts(v@) == listing,
            Err(e) => r matches Err(x) && x@ == e,
        },
{
    let sections = match read_sections(headers) {
        Ok(sections) => sections,
        Err(e) => {
            return Err(ListError::Load(e));
        },
    };
    let entries = match read_entries(symbols) {
        Ok(entries) => entries,
        Err(e) => {
            return Err(ListError::Load(e));
        },
    };
    match resolve(&entries, &sections, strings) {
        Ok(syms) => Ok(lines(&syms, global_base)),
        Err(e) => Err(ListError::Resolve(e)),
    }
}

} // verus!

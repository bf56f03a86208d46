//! Reading the tables of a parsed image: the records of its symbol
//! table and the headers of its sections, as the plain values that
//! reconciliation works on.

use vstd::prelude::*;
use metagoblin::pe::section_table::SectionTable;
use metagoblin::pe::symbol::{Symbol, SymbolIterator, SymbolTable};
use crate::entry::{
    EntryModel,
    NameModel,
    NameSource,
    RawEntry,
    Section,
    SectionModel,
    entry_models,
    section_models,
};
use crate::search::{first_index, lemma_first_index_stays};

verus! {

/// goblin's symbol table of a COFF image.  Nothing of its inside is
/// known here; [`table_records`] stands for what it yields.
#[verifier::external_type_specification]
#[verifier::external_body]
pub struct ExSymbolTable<'a>(SymbolTable<'a>);

/// goblin's iterator over a symbol table.  Nothing of its inside is
/// known here; [`pending_records`] stands for what it has yet to yield.
#[verifier::external_type_specification]
#[verifier::external_body]
pub struct ExSymbolIterator<'a>(SymbolIterator<'a>);

/// goblin's symbol record, which its iterator hands out.  It is only
/// named here, never looked into: its fields are moved into a
/// [`SymbolRecord`] at once.
#[verifier::external_type_specification]
#[verifier::external_body]
pub struct ExSymbol(Symbol);

/// goblin's section header.  Nothing of its inside is known here;
/// [`section_entry`] stands for what is read from it.
#[verifier::external_type_specification]
#[verifier::external_body]
pub struct ExSectionTable(SectionTable);

/// Storage class of a static symbol.
pub const CLASS_STATIC: u8 = 3;

/// Storage class of a source-file record.
pub const CLASS_FILE: u8 = 103;

/// Storage class of a weak external.
pub const CLASS_WEAK_EXTERNAL: u8 = 105;

/// The fields of one record of a symbol table.
#[derive(Debug, PartialEq, Eq)]
pub struct SymbolRecord {
    /// The name, where the record holds it and it is valid text.
    pub inline_name: Option<String>,
    /// The eight bytes of the name field.
    pub name: [u8; 8],
    pub value: u32,
    pub section_number: i16,
    pub storage_class: u8,
    pub aux_symbols: u8,
}

/// A [`SymbolRecord`] in contracts.
pub struct SymbolRecordModel {
    pub inline_name: Option<Seq<char>>,
    pub name: Seq<u8>,
    pub value: u32,
    pub section_number: i16,
    pub storage_class: u8,
    pub aux_symbols: u8,
}

impl View for SymbolRecord {
    type V = SymbolRecordModel;

    open spec fn view(&self) -> SymbolRecordModel {
        SymbolRecordModel {
            inline_name: match self.inline_name {
                Some(name) => Some(name@),
                None => None,
            },
            name: self.name@,
            value: self.value,
            section_number: self.section_number,
            storage_class: self.storage_class,
            aux_symbols: self.aux_symbols,
        }
    }
}

/// What can be wrong with the tables themselves.
#[derive(Debug, PartialEq, Eq)]
pub enum LoadError {
    /// The record at this position of the symbol table has a name
    /// that cannot be read: it is neither valid text nor a valid
    /// reference into the string table.
    UnreadableName { index: usize },
    /// The header at this position of the section table has a name
    /// that is not valid text.
    UnreadableSectionName { index: usize },
}

/// The records that goblin's iterator yields for a symbol table, in
/// order, each with its fields as plain values.  The iterator leaves
/// out the auxiliary records and stops at the end of the table.
pub uninterp spec fn table_records(table: SymbolTable) -> Seq<SymbolRecordModel>;

/// The records that an iterator over a symbol table has yet to yield,
/// in order: what its `next` returns, call after call, up to the first
/// `None`.
pub uninterp spec fn pending_records(iter: SymbolIterator) -> Seq<SymbolRecordModel>;

/// What is read from a section header: the name that goblin's
/// `SectionTable::name` gives, with the virtual address and the
/// virtual size of the header; `None` where that function fails, which
/// it does where the name is not valid text.
pub uninterp spec fn section_entry(header: SectionTable) -> Option<SectionModel>;

/// `SymbolTable::iter` of goblin.  The contract says that a fresh
/// iterator has yet to yield all that the table yields, which is how
/// [`table_records`] is meant.
#[verifier::external_body]
pub(crate) fn records<'a>(table: &SymbolTable<'a>) -> (iter: SymbolIterator<'a>)
    ensures
        pending_records(iter) == table_records(*table),
{
    table.iter()
}

/// `next` of goblin's `SymbolIterator`, with the inline name copied
/// out and the fields of the symbol moved into a [`SymbolRecord`].  The
/// contract says that the iterator hands out the first of its pending
/// records and keeps the rest, and that it returns `None` only when
/// none is pending.  What the records hold is not stated.
#[verifier::external_body]
pub(crate) fn next_record(iter: &mut SymbolIterator) -> (r: Option<SymbolRecord>)
    ensures
        match r {
            Some(record) => {
                &&& pending_records(*old(iter)).len() > 0
                &&& record@ == pending_records(*old(iter)).first()
                &&& pending_records(*final(iter)) == pending_records(*old(iter)).drop_first()
            },
            None => pending_records(*old(iter)).len() == 0,
        },
{
    iter.next().map(
        |(_, name, symbol)|
            SymbolRecord {
                inline_name: name.map(String::from),
                name: symbol.name,
                value: symbol.value,
                section_number: symbol.section_number,
                storage_class: symbol.storage_class,
                aux_symbols: symbol.number_of_aux_symbols,
            },
    )
}

/// `SectionTable::name` of goblin, with the name copied out and the
/// virtual address and virtual size of the header beside it.  The
/// contract only ties the answer to [`section_entry`]; what the name is
/// is not stated.
#[verifier::external_body]
pub(crate) fn section_parts(header: &SectionTable) -> (r: Option<Section>)
    ensures
        r is Some <==> section_entry(*header) is Some,
        r matches Some(section) ==> section_entry(*header) == Some(section@),
{
    header.name().ok().map(
        |name|
            Section {
                name: String::from(name),
                base: header.virtual_address,
                size: header.virtual_size,
            },
    )
}

/// The number that the last four bytes of a name field hold, least
/// significant byte first.
pub open spec fn name_field(name: Seq<u8>) -> int {
    name[4] + 256 * name[5] + 65536 * name[6] + 16777216 * name[7]
}

/// Size of the length field that a string table starts with.  Name
/// fields count their offsets from that field; the strings themselves
/// are counted from its end.
pub const LENGTH_FIELD_SIZE: u32 = 4;

/// Where the name of a record is found.  A record has its name inline,
/// or its name field starts with a zero byte and gives an offset that
/// lies past the length field of the string table.
pub open spec fn name_source_of(record: SymbolRecordModel) -> Option<NameModel> {
    match record.inline_name {
        Some(name) => Some(NameModel::Inline(name)),
        None => if record.name[0] == 0 && name_field(record.name) >= LENGTH_FIELD_SIZE {
            Some(NameModel::TableOffset((name_field(record.name) - LENGTH_FIELD_SIZE) as u32))
        } else {
            None
        },
    }
}

/// The raw entry that a record is, if its name can be read.
///
/// A section number that is not positive names no section and becomes
/// index zero.  A static symbol with auxiliary records defines a
/// section.
pub open spec fn entry_of(record: SymbolRecordModel) -> Option<EntryModel> {
    match name_source_of(record) {
        None => None,
        Some(name) => Some(
            EntryModel {
                name,
                value: record.value,
                section_index: if record.section_number > 0 {
                    record.section_number as u32
                } else {
                    0
                },
                section_definition: record.storage_class == CLASS_STATIC && record.aux_symbols
                    > 0,
                file: record.storage_class == CLASS_FILE,
                weak_external: record.storage_class == CLASS_WEAK_EXTERNAL,
            },
        ),
    }
}

impl SymbolRecord {
    /// Whether the record defines a section.
    pub fn is_section_definition(&self) -> (r: bool)
        ensures
            r == (self.storage_class == CLASS_STATIC && self.aux_symbols > 0),
    {
        self.storage_class == CLASS_STATIC && self.aux_symbols > 0
    }

    /// Whether the record names a source file.
    pub fn is_file(&self) -> (r: bool)
        ensures
            r == (self.storage_class == CLASS_FILE),
    {
        self.storage_class == CLASS_FILE
    }

    /// Whether the record is a weak external.
    pub fn is_weak_external(&self) -> (r: bool)
        ensures
            r == (self.storage_class == CLASS_WEAK_EXTERNAL),
    {
        self.storage_class == CLASS_WEAK_EXTERNAL
    }

    /// The offset of the name in the string table, for a record that
    /// keeps its name there.
    pub fn name_offset(&self) -> (r: Option<u32>)
        ensures
            r == if self.name@[0] == 0 && name_field(self.name@) >= LENGTH_FIELD_SIZE {
                Some((name_field(self.name@) - LENGTH_FIELD_SIZE) as u32)
            } else {
                None
            },
    {
        if self.name[0] != 0 {
            return None;
        }
        let field: u32 = self.name[4] as u32 + 256 * (self.name[5] as u32) + 65536 * (
        self.name[6] as u32) + 16777216 * (self.name[7] as u32);
        if field < LENGTH_FIELD_SIZE {
            None
        } else {
            Some(field - LENGTH_FIELD_SIZE)
        }
    }

    /// The raw entry that the record is; `None` where its name cannot
    /// be read.
    pub fn to_entry(&self) -> (r: Option<RawEntry>)
        ensures
            r is Some <==> entry_of(self@) is Some,
            r matches Some(entry) ==> entry_of(self@) == Some(entry@),
    {
        let name = match &self.inline_name {
            Some(name) => NameSource::Inline(name.clone()),
            None => match self.name_offset() {
                Some(offset) => NameSource::TableOffset(offset),
                None => {
                    return None;
                },
            },
        };
        let section_index: u32 = if self.section_number > 0 {
            self.section_number as u32
        } else {
            0
        };
        Some(
            RawEntry {
                name,
                value: self.value,
                section_index,
                section_definition: self.is_section_definition(),
                file: self.is_file(),
                weak_external: self.is_weak_external(),
            },
        )
    }
}

/// Whether the record at an index has a name that cannot be read.
pub open spec fn unreadable_record(records: Seq<SymbolRecordModel>) -> spec_fn(int) -> bool {
    |k: int| entry_of(records[k]) is None
}

/// The raw entries of a sequence of records, or the position of the
/// first record whose name cannot be read.
pub open spec fn entries_model(records: Seq<SymbolRecordModel>) -> Result<
    Seq<EntryModel>,
    LoadError,
> {
    match first_index(records.len(), unreadable_record(records)) {
        Some(k) => Err(LoadError::UnreadableName { index: k as usize }),
        None => Ok(records.map_values(|record: SymbolRecordModel| entry_of(record)->0)),
    }
}

/// Whether the header at an index has a name that is not valid text.
pub open spec fn unreadable_header(headers: Seq<SectionTable>) -> spec_fn(int) -> bool {
    |k: int| section_entry(headers[k]) is None
}

/// The sections of a sequence of headers, or the position of the
/// first header whose name is not valid text.
pub open spec fn sections_model(headers: Seq<SectionTable>) -> Result<
    Seq<SectionModel>,
    LoadError,
> {
    match first_index(headers.len(), unreadable_header(headers)) {
        Some(k) => Err(LoadError::UnreadableSectionName { index: k as usize }),
        None => Ok(headers.map_values(|header: SectionTable| section_entry(header)->0)),
    }
}

/// Reads the raw entries of a symbol table, in the order of the
/// table.
pub fn read_entries(table: &SymbolTable) -> (r: Result<Vec<RawEntry>, LoadError>)
    ensures
        match entries_model(table_records(*table)) {
            Ok(entries) => r matches Ok(v) && entry_models(v@) == entries,
            Err(e) => r matches Err(x) && x == e,
        },
{
    let ghost all = table_records(*table);
    let mut iter = records(table);
    let mut entries: Vec<RawEntry> = Vec::new();
    assert(all.skip(0) =~= all);
    loop
        invariant
            all == table_records(*table),
            entries@.len() <= all.len(),
            pending_records(iter) == all.skip(entries@.len() as int),
            first_index(entries@.len(), unreadable_record(all)) is None,
            forall|k: int|
                0 <= k < entries@.len() ==> entry_of(all[k]) == Some(#[trigger] entries@[k]@),
        decreases pending_records(iter).len(),
    {
        let record = match next_record(&mut iter) {
            Some(record) => record,
            None => {
                proof {
                    assert(entries@.len() == all.len());
                    assert(entry_models(entries@) =~= all.map_values(
                        |record: SymbolRecordModel| entry_of(record)->0,
                    ));
                }
                return Ok(entries);
            },
        };
        let ghost at = entries@.len() as int;
        assert(record@ == all[at]);
        assert(all.skip(at).drop_first() =~= all.skip(at + 1));
        match record.to_entry() {
            Some(entry) => {
                entries.push(entry);
            },
            None => {
                proof {
                    assert(unreadable_record(all)(at));
                    assert(first_index((at + 1) as nat, unreadable_record(all)) == Some(at));
                    lemma_first_index_stays((at + 1) as nat, all.len(), unreadable_record(all));
                }
                return Err(LoadError::UnreadableName { index: entries.len() });
            },
        }
    }
}

/// Reads the sections of an image from the headers of its section
/// table, in the order of the table.
pub fn read_sections(headers: &Vec<SectionTable>) -> (r: Result<Vec<Section>, LoadError>)
    ensures
        match sections_model(headers@) {
            Ok(sections) => r matches Ok(v) && section_models(v@) == sections,
            Err(e) => r matches Err(x) && x == e,
        },
{
    let mut sections: Vec<Section> = Vec::new();
    let mut i: usize = 0;
    while i < headers.len()
        invariant
            i <= headers@.len(),
            sections@.len() == i,
            first_index(i as nat, unreadable_header(headers@)) is None,
            forall|k: int|
                0 <= k < i ==> section_entry(headers@[k]) == Some(#[trigger] sections@[k]@),
        decreases headers.len() - i,
    {
        match section_parts(&headers[i]) {
            Some(section) => {
                sections.push(section);
            },
            None => {
                proof {
                    assert(unreadable_header(headers@)(i as int));
                    assert(first_index((i + 1) as nat, unreadable_header(headers@)) == Some(
                        i as int,
                    ));
                    lemma_first_index_stays(
                        (i + 1) as nat,
                        headers@.len(),
                        unreadable_header(headers@),
                    );
                }
                return Err(LoadError::UnreadableSectionName { index: i });
            },
        }
        i += 1;
    }
    assert(section_models(sections@) =~= headers@.map_values(
        |header: SectionTable| section_entry(header)->0,
    ));
    Ok(sections)
}

} // verus!

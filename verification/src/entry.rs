//! What the loader supplies: the sections of the image and the raw
//! records of its symbol table.

use vstd::prelude::*;

verus! {

/// One section of the image.
#[derive(Debug, PartialEq, Eq)]
pub struct Section {
    pub name: String,
    /// Virtual address of the first byte of the section.
    pub base: u32,
    /// Virtual size of the section in bytes.
    pub size: u32,
}

/// A [`Section`] in contracts.
pub struct SectionModel {
    pub name: Seq<char>,
    pub base: u32,
    pub size: u32,
}

impl View for Section {
    type V = SectionModel;

    open spec fn view(&self) -> SectionModel {
        SectionModel { name: self.name@, base: self.base, size: self.size }
    }
}

impl Clone for Section {
    fn clone(&self) -> (r: Self)
        ensures
            r@ == self@,
    {
        Section { name: self.name.clone(), base: self.base, size: self.size }
    }
}

/// Where the name of a raw entry is found.
#[derive(Debug, PartialEq, Eq)]
pub enum NameSource {
    /// The name is stored in the record itself.
    Inline(String),
    /// The name is the string that starts at this byte offset of the
    /// string table.
    TableOffset(u32),
}

/// A [`NameSource`] in contracts.
pub enum NameModel {
    Inline(Seq<char>),
    TableOffset(u32),
}

impl View for NameSource {
    type V = NameModel;

    open spec fn view(&self) -> NameModel {
        match self {
            NameSource::Inline(s) => NameModel::Inline(s@),
            NameSource::TableOffset(offset) => NameModel::TableOffset(*offset),
        }
    }
}

impl Clone for NameSource {
    fn clone(&self) -> (r: Self)
        ensures
            r@ == self@,
    {
        match self {
            NameSource::Inline(s) => NameSource::Inline(s.clone()),
            NameSource::TableOffset(offset) => NameSource::TableOffset(*offset),
        }
    }
}

/// One record of the symbol table, as the loader hands it over.
#[derive(Debug, PartialEq, Eq)]
pub struct RawEntry {
    pub name: NameSource,
    /// Offset of the symbol inside its section.
    pub value: u32,
    /// Number of the owning section, counted from one.  Zero names no
    /// section.
    pub section_index: u32,
    pub section_definition: bool,
    pub file: bool,
    pub weak_external: bool,
}

/// A [`RawEntry`] in contracts.
pub struct EntryModel {
    pub name: NameModel,
    pub value: u32,
    pub section_index: u32,
    pub section_definition: bool,
    pub file: bool,
    pub weak_external: bool,
}

impl View for RawEntry {
    type V = EntryModel;

    open spec fn view(&self) -> EntryModel {
        EntryModel {
            name: self.name@,
            value: self.value,
            section_index: self.section_index,
            section_definition: self.section_definition,
            file: self.file,
            weak_external: self.weak_external,
        }
    }
}

impl Clone for RawEntry {
    fn clone(&self) -> (r: Self)
        ensures
            r@ == self@,
    {
        RawEntry {
            name: self.name.clone(),
            value: self.value,
            section_index: self.section_index,
            section_definition: self.section_definition,
            file: self.file,
            weak_external: self.weak_external,
        }
    }
}

/// The models of a sequence of sections, element by element.
pub open spec fn section_models(sections: Seq<Section>) -> Seq<SectionModel> {
    sections.map_values(|s: Section| s@)
}

/// The models of a sequence of raw entries, element by element.
pub open spec fn entry_models(entries: Seq<RawEntry>) -> Seq<EntryModel> {
    entries.map_values(|e: RawEntry| e@)
}

} // verus!

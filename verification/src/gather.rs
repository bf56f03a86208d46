//! Building the working set: which entries are candidates, how a weak
//! external is reconciled with the definitions already known, and when
//! two definitions conflict.

use vstd::prelude::*;
use metagoblin::strtab::Strtab;
use crate::entry::{
    EntryModel,
    NameSource,
    RawEntry,
    Section,
    SectionModel,
    entry_models,
    section_models,
};
use crate::error::{ResolveError, ResolveErrorModel};
use crate::working::{distinct_places, lemma_gather_distinct};
use crate::search::{first_index, lemma_first_index};
use crate::names::{is_local_alias, name_of, names_local_alias, resolve_name, strtab_entries};
use crate::symbol::{Sym, SymModel, models};

verus! {

/// Whether an entry with the given resolved name bears an address of
/// its own.  Section definitions, file records, entries of value zero
/// and local aliases do not.
pub open spec fn is_candidate(entry: EntryModel, name: Seq<char>) -> bool {
    &&& !entry.section_definition
    &&& !entry.file
    &&& entry.value != 0
    &&& !is_local_alias(name)
}

/// The section that an entry names, counting from one.
pub open spec fn section_of(entry: EntryModel, sections: Seq<SectionModel>) -> Option<
    SectionModel,
> {
    if 1 <= entry.section_index <= sections.len() {
        Some(sections[entry.section_index - 1])
    } else {
        None
    }
}

/// The symbol that a candidate becomes once its section is known.  Its
/// size is not known yet and stands at zero.
pub open spec fn placed(entry: EntryModel, name: Seq<char>, section: SectionModel) -> SymModel {
    SymModel {
        sectbase: section.base,
        sectsize: section.size,
        addr: entry.value,
        section: section.name,
        name,
        size: 0,
    }
}

/// Whether the symbol at an index of the working set is at `place`.
pub open spec fn at_place(working: Seq<SymModel>, place: int) -> spec_fn(int) -> bool {
    |k: int| working[k].place() == place
}

/// The index of the first symbol of the working set at `place`.
pub open spec fn first_at(working: Seq<SymModel>, place: int) -> Option<int> {
    first_index(working.len(), at_place(working, place))
}

/// [`first_at`] finds the least index at the place, and finds one
/// whenever there is one.
pub proof fn lemma_first_at(working: Seq<SymModel>, place: int)
    ensures
        match first_at(working, place) {
            Some(k) => {
                &&& 0 <= k < working.len()
                &&& working[k].place() == place
                &&& forall|j: int| 0 <= j < k ==> working[j].place() != place
            },
            None => forall|j: int| 0 <= j < working.len() ==> working[j].place() != place,
        },
{
    lemma_first_index(working.len(), at_place(working, place));
    assert(forall|j: int| at_place(working, place)(j) == (working[j].place() == place));
}

/// What one entry does to the working set in one pass.
///
/// A name that cannot be resolved is fatal whatever the entry is.  An
/// entry that is no candidate, or that belongs to the other pass,
/// changes nothing.  A candidate must name a section.  Where the
/// working set already holds a symbol at the candidate's place, a weak
/// external is an alias of it and is dropped, and any other candidate
/// conflicts with it; where the place is free, the candidate joins the
/// working set, weak or not.
pub open spec fn offer(
    working: Seq<SymModel>,
    index: int,
    entry: EntryModel,
    sections: Seq<SectionModel>,
    strings: Map<int, Seq<char>>,
    weak_pass: bool,
) -> Result<Seq<SymModel>, ResolveErrorModel> {
    match name_of(entry.name, strings) {
        None => Err(
            ResolveErrorModel::MissingStringTableEntry {
                index,
                offset: entry.name->TableOffset_0,
            },
        ),
        Some(name) => if !is_candidate(entry, name) || entry.weak_external != weak_pass {
            Ok(working)
        } else {
            match section_of(entry, sections) {
                None => Err(
                    ResolveErrorModel::InvalidSectionIndex {
                        index,
                        section_index: entry.section_index,
                    },
                ),
                Some(section) => {
                    let sym = placed(entry, name, section);
                    match first_at(working, sym.place()) {
                        None => Ok(working.push(sym)),
                        Some(k) => if entry.weak_external {
                            Ok(working)
                        } else {
                            Err(
                                ResolveErrorModel::DuplicateSymbol {
                                    existing: working[k],
                                    new: sym,
                                },
                            )
                        },
                    }
                },
            }
        },
    }
}

/// The working set after the first `count` entries of one pass over
/// the table, started from `initial`; the first failure ends the pass.
pub open spec fn pass_prefix(
    entries: Seq<EntryModel>,
    sections: Seq<SectionModel>,
    strings: Map<int, Seq<char>>,
    weak_pass: bool,
    initial: Seq<SymModel>,
    count: nat,
) -> Result<Seq<SymModel>, ResolveErrorModel>
    decreases count,
{
    if count == 0 {
        Ok(initial)
    } else {
        match pass_prefix(entries, sections, strings, weak_pass, initial, (count - 1) as nat) {
            Err(e) => Err(e),
            Ok(working) => offer(
                working,
                count - 1,
                entries[count - 1],
                sections,
                strings,
                weak_pass,
            ),
        }
    }
}

/// The working set of a symbol table: one pass over the whole table
/// for the entries that are not weak externals, then one for those
/// that are, so that every primary definition is known before the
/// first alias is looked at.
pub open spec fn gather_model(
    entries: Seq<EntryModel>,
    sections: Seq<SectionModel>,
    strings: Map<int, Seq<char>>,
) -> Result<Seq<SymModel>, ResolveErrorModel> {
    match pass_prefix(entries, sections, strings, false, Seq::empty(), entries.len()) {
        Err(e) => Err(e),
        Ok(primaries) => pass_prefix(entries, sections, strings, true, primaries, entries.len()),
    }
}

/// The index of the first symbol of the working set at `place`, if any.
pub fn find_place(working: &Vec<Sym>, place: u64) -> (r: Option<usize>)
    ensures
        match r {
            Some(k) => k < working@.len() && first_at(models(working@), place as int) == Some(
                k as int,
            ),
            None => first_at(models(working@), place as int) is None,
        },
{
    let mut i: usize = 0;
    while i < working.len()
        invariant
            i <= working.len(),
            forall|j: int| 0 <= j < i ==> models(working@)[j].place() != place,
        decreases working.len() - i,
    {
        if working[i].vaddr(0) == place {
            proof {
                lemma_first_at(models(working@), place as int);
                assert(models(working@)[i as int].place() == place);
            }
            return Some(i);
        }
        i += 1;
    }
    proof {
        lemma_first_at(models(working@), place as int);
    }
    None
}

/// Takes one entry of the table into the working set, or leaves it
/// out, as [`offer`] says.  On failure the working set is unchanged.
pub fn offer_entry(
    working: &mut Vec<Sym>,
    index: usize,
    entry: &RawEntry,
    sections: &Vec<Section>,
    strings: &Strtab,
    weak_pass: bool,
) -> (r: Result<(), ResolveError>)
    ensures
        match offer(
            models(old(working)@),
            index as int,
            entry@,
            section_models(sections@),
            strtab_entries(*strings),
            weak_pass,
        ) {
            Ok(w) => r is Ok && models(final(working)@) == w,
            Err(e) => r matches Err(x) && x@ == e && final(working)@ == old(working)@,
        },
{
    let name = match resolve_name(&entry.name, strings) {
        Some(name) => name,
        None => {
            let offset: u32 = match &entry.name {
                NameSource::TableOffset(offset) => *offset,
                NameSource::Inline(_) => 0,
            };
            return Err(ResolveError::MissingStringTableEntry { index, offset });
        },
    };
    if entry.section_definition || entry.file || entry.value == 0 {
        return Ok(());
    }
    if names_local_alias(name.as_str()) || entry.weak_external != weak_pass {
        return Ok(());
    }
    if entry.section_index == 0 || entry.section_index as usize > sections.len() {
        return Err(
            ResolveError::InvalidSectionIndex { index, section_index: entry.section_index },
        );
    }
    let section = &sections[(entry.section_index - 1) as usize];
    let sym = Sym {
        sectbase: section.base,
        sectsize: section.size,
        addr: entry.value,
        section: section.name.clone(),
        name,
        size: 0,
    };
    match find_place(working, sym.vaddr(0)) {
        Some(k) => {
            if entry.weak_external {
                Ok(())
            } else {
                Err(ResolveError::DuplicateSymbol { existing: working[k].clone(), new: sym })
            }
        },
        None => {
            working.push(sym);
            assert(models(working@) =~= models(old(working)@).push(sym@));
            Ok(())
        },
    }
}

/// One pass over the whole table: the primaries where `weak_pass` is
/// false, the weak externals where it is true.  A pass that fails
/// leaves the working set as it was when it came to the failing
/// entry.
pub fn run_pass(
    working: &mut Vec<Sym>,
    entries: &Vec<RawEntry>,
    sections: &Vec<Section>,
    strings: &Strtab,
    weak_pass: bool,
) -> (r: Result<(), ResolveError>)
    ensures
        match pass_prefix(
            entry_models(entries@),
            section_models(sections@),
            strtab_entries(*strings),
            weak_pass,
            models(old(working)@),
            entries@.len(),
        ) {
            Ok(w) => r is Ok && models(final(working)@) == w,
            Err(e) => r matches Err(x) && x@ == e,
        },
        r is Err ==> exists|stopped: int|
            0 <= stopped < entries@.len() && #[trigger] pass_prefix(
                entry_models(entries@),
                section_models(sections@),
                strtab_entries(*strings),
                weak_pass,
                models(old(working)@),
                stopped as nat,
            ) == Ok::<Seq<SymModel>, ResolveErrorModel>(models(final(working)@)),
{
    let mut i: usize = 0;
    while i < entries.len()
        invariant
            i <= entries.len(),
            pass_prefix(
                entry_models(entries@),
                section_models(sections@),
                strtab_entries(*strings),
                weak_pass,
                models(old(working)@),
                i as nat,
            ) == Ok::<Seq<SymModel>, ResolveErrorModel>(models(working@)),
        decreases entries.len() - i,
    {
        match offer_entry(working, i, &entries[i], sections, strings, weak_pass) {
            Ok(()) => {},
            Err(e) => {
                assert(pass_prefix(
                    entry_models(entries@),
                    section_models(sections@),
                    strtab_entries(*strings),
                    weak_pass,
                    models(old(working)@),
                    (i + 1) as nat,
                ) == Err::<Seq<SymModel>, ResolveErrorModel>(e@));
                proof {
                    lemma_pass_failure_stays(
                        entry_models(entries@),
                        section_models(sections@),
                        strtab_entries(*strings),
                        weak_pass,
                        models(old(working)@),
                        (i + 1) as nat,
                        entries@.len(),
                    );
                }
                return Err(e);
            },
        }
        i += 1;
    }
    Ok(())
}

/// Once a pass has failed, it has failed for every longer prefix, and
/// with the same error.
pub proof fn lemma_pass_failure_stays(
    entries: Seq<EntryModel>,
    sections: Seq<SectionModel>,
    strings: Map<int, Seq<char>>,
    weak_pass: bool,
    initial: Seq<SymModel>,
    count: nat,
    longer: nat,
)
    requires
        count <= longer,
        pass_prefix(entries, sections, strings, weak_pass, initial, count) is Err,
    ensures
        pass_prefix(entries, sections, strings, weak_pass, initial, longer) == pass_prefix(
            entries,
            sections,
            strings,
            weak_pass,
            initial,
            count,
        ),
    decreases longer,
{
    if count < longer {
        lemma_pass_failure_stays(
            entries,
            sections,
            strings,
            weak_pass,
            initial,
            count,
            (longer - 1) as nat,
        );
    }
}

/// Builds the working set of a symbol table: the address-unique
/// collection of its definitions, sizes still unset.
pub fn gather(entries: &Vec<RawEntry>, sections: &Vec<Section>, strings: &Strtab) -> (r: Result<
    Vec<Sym>,
    ResolveError,
>)
    ensures
        match gather_model(
            entry_models(entries@),
            section_models(sections@),
            strtab_entries(*strings),
        ) {
            Ok(w) => r matches Ok(v) && models(v@) == w,
            Err(e) => r matches Err(x) && x@ == e,
        },
        r matches Ok(v) ==> distinct_places(models(v@)),
{
    proof {
        let entries = entry_models(entries@);
        let sections = section_models(sections@);
        let strings = strtab_entries(*strings);
        if gather_model(entries, sections, strings) is Ok {
            lemma_gather_distinct(entries, sections, strings);
        }
    }
    let mut working: Vec<Sym> = Vec::new();
    assert(models(working@) =~= Seq::empty());
    match run_pass(&mut working, entries, sections, strings, false) {
        Ok(()) => {},
        Err(e) => {
            return Err(e);
        },
    }
    match run_pass(&mut working, entries, sections, strings, true) {
        Ok(()) => Ok(working),
        Err(e) => Err(e),
    }
}

} // verus!

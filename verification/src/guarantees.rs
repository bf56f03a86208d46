//! What reconciliation guarantees, stated over its model and proved
//! from it.

use vstd::prelude::*;
use crate::entry::{EntryModel, NameModel, SectionModel};
use crate::error::ResolveErrorModel;
use crate::gather::{
    first_at,
    gather_model,
    is_candidate,
    lemma_first_at,
    pass_prefix,
    section_of,
};
use crate::names::{is_local_alias, name_of};
use crate::order::{
    address_order,
    lemma_address_order,
    lemma_address_order_strict,
    lemma_same_symbols,
};
use crate::resolve::resolve_model;
use crate::sizes::{ends_run, extent, first_negative, lemma_first_negative, sized};
use crate::symbol::SymModel;
use crate::working::{
    is_alias,
    is_primary,
    lemma_gather_alias,
    lemma_gather_distinct,
    lemma_gather_primary,
    lemma_gather_source,
    lemma_pass_covers,
    lemma_pass_failure,
    lemma_pass_grows,
    lemma_pass_keeps_first,
    lemma_pass_source,
    occupied,
    primaries_of,
    symbol_of,
    working_of,
};

verus! {

/// The working set of a table in ascending order of address.
pub open spec fn ordered_of(
    entries: Seq<EntryModel>,
    sections: Seq<SectionModel>,
    strings: Map<int, Seq<char>>,
) -> Seq<SymModel> {
    address_order(working_of(entries, sections, strings))
}

/// The output of a reconciliation that succeeds.
pub open spec fn output_of(
    entries: Seq<EntryModel>,
    sections: Seq<SectionModel>,
    strings: Map<int, Seq<char>>,
) -> Seq<SymModel> {
    resolve_model(entries, sections, strings)->Ok_0
}

/// What a successful reconciliation is made of: a working set, put in
/// order, every symbol with its extent for its size.
pub proof fn lemma_resolve_shape(
    entries: Seq<EntryModel>,
    sections: Seq<SectionModel>,
    strings: Map<int, Seq<char>>,
)
    requires
        resolve_model(entries, sections, strings) is Ok,
    ensures
        gather_model(entries, sections, strings) is Ok,
        output_of(entries, sections, strings) == sized(
            address_order(working_of(entries, sections, strings)),
        ),
        output_of(entries, sections, strings).len() == working_of(
            entries,
            sections,
            strings,
        ).len(),
        forall|k: int|
            0 <= k < output_of(entries, sections, strings).len() ==> {
                &&& ordered_of(entries, sections, strings)[k].size == 0
                &&& 0 <= extent(ordered_of(entries, sections, strings), k)
                &&& (#[trigger] output_of(entries, sections, strings)[k]).size == extent(
                    ordered_of(entries, sections, strings),
                    k,
                )
                &&& output_of(entries, sections, strings)[k].with_size(0) == ordered_of(
                    entries,
                    sections,
                    strings,
                )[k]
            },
{
    let working = working_of(entries, sections, strings);
    let sorted = address_order(working);
    let out = output_of(entries, sections, strings);
    lemma_address_order(working);
    lemma_first_negative(sorted, sorted.len());
    assert forall|k: int| 0 <= k < out.len() implies sorted[k].size == 0 by {
        lemma_same_symbols(working, sorted[k]);
        let a = choose|a: int| 0 <= a < working.len() && working[a] == sorted[k];
        let i = lemma_gather_source(entries, sections, strings, a);
    }
}

/// The output rises strictly in address, whatever the base of the
/// image: no two records share an address.
pub proof fn law_addresses_rise(
    entries: Seq<EntryModel>,
    sections: Seq<SectionModel>,
    strings: Map<int, Seq<char>>,
    global_base: u32,
)
    requires
        resolve_model(entries, sections, strings) is Ok,
    ensures
        forall|i: int, j: int|
            0 <= i < j < output_of(entries, sections, strings).len()
                ==> output_of(entries, sections, strings)[i].vaddr(global_base)
                < output_of(entries, sections, strings)[j].vaddr(global_base),
{
    let working = working_of(entries, sections, strings);
    let sorted = address_order(working);
    let out = output_of(entries, sections, strings);
    lemma_resolve_shape(entries, sections, strings);
    lemma_gather_distinct(entries, sections, strings);
    lemma_address_order_strict(working);
    assert forall|i: int, j: int| 0 <= i < j < out.len() implies out[i].vaddr(global_base)
        < out[j].vaddr(global_base) by {
        assert(out[i].place() == sorted[i].place());
        assert(out[j].place() == sorted[j].place());
    }
}

/// Every record of the output stands for an entry of the table that
/// passed every filter: it is no section definition and no file
/// record, its value is not zero, and its name is no local alias.  The
/// record has that entry's name and value, and the section that the
/// entry names.  The result is the index of such an entry.
pub proof fn law_output_stands_for_candidates(
    entries: Seq<EntryModel>,
    sections: Seq<SectionModel>,
    strings: Map<int, Seq<char>>,
    k: int,
) -> (i: int)
    requires
        resolve_model(entries, sections, strings) is Ok,
        0 <= k < output_of(entries, sections, strings).len(),
    ensures
        0 <= i < entries.len(),
        symbol_of(entries[i], sections, strings) == Some(
            output_of(entries, sections, strings)[k].with_size(0),
        ),
        !entries[i].section_definition,
        !entries[i].file,
        entries[i].value != 0,
        output_of(entries, sections, strings)[k].addr == entries[i].value,
        name_of(entries[i].name, strings) == Some(
            output_of(entries, sections, strings)[k].name,
        ),
        !is_local_alias(output_of(entries, sections, strings)[k].name),
{
    let working = working_of(entries, sections, strings);
    let sorted = address_order(working);
    lemma_resolve_shape(entries, sections, strings);
    lemma_same_symbols(working, sorted[k]);
    let a = choose|a: int| 0 <= a < working.len() && working[a] == sorted[k];
    lemma_gather_source(entries, sections, strings, a)
}

/// A symbol of the working set has a record in the output, the same
/// but for its size.  The result is the index of that record.
pub proof fn lemma_kept(
    entries: Seq<EntryModel>,
    sections: Seq<SectionModel>,
    strings: Map<int, Seq<char>>,
    sym: SymModel,
) -> (k: int)
    requires
        resolve_model(entries, sections, strings) is Ok,
        working_of(entries, sections, strings).contains(sym),
    ensures
        0 <= k < output_of(entries, sections, strings).len(),
        output_of(entries, sections, strings)[k].with_size(0) == sym,
{
    let working = working_of(entries, sections, strings);
    let sorted = address_order(working);
    lemma_resolve_shape(entries, sections, strings);
    lemma_same_symbols(working, sym);
    choose|k: int| 0 <= k < sorted.len() && sorted[k] == sym
}

/// Every primary definition of the table is in the output, under its
/// own name.  The result is the index of its record.
pub proof fn law_primaries_are_listed(
    entries: Seq<EntryModel>,
    sections: Seq<SectionModel>,
    strings: Map<int, Seq<char>>,
    primary: int,
) -> (k: int)
    requires
        resolve_model(entries, sections, strings) is Ok,
        0 <= primary < entries.len(),
        is_primary(entries[primary], sections, strings),
    ensures
        0 <= k < output_of(entries, sections, strings).len(),
        output_of(entries, sections, strings)[k].with_size(0) == symbol_of(
            entries[primary],
            sections,
            strings,
        )->0,
        output_of(entries, sections, strings)[k].name == name_of(
            entries[primary].name,
            strings,
        )->0,
{
    lemma_resolve_shape(entries, sections, strings);
    lemma_gather_primary(entries, sections, strings, primary);
    lemma_kept(entries, sections, strings, symbol_of(entries[primary], sections, strings)->0)
}

/// Every entry that stands for a symbol, primary or weak, has its
/// address in the output, so that no address goes unnamed.  The result
/// is the index of the record at that address.
pub proof fn law_every_address_is_named(
    entries: Seq<EntryModel>,
    sections: Seq<SectionModel>,
    strings: Map<int, Seq<char>>,
    i: int,
) -> (k: int)
    requires
        resolve_model(entries, sections, strings) is Ok,
        0 <= i < entries.len(),
        symbol_of(entries[i], sections, strings) is Some,
    ensures
        0 <= k < output_of(entries, sections, strings).len(),
        output_of(entries, sections, strings)[k].place() == symbol_of(
            entries[i],
            sections,
            strings,
        )->0.place(),
{
    let working = working_of(entries, sections, strings);
    let sym = symbol_of(entries[i], sections, strings)->0;
    lemma_resolve_shape(entries, sections, strings);
    if entries[i].weak_external {
        lemma_gather_alias(entries, sections, strings, i);
        let a = choose|a: int|
            0 <= a < working.len() && #[trigger] working[a].place() == sym.place();
        lemma_kept(entries, sections, strings, working[a])
    } else {
        lemma_gather_primary(entries, sections, strings, i);
        lemma_kept(entries, sections, strings, sym)
    }
}

/// Where a primary definition and a weak external are at the same
/// address, the output has the primary there, under the primary's
/// name, and nothing else at that address, wherever the two stand in
/// the table.  The result is the index of the primary's record.
pub proof fn law_primary_prevails(
    entries: Seq<EntryModel>,
    sections: Seq<SectionModel>,
    strings: Map<int, Seq<char>>,
    primary: int,
    alias: int,
) -> (k: int)
    requires
        resolve_model(entries, sections, strings) is Ok,
        0 <= primary < entries.len(),
        0 <= alias < entries.len(),
        is_primary(entries[primary], sections, strings),
        is_alias(entries[alias], sections, strings),
        symbol_of(entries[primary], sections, strings)->0.place() == symbol_of(
            entries[alias],
            sections,
            strings,
        )->0.place(),
    ensures
        0 <= k < output_of(entries, sections, strings).len(),
        output_of(entries, sections, strings)[k].with_size(0) == symbol_of(
            entries[primary],
            sections,
            strings,
        )->0,
        output_of(entries, sections, strings)[k].name == name_of(
            entries[primary].name,
            strings,
        )->0,
        forall|other: int|
            0 <= other < output_of(entries, sections, strings).len() && output_of(
                entries,
                sections,
                strings,
            )[other].place() == symbol_of(entries[alias], sections, strings)->0.place() ==> other
                == k,
{
    let out = output_of(entries, sections, strings);
    let sym = symbol_of(entries[primary], sections, strings)->0;
    let k = law_primaries_are_listed(entries, sections, strings, primary);
    law_addresses_rise(entries, sections, strings, 0);
    assert forall|other: int|
        0 <= other < out.len() && out[other].place() == sym.place() implies other == k by {
        if other < k {
            assert(out[other].vaddr(0) < out[k].vaddr(0));
        }
        if k < other {
            assert(out[k].vaddr(0) < out[other].vaddr(0));
        }
    }
    k
}

/// A weak external with no primary definition at its address is in
/// the output under its own name, unless an earlier weak external at
/// that address has another name: the first one at an address is the
/// one that is promoted, and the later ones are its aliases.  The
/// result is the index of the record at that address.
pub proof fn law_orphan_is_promoted(
    entries: Seq<EntryModel>,
    sections: Seq<SectionModel>,
    strings: Map<int, Seq<char>>,
    alias: int,
) -> (k: int)
    requires
        resolve_model(entries, sections, strings) is Ok,
        0 <= alias < entries.len(),
        is_alias(entries[alias], sections, strings),
        forall|p: int|
            0 <= p < entries.len() && !entries[p].weak_external ==> (#[trigger] symbol_of(
                entries[p],
                sections,
                strings,
            ) matches Some(primary) ==> primary.place() != symbol_of(
                entries[alias],
                sections,
                strings,
            )->0.place()),
        forall|h: int|
            0 <= h < alias && entries[h].weak_external ==> (#[trigger] symbol_of(
                entries[h],
                sections,
                strings,
            ) matches Some(earlier) ==> (earlier.place() == symbol_of(
                entries[alias],
                sections,
                strings,
            )->0.place() ==> earlier.name == symbol_of(entries[alias], sections, strings)->0.name)),
    ensures
        0 <= k < output_of(entries, sections, strings).len(),
        output_of(entries, sections, strings)[k].place() == symbol_of(
            entries[alias],
            sections,
            strings,
        )->0.place(),
        output_of(entries, sections, strings)[k].name == name_of(
            entries[alias].name,
            strings,
        )->0,
    decreases alias,
{
    let first = primaries_of(entries, sections, strings);
    let sym = symbol_of(entries[alias], sections, strings)->0;
    if exists|h: int|
        0 <= h < alias && entries[h].weak_external && (#[trigger] symbol_of(
            entries[h],
            sections,
            strings,
        ) matches Some(earlier) && earlier.place() == sym.place()) {
        let h = choose|h: int|
            0 <= h < alias && entries[h].weak_external && (#[trigger] symbol_of(
                entries[h],
                sections,
                strings,
            ) matches Some(earlier) && earlier.place() == sym.place());
        law_orphan_is_promoted(entries, sections, strings, h)
    } else {
        lemma_resolve_shape(entries, sections, strings);
        if occupied(first, sym.place()) {
            let a = choose|a: int|
                0 <= a < first.len() && #[trigger] first[a].place() == sym.place();
            let p = lemma_pass_source(
                entries,
                sections,
                strings,
                false,
                Seq::empty(),
                entries.len(),
                a,
            );
            assert(false);
        }
        lemma_pass_keeps_first(entries, sections, strings, true, first, entries.len(), alias);
        lemma_kept(entries, sections, strings, sym)
    }
}

/// Where reconciliation succeeds, nothing of the table was left
/// unresolved: every entry has its name, and every entry that passes
/// the filters names a section.
pub proof fn law_success_resolves_every_entry(
    entries: Seq<EntryModel>,
    sections: Seq<SectionModel>,
    strings: Map<int, Seq<char>>,
    i: int,
)
    requires
        resolve_model(entries, sections, strings) is Ok,
        0 <= i < entries.len(),
    ensures
        name_of(entries[i].name, strings) is Some,
        is_candidate(entries[i], name_of(entries[i].name, strings)->0) ==> 1
            <= entries[i].section_index <= sections.len(),
{
    let first = primaries_of(entries, sections, strings);
    lemma_pass_covers(entries, sections, strings, false, Seq::empty(), entries.len(), i);
    lemma_pass_covers(entries, sections, strings, true, first, entries.len(), i);
}

/// No failure comes without its cause.
///
/// A missing string is reported for an entry whose name is at an
/// offset that the string table does not have.  An invalid section
/// index is reported for a candidate that names no section.  A
/// duplicate is reported for two primary definitions of the table at
/// one address, the earlier as `existing`.  A negative size is
/// reported for a symbol of the working set that starts past the end
/// of its section.  The result is the indices of the two definitions
/// of a duplicate.
pub proof fn law_failures_have_causes(
    entries: Seq<EntryModel>,
    sections: Seq<SectionModel>,
    strings: Map<int, Seq<char>>,
) -> (pair: (int, int))
    requires
        resolve_model(entries, sections, strings) is Err,
    ensures
        match resolve_model(entries, sections, strings)->Err_0 {
            ResolveErrorModel::MissingStringTableEntry { index, offset } => {
                &&& 0 <= index < entries.len()
                &&& entries[index].name == NameModel::TableOffset(offset)
                &&& !strings.contains_key(offset as int)
            },
            ResolveErrorModel::InvalidSectionIndex { index, section_index } => {
                &&& 0 <= index < entries.len()
                &&& entries[index].section_index == section_index
                &&& !(1 <= section_index <= sections.len())
                &&& name_of(entries[index].name, strings) is Some
                &&& is_candidate(entries[index], name_of(entries[index].name, strings)->0)
            },
            ResolveErrorModel::DuplicateSymbol { existing, new } => {
                &&& 0 <= pair.0 < pair.1 < entries.len()
                &&& !entries[pair.0].weak_external
                &&& !entries[pair.1].weak_external
                &&& symbol_of(entries[pair.0], sections, strings) == Some(existing)
                &&& symbol_of(entries[pair.1], sections, strings) == Some(new)
                &&& existing.place() == new.place()
            },
            ResolveErrorModel::NegativeSize { symbol } => {
                &&& gather_model(entries, sections, strings) is Ok
                &&& working_of(entries, sections, strings).contains(symbol)
                &&& symbol.sectsize < symbol.addr
            },
        },
{
    let none = Seq::<SymModel>::empty();
    let n = entries.len();
    if gather_model(entries, sections, strings) is Ok {
        let working = working_of(entries, sections, strings);
        let sorted = address_order(working);
        lemma_address_order(working);
        lemma_first_negative(sorted, sorted.len());
        let k = first_negative(sorted, sorted.len())->0;
        if !ends_run(sorted, k) {
            assert(sorted[k].place() <= sorted[k + 1].place());
        }
        lemma_same_symbols(working, sorted[k]);
        (0, 0)
    } else if pass_prefix(entries, sections, strings, false, none, n) is Err {
        let i = lemma_pass_failure(entries, sections, strings, false, none, n);
        let before = pass_prefix(entries, sections, strings, false, none, i as nat)->Ok_0;
        match resolve_model(entries, sections, strings)->Err_0 {
            ResolveErrorModel::DuplicateSymbol { existing, new } => {
                lemma_first_at(before, new.place());
                let k = first_at(before, new.place())->0;
                let p = lemma_pass_source(entries, sections, strings, false, none, i as nat, k);
                (p, i)
            },
            _ => (0, 0),
        }
    } else {
        let first = primaries_of(entries, sections, strings);
        let i = lemma_pass_failure(entries, sections, strings, true, first, n);
        (0, 0)
    }
}

/// Whether the first pass cannot take the entry in: its name does not
/// resolve, or it is a candidate of that pass and names no section.
pub open spec fn unresolvable(
    entry: EntryModel,
    sections: Seq<SectionModel>,
    strings: Map<int, Seq<char>>,
) -> bool {
    match name_of(entry.name, strings) {
        None => true,
        Some(name) => !entry.weak_external && is_candidate(entry, name) && section_of(
            entry,
            sections,
        ) is None,
    }
}

/// Whether the entry at `later` is a primary definition at the address
/// of a primary definition before it.
pub open spec fn conflicts(
    entries: Seq<EntryModel>,
    sections: Seq<SectionModel>,
    strings: Map<int, Seq<char>>,
    later: int,
) -> bool {
    &&& is_primary(entries[later], sections, strings)
    &&& exists|earlier: int|
        0 <= earlier < later && is_primary(entries[earlier], sections, strings) && (
        #[trigger] symbol_of(entries[earlier], sections, strings))->0.place() == symbol_of(
            entries[later],
            sections,
            strings,
        )->0.place()
}

/// The first pass does not get past a primary definition at the
/// address of an earlier one.
pub proof fn lemma_conflict_stops_pass(
    entries: Seq<EntryModel>,
    sections: Seq<SectionModel>,
    strings: Map<int, Seq<char>>,
    earlier: int,
    later: int,
    count: nat,
)
    requires
        0 <= earlier < later < count,
        is_primary(entries[earlier], sections, strings),
        is_primary(entries[later], sections, strings),
        symbol_of(entries[earlier], sections, strings)->0.place() == symbol_of(
            entries[later],
            sections,
            strings,
        )->0.place(),
    ensures
        pass_prefix(entries, sections, strings, false, Seq::empty(), count) is Err,
{
    let none = Seq::<SymModel>::empty();
    if pass_prefix(entries, sections, strings, false, none, count) is Ok {
        lemma_pass_grows(entries, sections, strings, false, none, (later + 1) as nat, count);
        lemma_pass_grows(
            entries,
            sections,
            strings,
            false,
            none,
            later as nat,
            (later + 1) as nat,
        );
        let before = pass_prefix(entries, sections, strings, false, none, later as nat)->Ok_0;
        let sym = symbol_of(entries[later], sections, strings)->0;
        lemma_pass_covers(entries, sections, strings, false, none, later as nat, earlier);
        lemma_first_at(before, sym.place());
        assert(false);
    }
}

/// Two primary definitions at one address make reconciliation fail:
/// there is no output.  The failure is a duplicate, unless an entry
/// before the later of the two stops the first pass in another way, by
/// a name that does not resolve or a section that does not exist, and
/// no conflict comes before that entry.
pub proof fn law_conflict_is_fatal(
    entries: Seq<EntryModel>,
    sections: Seq<SectionModel>,
    strings: Map<int, Seq<char>>,
    earlier: int,
    later: int,
)
    requires
        0 <= earlier < later < entries.len(),
        is_primary(entries[earlier], sections, strings),
        is_primary(entries[later], sections, strings),
        symbol_of(entries[earlier], sections, strings)->0.place() == symbol_of(
            entries[later],
            sections,
            strings,
        )->0.place(),
    ensures
        resolve_model(entries, sections, strings) is Err,
        (forall|i: int|
            0 <= i < later && #[trigger] unresolvable(entries[i], sections, strings)
                ==> exists|q: int|
                0 <= q < i && #[trigger] conflicts(entries, sections, strings, q))
            ==> resolve_model(entries, sections, strings)->Err_0 is DuplicateSymbol,
{
    let none = Seq::<SymModel>::empty();
    let n = entries.len();
    lemma_conflict_stops_pass(entries, sections, strings, earlier, later, n);
    let stopped = lemma_pass_failure(entries, sections, strings, false, none, n);
    if later < stopped {
        lemma_pass_grows(
            entries,
            sections,
            strings,
            false,
            none,
            (later + 1) as nat,
            stopped as nat,
        );
        lemma_conflict_stops_pass(entries, sections, strings, earlier, later, (later + 1) as nat);
    }
    if (forall|i: int|
        0 <= i < later && #[trigger] unresolvable(entries[i], sections, strings) ==> exists|q: int|
            0 <= q < i && #[trigger] conflicts(entries, sections, strings, q))
        && !(resolve_model(entries, sections, strings)->Err_0 is DuplicateSymbol) {
        assert(unresolvable(entries[stopped], sections, strings));
        let q = choose|q: int|
            0 <= q < stopped && #[trigger] conflicts(entries, sections, strings, q);
        let p = choose|p: int|
            0 <= p < q && is_primary(entries[p], sections, strings) && (#[trigger] symbol_of(
                entries[p],
                sections,
                strings,
            ))->0.place() == symbol_of(entries[q], sections, strings)->0.place();
        lemma_conflict_stops_pass(entries, sections, strings, p, q, stopped as nat);
        assert(false);
    }
}

/// The records of each section are next to one another: between two
/// records of one section there is none of another.
pub open spec fn sections_are_runs(syms: Seq<SymModel>) -> bool {
    forall|a: int, c: int, b: int|
        0 <= a < c < b < syms.len() && #[trigger] same_section(syms, a, b)
            ==> #[trigger] same_section(syms, a, c)
}

/// Whether the symbols at two indices are in the same section.
pub open spec fn same_section(syms: Seq<SymModel>, a: int, b: int) -> bool {
    syms[a].section == syms[b].section
}

/// The size of every record is its extent in the output: up to the
/// next record where that is in the same section, else up to the end
/// of its own section.
pub proof fn law_size_is_extent(
    entries: Seq<EntryModel>,
    sections: Seq<SectionModel>,
    strings: Map<int, Seq<char>>,
    k: int,
)
    requires
        resolve_model(entries, sections, strings) is Ok,
        0 <= k < output_of(entries, sections, strings).len(),
    ensures
        output_of(entries, sections, strings)[k].size == extent(
            output_of(entries, sections, strings),
            k,
        ),
        output_of(entries, sections, strings)[k].addr <= output_of(
            entries,
            sections,
            strings,
        )[k].sectsize || !ends_run(output_of(entries, sections, strings), k),
{
    let out = output_of(entries, sections, strings);
    let sorted = ordered_of(entries, sections, strings);
    lemma_resolve_shape(entries, sections, strings);
    assert(out[k].with_size(0) == sorted[k]);
    if k + 1 < out.len() {
        assert(out[k + 1].with_size(0) == sorted[k + 1]);
    }
}

/// The symbols of a section share it out among themselves.  Where the
/// records of each section are next to one another in the output, a
/// symbol reaches to the next symbol of its section, and the last
/// symbol of a section reaches to the end of the section.
pub proof fn law_sizes_cover_sections(
    entries: Seq<EntryModel>,
    sections: Seq<SectionModel>,
    strings: Map<int, Seq<char>>,
    k: int,
    next: int,
)
    requires
        resolve_model(entries, sections, strings) is Ok,
        sections_are_runs(output_of(entries, sections, strings)),
        0 <= k < next <= output_of(entries, sections, strings).len(),
        next < output_of(entries, sections, strings).len() ==> same_section(
            output_of(entries, sections, strings),
            k,
            next,
        ),
        forall|c: int|
            k < c < next ==> !#[trigger] same_section(output_of(entries, sections, strings), k, c),
    ensures
        next < output_of(entries, sections, strings).len() ==> output_of(
            entries,
            sections,
            strings,
        )[k].size == output_of(entries, sections, strings)[next].place() - output_of(
            entries,
            sections,
            strings,
        )[k].place(),
        next == output_of(entries, sections, strings).len() ==> output_of(
            entries,
            sections,
            strings,
        )[k].size == output_of(entries, sections, strings)[k].section_end() - output_of(
            entries,
            sections,
            strings,
        )[k].place(),
{
    let out = output_of(entries, sections, strings);
    law_size_is_extent(entries, sections, strings, k);
    if next < out.len() {
        if k + 1 < next {
            assert(same_section(out, k, k + 1));
        }
    } else {
        if k + 1 < out.len() {
            assert(!same_section(out, k, k + 1));
        }
    }
}

} // verus!

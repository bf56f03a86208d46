//! What holds of the working set that the two passes build.

use vstd::prelude::*;
use crate::entry::{EntryModel, SectionModel};
use crate::gather::{
    first_at,
    gather_model,
    is_candidate,
    lemma_first_at,
    offer,
    pass_prefix,
    placed,
    section_of,
};
use crate::names::name_of;
use crate::symbol::SymModel;

verus! {

/// The symbol that an entry stands for: the entry must have a name,
/// be a candidate, and name a section.
pub open spec fn symbol_of(
    entry: EntryModel,
    sections: Seq<SectionModel>,
    strings: Map<int, Seq<char>>,
) -> Option<SymModel> {
    match name_of(entry.name, strings) {
        None => None,
        Some(name) => if is_candidate(entry, name) {
            match section_of(entry, sections) {
                None => None,
                Some(section) => Some(placed(entry, name, section)),
            }
        } else {
            None
        },
    }
}

/// No two symbols of the sequence are at the same address.
pub open spec fn distinct_places(syms: Seq<SymModel>) -> bool {
    forall|i: int, j: int| 0 <= i < j < syms.len() ==> syms[i].place() != syms[j].place()
}

/// Some symbol of the sequence is at `place`.
pub open spec fn occupied(syms: Seq<SymModel>, place: int) -> bool {
    exists|k: int| 0 <= k < syms.len() && #[trigger] syms[k].place() == place
}

/// A pass that succeeds has succeeded on every shorter prefix of the
/// table, and only ever adds to the end of the working set.
pub proof fn lemma_pass_grows(
    entries: Seq<EntryModel>,
    sections: Seq<SectionModel>,
    strings: Map<int, Seq<char>>,
    weak_pass: bool,
    initial: Seq<SymModel>,
    shorter: nat,
    count: nat,
)
    requires
        shorter <= count,
        pass_prefix(entries, sections, strings, weak_pass, initial, count) is Ok,
    ensures
        pass_prefix(entries, sections, strings, weak_pass, initial, shorter) is Ok,
        pass_prefix(entries, sections, strings, weak_pass, initial, shorter)->Ok_0.is_prefix_of(
            pass_prefix(entries, sections, strings, weak_pass, initial, count)->Ok_0,
        ),
    decreases count,
{
    if shorter < count {
        lemma_pass_grows(
            entries,
            sections,
            strings,
            weak_pass,
            initial,
            shorter,
            (count - 1) as nat,
        );
    }
}

/// A pass keeps the addresses of the working set distinct.
pub proof fn lemma_pass_distinct(
    entries: Seq<EntryModel>,
    sections: Seq<SectionModel>,
    strings: Map<int, Seq<char>>,
    weak_pass: bool,
    initial: Seq<SymModel>,
    count: nat,
)
    requires
        distinct_places(initial),
        pass_prefix(entries, sections, strings, weak_pass, initial, count) is Ok,
    ensures
        distinct_places(pass_prefix(entries, sections, strings, weak_pass, initial, count)->Ok_0),
    decreases count,
{
    if count > 0 {
        let before = pass_prefix(
            entries,
            sections,
            strings,
            weak_pass,
            initial,
            (count - 1) as nat,
        )->Ok_0;
        lemma_pass_distinct(entries, sections, strings, weak_pass, initial, (count - 1) as nat);
        let entry = entries[count - 1];
        let sym = symbol_of(entry, sections, strings);
        if sym is Some {
            lemma_first_at(before, sym->0.place());
        }
    }
}

/// Every symbol that a pass added stands for an entry of that pass.
/// The result is the index of such an entry.
pub proof fn lemma_pass_source(
    entries: Seq<EntryModel>,
    sections: Seq<SectionModel>,
    strings: Map<int, Seq<char>>,
    weak_pass: bool,
    initial: Seq<SymModel>,
    count: nat,
    k: int,
) -> (i: int)
    requires
        pass_prefix(entries, sections, strings, weak_pass, initial, count) is Ok,
        initial.len() <= k < pass_prefix(
            entries,
            sections,
            strings,
            weak_pass,
            initial,
            count,
        )->Ok_0.len(),
    ensures
        0 <= i < count,
        entries[i].weak_external == weak_pass,
        symbol_of(entries[i], sections, strings) == Some(
            pass_prefix(entries, sections, strings, weak_pass, initial, count)->Ok_0[k],
        ),
    decreases count,
{
    let before = pass_prefix(
        entries,
        sections,
        strings,
        weak_pass,
        initial,
        (count - 1) as nat,
    )->Ok_0;
    if k < before.len() {
        lemma_pass_source(entries, sections, strings, weak_pass, initial, (count - 1) as nat, k)
    } else {
        count - 1
    }
}

/// A pass that succeeds has resolved the name of every entry, found
/// the section of every candidate of the pass, and left a symbol at
/// the address of each of them.
pub proof fn lemma_pass_covers(
    entries: Seq<EntryModel>,
    sections: Seq<SectionModel>,
    strings: Map<int, Seq<char>>,
    weak_pass: bool,
    initial: Seq<SymModel>,
    count: nat,
    i: int,
)
    requires
        pass_prefix(entries, sections, strings, weak_pass, initial, count) is Ok,
        0 <= i < count,
    ensures
        name_of(entries[i].name, strings) is Some,
        entries[i].weak_external == weak_pass && is_candidate(
            entries[i],
            name_of(entries[i].name, strings)->0,
        ) ==> {
            &&& symbol_of(entries[i], sections, strings) is Some
            &&& occupied(
                pass_prefix(entries, sections, strings, weak_pass, initial, count)->Ok_0,
                symbol_of(entries[i], sections, strings)->0.place(),
            )
        },
    decreases count,
{
    let after = pass_prefix(entries, sections, strings, weak_pass, initial, count)->Ok_0;
    lemma_pass_grows(entries, sections, strings, weak_pass, initial, (i + 1) as nat, count);
    lemma_pass_grows(entries, sections, strings, weak_pass, initial, i as nat, (i + 1) as nat);
    let before = pass_prefix(entries, sections, strings, weak_pass, initial, i as nat)->Ok_0;
    let here = pass_prefix(entries, sections, strings, weak_pass, initial, (i + 1) as nat)->Ok_0;
    let entry = entries[i];
    assert(Ok::<Seq<SymModel>, crate::error::ResolveErrorModel>(here) == offer(
        before,
        i,
        entry,
        sections,
        strings,
        weak_pass,
    ));
    if entry.weak_external == weak_pass && is_candidate(entry, name_of(entry.name, strings)->0) {
        let sym = symbol_of(entry, sections, strings)->0;
        lemma_first_at(before, sym.place());
        let k = match first_at(before, sym.place()) {
            Some(k) => k,
            None => before.len() as int,
        };
        assert(here[k].place() == sym.place());
        assert(after[k] == here[k]);
    }
}

/// A candidate of the pass whose address was free when its turn came
/// is in the working set itself.  The address was free if the pass
/// started without a symbol there and no earlier candidate of the pass
/// is at that address.
pub proof fn lemma_pass_keeps_first(
    entries: Seq<EntryModel>,
    sections: Seq<SectionModel>,
    strings: Map<int, Seq<char>>,
    weak_pass: bool,
    initial: Seq<SymModel>,
    count: nat,
    i: int,
)
    requires
        pass_prefix(entries, sections, strings, weak_pass, initial, count) is Ok,
        0 <= i < count,
        entries[i].weak_external == weak_pass,
        symbol_of(entries[i], sections, strings) is Some,
        !occupied(initial, symbol_of(entries[i], sections, strings)->0.place()),
        forall|h: int|
            0 <= h < i && entries[h].weak_external == weak_pass ==> (#[trigger] symbol_of(
                entries[h],
                sections,
                strings,
            ) matches Some(earlier) ==> earlier.place() != symbol_of(
                entries[i],
                sections,
                strings,
            )->0.place()),
    ensures
        pass_prefix(entries, sections, strings, weak_pass, initial, count)->Ok_0.contains(
            symbol_of(entries[i], sections, strings)->0,
        ),
{
    let after = pass_prefix(entries, sections, strings, weak_pass, initial, count)->Ok_0;
    lemma_pass_grows(entries, sections, strings, weak_pass, initial, (i + 1) as nat, count);
    lemma_pass_grows(entries, sections, strings, weak_pass, initial, i as nat, (i + 1) as nat);
    let before = pass_prefix(entries, sections, strings, weak_pass, initial, i as nat)->Ok_0;
    let here = pass_prefix(entries, sections, strings, weak_pass, initial, (i + 1) as nat)->Ok_0;
    let sym = symbol_of(entries[i], sections, strings)->0;
    lemma_first_at(before, sym.place());
    if first_at(before, sym.place()) is Some {
        let k = first_at(before, sym.place())->0;
        if k < initial.len() {
            lemma_pass_grows(entries, sections, strings, weak_pass, initial, 0, i as nat);
            assert(initial[k] == before[k]);
        } else {
            let h = lemma_pass_source(
                entries,
                sections,
                strings,
                weak_pass,
                initial,
                i as nat,
                k,
            );
        }
        assert(false);
    }
    assert(here == before.push(sym));
    assert(after[before.len() as int] == here[before.len() as int]);
}

/// Whether the entry is a primary definition: it stands for a symbol
/// and is no weak external.
pub open spec fn is_primary(
    entry: EntryModel,
    sections: Seq<SectionModel>,
    strings: Map<int, Seq<char>>,
) -> bool {
    !entry.weak_external && symbol_of(entry, sections, strings) is Some
}

/// Whether the entry is a weak external that stands for a symbol.
pub open spec fn is_alias(
    entry: EntryModel,
    sections: Seq<SectionModel>,
    strings: Map<int, Seq<char>>,
) -> bool {
    entry.weak_external && symbol_of(entry, sections, strings) is Some
}

/// The working set of a table that has one.
pub open spec fn working_of(
    entries: Seq<EntryModel>,
    sections: Seq<SectionModel>,
    strings: Map<int, Seq<char>>,
) -> Seq<SymModel> {
    gather_model(entries, sections, strings)->Ok_0
}

/// The working set after the pass over the primaries.
pub open spec fn primaries_of(
    entries: Seq<EntryModel>,
    sections: Seq<SectionModel>,
    strings: Map<int, Seq<char>>,
) -> Seq<SymModel> {
    pass_prefix(entries, sections, strings, false, Seq::empty(), entries.len())->Ok_0
}

/// The addresses of a working set are distinct.
pub proof fn lemma_gather_distinct(
    entries: Seq<EntryModel>,
    sections: Seq<SectionModel>,
    strings: Map<int, Seq<char>>,
)
    requires
        gather_model(entries, sections, strings) is Ok,
    ensures
        distinct_places(working_of(entries, sections, strings)),
{
    let first = primaries_of(entries, sections, strings);
    lemma_pass_distinct(entries, sections, strings, false, Seq::empty(), entries.len());
    lemma_pass_distinct(entries, sections, strings, true, first, entries.len());
}

/// Every symbol of a working set stands for an entry of the table.
/// The result is the index of such an entry.
pub proof fn lemma_gather_source(
    entries: Seq<EntryModel>,
    sections: Seq<SectionModel>,
    strings: Map<int, Seq<char>>,
    k: int,
) -> (i: int)
    requires
        gather_model(entries, sections, strings) is Ok,
        0 <= k < working_of(entries, sections, strings).len(),
    ensures
        0 <= i < entries.len(),
        symbol_of(entries[i], sections, strings) == Some(
            working_of(entries, sections, strings)[k],
        ),
        k < primaries_of(entries, sections, strings).len() <==> !entries[i].weak_external,
{
    let first = primaries_of(entries, sections, strings);
    let working = working_of(entries, sections, strings);
    lemma_pass_grows(entries, sections, strings, true, first, 0, entries.len());
    if k < first.len() {
        assert(first[k] == working[k]);
        lemma_pass_source(entries, sections, strings, false, Seq::empty(), entries.len(), k)
    } else {
        lemma_pass_source(entries, sections, strings, true, first, entries.len(), k)
    }
}

/// Every primary definition is in the working set.
pub proof fn lemma_gather_primary(
    entries: Seq<EntryModel>,
    sections: Seq<SectionModel>,
    strings: Map<int, Seq<char>>,
    i: int,
)
    requires
        gather_model(entries, sections, strings) is Ok,
        0 <= i < entries.len(),
        is_primary(entries[i], sections, strings),
    ensures
        working_of(entries, sections, strings).contains(
            symbol_of(entries[i], sections, strings)->0,
        ),
{
    let first = primaries_of(entries, sections, strings);
    let working = working_of(entries, sections, strings);
    let sym = symbol_of(entries[i], sections, strings)->0;
    lemma_pass_grows(
        entries,
        sections,
        strings,
        false,
        Seq::empty(),
        (i + 1) as nat,
        entries.len(),
    );
    lemma_pass_grows(entries, sections, strings, false, Seq::empty(), i as nat, (i + 1) as nat);
    let before = pass_prefix(entries, sections, strings, false, Seq::empty(), i as nat)->Ok_0;
    let here = pass_prefix(entries, sections, strings, false, Seq::empty(), (i + 1) as nat)->Ok_0;
    assert(here == before.push(sym));
    assert(first[before.len() as int] == here[before.len() as int]);
    lemma_pass_grows(entries, sections, strings, true, first, 0, entries.len());
    assert(working[before.len() as int] == first[before.len() as int]);
}

/// The address of every weak external that stands for a symbol is taken
/// in the working set.
pub proof fn lemma_gather_alias(
    entries: Seq<EntryModel>,
    sections: Seq<SectionModel>,
    strings: Map<int, Seq<char>>,
    i: int,
)
    requires
        gather_model(entries, sections, strings) is Ok,
        0 <= i < entries.len(),
        is_alias(entries[i], sections, strings),
    ensures
        occupied(
            working_of(entries, sections, strings),
            symbol_of(entries[i], sections, strings)->0.place(),
        ),
{
    let first = primaries_of(entries, sections, strings);
    lemma_pass_covers(entries, sections, strings, true, first, entries.len(), i);
}

/// A pass that has failed failed at one entry, after it had succeeded
/// on the entries before it.  The result is the index of that entry.
pub proof fn lemma_pass_failure(
    entries: Seq<EntryModel>,
    sections: Seq<SectionModel>,
    strings: Map<int, Seq<char>>,
    weak_pass: bool,
    initial: Seq<SymModel>,
    count: nat,
) -> (i: int)
    requires
        pass_prefix(entries, sections, strings, weak_pass, initial, count) is Err,
    ensures
        0 <= i < count,
        pass_prefix(entries, sections, strings, weak_pass, initial, i as nat) is Ok,
        pass_prefix(entries, sections, strings, weak_pass, initial, count) == offer(
            pass_prefix(entries, sections, strings, weak_pass, initial, i as nat)->Ok_0,
            i,
            entries[i],
            sections,
            strings,
            weak_pass,
        ),
    decreases count,
{
    if pass_prefix(entries, sections, strings, weak_pass, initial, (count - 1) as nat) is Err {
        lemma_pass_failure(entries, sections, strings, weak_pass, initial, (count - 1) as nat)
    } else {
        count - 1
    }
}

} // verus!

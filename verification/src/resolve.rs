//! The whole reconciliation: working set, order, sizes.

use vstd::prelude::*;
use metagoblin::strtab::Strtab;
use crate::entry::{EntryModel, RawEntry, Section, SectionModel, entry_models, section_models};
use crate::error::{ResolveError, ResolveErrorModel};
use crate::gather::{gather, gather_model};
use crate::guarantees::{
    law_addresses_rise,
    law_output_stands_for_candidates,
    law_size_is_extent,
    output_of,
};
use crate::names::{is_local_alias, strtab_entries};
use crate::order::{address_order, sort_by_address};
use crate::sizes::{extent, infer_model, infer_sizes};
use crate::symbol::{Sym, SymModel, models};

verus! {

/// The symbols of a symbol table: its working set, in ascending order
/// of address, each symbol with the size that its neighbours leave it.
/// A failure while the working set is built, or a negative size, is
/// the result instead.
pub open spec fn resolve_model(
    entries: Seq<EntryModel>,
    sections: Seq<SectionModel>,
    strings: Map<int, Seq<char>>,
) -> Result<Seq<SymModel>, ResolveErrorModel> {
    match gather_model(entries, sections, strings) {
        Err(e) => Err(e),
        Ok(working) => infer_model(address_order(working)),
    }
}

/// Reconciles a symbol table with the sections of its image.
///
/// The result is the list of the symbols that bear an address, each
/// address once, in ascending order, each symbol with its size; or the
/// first fatal condition met on the way.  No symbol of the list is at
/// offset zero of its section or has the name of a local alias.
pub fn resolve(entries: &Vec<RawEntry>, sections: &Vec<Section>, strings: &Strtab) -> (r: Result<
    Vec<Sym>,
    ResolveError,
>)
    ensures
        match resolve_model(
            entry_models(entries@),
            section_models(sections@),
            strtab_entries(*strings),
        ) {
            Ok(out) => r matches Ok(v) && models(v@) == out,
            Err(e) => r matches Err(x) && x@ == e,
        },
        r matches Ok(v) ==> forall|i: int, j: int|
            0 <= i < j < v@.len() ==> (#[trigger] v@[i])@.place() < (#[trigger] v@[j])@.place(),
        r matches Ok(v) ==> forall|k: int|
            0 <= k < v@.len() ==> (#[trigger] v@[k]).size == extent(models(v@), k),
        r matches Ok(v) ==> forall|k: int|
            0 <= k < v@.len() ==> (#[trigger] v@[k]).addr != 0 && !is_local_alias(v@[k].name@),
{
    let mut syms = match gather(entries, sections, strings) {
        Ok(working) => working,
        Err(e) => {
            return Err(e);
        },
    };
    sort_by_address(&mut syms);
    match infer_sizes(&mut syms) {
        Ok(()) => {
            proof {
                let entries = entry_models(entries@);
                let sections = section_models(sections@);
                let strings = strtab_entries(*strings);
                let out = output_of(entries, sections, strings);
                law_addresses_rise(entries, sections, strings, 0);
                assert forall|i: int, j: int| 0 <= i < j < syms@.len() implies (
                #[trigger] syms@[i])@.place() < (#[trigger] syms@[j])@.place() by {
                    assert(out[i].vaddr(0) < out[j].vaddr(0));
                }
                assert forall|k: int| 0 <= k < syms@.len() implies (#[trigger] syms@[k]).size
                    == extent(models(syms@), k) by {
                    law_size_is_extent(entries, sections, strings, k);
                    assert(out[k] == syms@[k]@);
                }
                assert forall|k: int| 0 <= k < syms@.len() implies (#[trigger] syms@[k]).addr
                    != 0 && !is_local_alias(syms@[k].name@) by {
                    let i = law_output_stands_for_candidates(entries, sections, strings, k);
                    assert(out[k] == syms@[k]@);
                }
            }
            Ok(syms)
        },
        Err(e) => Err(e),
    }
}

} // verus!

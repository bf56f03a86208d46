//! Ordering the working set by address.

use vstd::prelude::*;
use vstd::seq_lib::*;
use crate::symbol::{Sym, SymModel, models};
use crate::working::distinct_places;

verus! {

/// Addresses never go down along the sequence.
pub open spec fn ordered(syms: Seq<SymModel>) -> bool {
    forall|i: int, j: int| 0 <= i < j < syms.len() ==> syms[i].place() <= syms[j].place()
}

/// Where a symbol at `place` goes into an ordered sequence: before the
/// first symbol that is not below it.
pub open spec fn slot_for(syms: Seq<SymModel>, place: int) -> int
    decreases syms.len(),
{
    if syms.len() == 0 || place <= syms.first().place() {
        0
    } else {
        1 + slot_for(syms.drop_first(), place)
    }
}

/// The symbols in ascending order of address.  Symbols at one address
/// keep the order they came in.
pub open spec fn address_order(syms: Seq<SymModel>) -> Seq<SymModel>
    decreases syms.len(),
{
    if syms.len() == 0 {
        Seq::empty()
    } else {
        let rest = address_order(syms.drop_first());
        rest.insert(slot_for(rest, syms.first().place()), syms.first())
    }
}

/// [`slot_for`] is the one index that has only lower addresses before
/// it and none at it.
pub proof fn lemma_slot_for(syms: Seq<SymModel>, place: int)
    ensures
        0 <= slot_for(syms, place) <= syms.len(),
        forall|j: int| 0 <= j < slot_for(syms, place) ==> syms[j].place() < place,
        slot_for(syms, place) < syms.len() ==> place <= syms[slot_for(syms, place)].place(),
    decreases syms.len(),
{
    if !(syms.len() == 0 || place <= syms.first().place()) {
        let rest = syms.drop_first();
        lemma_slot_for(rest, place);
        assert(forall|j: int| 0 <= j < rest.len() ==> rest[j] == syms[j + 1]);
        assert forall|j: int| 0 <= j < slot_for(syms, place) implies syms[j].place() < place by {
            if j > 0 {
                assert(rest[j - 1] == syms[j]);
            }
        }
    }
}

/// The result of [`address_order`] is in order, and holds the same
/// symbols as often as the sequence it was made from.
pub proof fn lemma_address_order(syms: Seq<SymModel>)
    ensures
        ordered(address_order(syms)),
        address_order(syms).len() == syms.len(),
        address_order(syms).to_multiset() == syms.to_multiset(),
    decreases syms.len(),
{
    if syms.len() == 0 {
        assert(address_order(syms) =~= syms);
    } else {
        let head = syms.first();
        let rest = address_order(syms.drop_first());
        let slot = slot_for(rest, head.place());
        let out = rest.insert(slot, head);
        lemma_address_order(syms.drop_first());
        lemma_slot_for(rest, head.place());
        assert forall|i: int, j: int| 0 <= i < j < out.len() implies out[i].place()
            <= out[j].place() by {
            if j < slot {
                assert(out[i] == rest[i] && out[j] == rest[j]);
            } else if j == slot {
                assert(out[i] == rest[i]);
            } else if i < slot {
                assert(out[i] == rest[i] && out[j] == rest[j - 1]);
                assert(slot <= j - 1);
                if slot < j - 1 {
                    assert(rest[slot].place() <= rest[j - 1].place());
                }
            } else if i == slot {
                assert(out[j] == rest[j - 1]);
                if slot < j - 1 {
                    assert(rest[slot].place() <= rest[j - 1].place());
                }
            } else {
                assert(out[i] == rest[i - 1] && out[j] == rest[j - 1]);
            }
        }
        to_multiset_insert(rest, slot, head);
        assert(syms =~= syms.drop_first().insert(0, head));
        to_multiset_insert(syms.drop_first(), 0, head);
    }
}

/// Puts one more symbol into a vector that is being built in address
/// order: before the first symbol that is not below it.
pub fn insert_in_order(syms: &mut Vec<Sym>, sym: Sym)
    ensures
        models(final(syms)@) == models(old(syms)@).insert(
            slot_for(models(old(syms)@), sym@.place()),
            sym@,
        ),
{
    let place: u64 = sym.vaddr(0);
    let mut i: usize = 0;
    while i < syms.len() && syms[i].vaddr(0) < place
        invariant
            i <= syms.len(),
            place == sym@.place(),
            forall|j: int| 0 <= j < i ==> models(syms@)[j].place() < place,
        decreases syms.len() - i,
    {
        i += 1;
    }
    proof {
        lemma_slot_for(models(syms@), place as int);
        let slot = slot_for(models(syms@), place as int);
        if i < slot {
            assert(models(syms@)[i as int].place() < place);
        }
        if slot < i {
            assert(models(syms@)[slot].place() < place);
        }
    }
    syms.insert(i, sym);
    assert(models(syms@) =~= models(old(syms)@).insert(i as int, sym@));
}

/// Sorts the symbols by ascending address.  Symbols at one address
/// keep the order they came in; where no two symbols are at one
/// address, the addresses rise strictly.
pub fn sort_by_address(syms: &mut Vec<Sym>)
    ensures
        models(final(syms)@) == address_order(models(old(syms)@)),
        ordered(models(final(syms)@)),
        final(syms)@.len() == old(syms)@.len(),
        models(final(syms)@).to_multiset() == models(old(syms)@).to_multiset(),
        distinct_places(models(old(syms)@)) ==> forall|i: int, j: int|
            0 <= i < j < final(syms)@.len() ==> models(final(syms)@)[i].place() < models(
                final(syms)@,
            )[j].place(),
{
    let ghost given = models(syms@);
    let mut out: Vec<Sym> = Vec::new();
    assert(given.skip(given.len() as int) =~= Seq::empty());
    assert(models(out@) =~= Seq::empty());
    while syms.len() > 0
        invariant
            syms@.len() <= given.len(),
            models(syms@) == given.take(syms@.len() as int),
            models(out@) == address_order(given.skip(syms@.len() as int)),
        decreases syms.len(),
    {
        let ghost prior = syms@;
        let ghost before = prior.len() as int;
        let sym = syms.pop().unwrap();
        proof {
            let tail = given.skip(before - 1);
            assert(tail.first() == sym@) by {
                assert(models(prior)[before - 1] == sym@);
                assert(given.take(before)[before - 1] == given[before - 1]);
            }
            assert(tail.drop_first() =~= given.skip(before));
            assert(models(syms@) =~= given.take(before - 1));
        }
        insert_in_order(&mut out, sym);
    }
    proof {
        assert(given.skip(0) =~= given);
        lemma_address_order(given);
        if distinct_places(given) {
            lemma_address_order_strict(given);
        }
    }
    *syms = out;
}

/// Ordering by address keeps distinct addresses distinct, so the
/// result rises strictly.
pub proof fn lemma_address_order_strict(syms: Seq<SymModel>)
    requires
        distinct_places(syms),
    ensures
        forall|i: int, j: int|
            0 <= i < j < syms.len() ==> address_order(syms)[i].place() < address_order(
                syms,
            )[j].place(),
{
    lemma_address_order(syms);
    let sorted = address_order(syms);
    assert forall|i: int, j: int| 0 <= i < j < syms.len() implies sorted[i].place()
        != sorted[j].place() by {
        lemma_same_symbols(syms, sorted[i]);
        lemma_same_symbols(syms, sorted[j]);
        let a = choose|a: int| 0 <= a < syms.len() && syms[a] == sorted[i];
        let b = choose|b: int| 0 <= b < syms.len() && syms[b] == sorted[j];
        if a == b {
            assert(sorted[i] == sorted[j]);
            lemma_twice(sorted, i, j);
            lemma_once(syms, a);
        }
    }
}

/// A symbol is in the ordered sequence exactly if it is in the given
/// one.
pub proof fn lemma_same_symbols(syms: Seq<SymModel>, sym: SymModel)
    ensures
        address_order(syms).contains(sym) <==> syms.contains(sym),
{
    lemma_address_order(syms);
    to_multiset_contains(syms, sym);
    to_multiset_contains(address_order(syms), sym);
}

/// A value at two indices of a sequence occurs at least twice in it.
proof fn lemma_twice(syms: Seq<SymModel>, i: int, j: int)
    requires
        0 <= i < j < syms.len(),
        syms[i] == syms[j],
    ensures
        syms.to_multiset().count(syms[i]) >= 2,
{
    let without = syms.remove(j);
    to_multiset_remove(syms, j);
    assert(without[i] == syms[i]);
    assert(without.contains(syms[i]));
    to_multiset_contains(without, syms[i]);
}

/// In a sequence of distinct addresses every symbol occurs once.
proof fn lemma_once(syms: Seq<SymModel>, i: int)
    requires
        0 <= i < syms.len(),
        distinct_places(syms),
    ensures
        syms.to_multiset().count(syms[i]) == 1,
{
    assert(syms.no_duplicates()) by {
        assert forall|a: int, b: int| 0 <= a < syms.len() && 0 <= b < syms.len() && a
            != b implies syms[a] != syms[b] by {
            if a < b {
                assert(syms[a].place() != syms[b].place());
            } else {
                assert(syms[b].place() != syms[a].place());
            }
        }
    }
    syms.lemma_multiset_has_no_duplicates();
    assert(syms.contains(syms[i]));
    to_multiset_contains(syms, syms[i]);
}

} // verus!

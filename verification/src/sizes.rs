//! Inferring the size of each symbol from the layout of its
//! neighbours.

use vstd::prelude::*;
use crate::error::{ResolveError, ResolveErrorModel};
use crate::search::{first_index, lemma_first_index, lemma_first_index_stays};
use crate::symbol::{Sym, SymModel, models};

verus! {

/// Whether the symbol at `i` is the last of its section in the
/// sequence: nothing follows it, or what follows is in another
/// section.
pub open spec fn ends_run(syms: Seq<SymModel>, i: int) -> bool {
    i == syms.len() - 1 || syms[i].section != syms[i + 1].section
}

/// How far the symbol at `i` reaches: to the end of its own section
/// where it is the last of it, else to the start of the next symbol.
pub open spec fn extent(syms: Seq<SymModel>, i: int) -> int {
    if ends_run(syms, i) {
        syms[i].section_end() - syms[i].place()
    } else {
        syms[i + 1].place() - syms[i].place()
    }
}

/// Whether the extent of the symbol at an index is negative.
pub open spec fn negative_at(syms: Seq<SymModel>) -> spec_fn(int) -> bool {
    |k: int| extent(syms, k) < 0
}

/// The first of the leading `count` symbols whose extent is negative.
pub open spec fn first_negative(syms: Seq<SymModel>, count: nat) -> Option<int> {
    first_index(count, negative_at(syms))
}

/// [`first_negative`] finds the least index of negative extent, and
/// finds one whenever there is one.
pub proof fn lemma_first_negative(syms: Seq<SymModel>, count: nat)
    ensures
        match first_negative(syms, count) {
            Some(k) => {
                &&& 0 <= k < count
                &&& extent(syms, k) < 0
                &&& forall|j: int| 0 <= j < k ==> extent(syms, j) >= 0
            },
            None => forall|j: int| 0 <= j < count ==> extent(syms, j) >= 0,
        },
{
    lemma_first_index(count, negative_at(syms));
    assert(forall|j: int| negative_at(syms)(j) == (extent(syms, j) < 0));
}

/// Every symbol with its extent as its size.
pub open spec fn sized(syms: Seq<SymModel>) -> Seq<SymModel> {
    Seq::new(syms.len(), |i: int| syms[i].with_size(extent(syms, i) as u64))
}

/// The sizes of a sequence of symbols: each symbol gets its extent,
/// unless some extent is negative, and then the first such symbol is
/// reported.
pub open spec fn infer_model(syms: Seq<SymModel>) -> Result<Seq<SymModel>, ResolveErrorModel> {
    match first_negative(syms, syms.len()) {
        Some(k) => Err(ResolveErrorModel::NegativeSize { symbol: syms[k] }),
        None => Ok(sized(syms)),
    }
}

/// The symbols with the sizes of the leading `done` of them set.
pub open spec fn partly_sized(syms: Seq<SymModel>, done: int) -> Seq<SymModel> {
    Seq::new(
        syms.len(),
        |i: int|
            if i < done {
                syms[i].with_size(extent(syms, i) as u64)
            } else {
                syms[i]
            },
    )
}

/// Sets the size of every symbol from the symbol that follows it.
///
/// A symbol reaches to the start of the next one where that is in the
/// same section, and to the end of its own section otherwise.  The
/// walk stops at the first symbol for which this is negative; the
/// symbols before it then have their sizes, the others are as they
/// were.
pub fn infer_sizes(syms: &mut Vec<Sym>) -> (r: Result<(), ResolveError>)
    ensures
        match infer_model(models(old(syms)@)) {
            Ok(out) => r is Ok && models(final(syms)@) == out,
            Err(e) => r matches Err(x) && x@ == e,
        },
        r is Err ==> models(final(syms)@) == partly_sized(
            models(old(syms)@),
            first_negative(models(old(syms)@), old(syms)@.len())->0,
        ),
        r is Ok ==> forall|i: int|
            0 <= i < old(syms)@.len() ==> #[trigger] models(final(syms)@)[i].size == extent(
                models(old(syms)@),
                i,
            ),
{
    let ghost given = models(syms@);
    let n: usize = syms.len();
    let mut i: usize = 0;
    assert(models(syms@) =~= partly_sized(given, 0));
    while i < n
        invariant
            i <= n,
            n == syms@.len(),
            n == given.len(),
            given == models(old(syms)@),
            models(syms@) == partly_sized(given, i as int),
            first_negative(given, i as nat) is None,
        decreases n - i,
    {
        let here: u64 = syms[i].vaddr(0);
        let last_of_section: bool = i == n - 1 || !(syms[i].section == syms[i + 1].section);
        assert(last_of_section == ends_run(given, i as int)) by {
            assert(models(syms@)[i as int].section == given[i as int].section);
            if i < n - 1 {
                assert(models(syms@)[i + 1].section == given[i + 1].section);
            }
        }
        let until: u64 = if last_of_section {
            syms[i].sectbase as u64 + syms[i].sectsize as u64
        } else {
            syms[i + 1].vaddr(0)
        };
        assert(until - here == extent(given, i as int)) by {
            assert(models(syms@)[i as int].place() == given[i as int].place());
            assert(models(syms@)[i as int].section_end() == given[i as int].section_end());
            if i < n - 1 {
                assert(models(syms@)[i + 1].place() == given[i + 1].place());
            }
        }
        if until < here {
            let symbol = syms[i].clone();
            proof {
                assert(models(syms@)[i as int] == given[i as int]);
                assert(symbol@ == given[i as int]);
                assert(first_negative(given, (i + 1) as nat) == Some(i as int));
                lemma_first_index_stays((i + 1) as nat, n as nat, negative_at(given));
            }
            return Err(ResolveError::NegativeSize { symbol });
        }
        let ghost before = syms@;
        let mut sym = syms[i].clone();
        sym.size = until - here;
        assert(sym@ == given[i as int].with_size(extent(given, i as int) as u64)) by {
            assert(models(before)[i as int] == given[i as int]);
        }
        syms.set(i, sym);
        assert(models(syms@) =~= partly_sized(given, i + 1)) by {
            assert forall|j: int| 0 <= j < n implies models(syms@)[j] == partly_sized(
                given,
                i + 1,
            )[j] by {
                if j != i {
                    assert(syms@[j] == before[j]);
                    assert(models(before)[j] == partly_sized(given, i as int)[j]);
                }
            }
        }
        i += 1;
    }
    proof {
        assert(partly_sized(given, n as int) =~= sized(given));
        lemma_first_negative(given, n as nat);
    }
    Ok(())
}

} // verus!

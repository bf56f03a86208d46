//! Finding the first index at which something holds.

use vstd::prelude::*;

verus! {

/// The least index below `count` at which `hit` holds.
pub open spec fn first_index(count: nat, hit: spec_fn(int) -> bool) -> Option<int>
    decreases count,
{
    if count == 0 {
        None
    } else {
        match first_index((count - 1) as nat, hit) {
            Some(k) => Some(k),
            None => if hit(count - 1) {
                Some(count - 1)
            } else {
                None
            },
        }
    }
}

/// [`first_index`] finds the least index at which `hit` holds, and
/// finds one whenever there is one.
pub proof fn lemma_first_index(count: nat, hit: spec_fn(int) -> bool)
    ensures
        match first_index(count, hit) {
            Some(k) => {
                &&& 0 <= k < count
                &&& hit(k)
                &&& forall|j: int| 0 <= j < k ==> !#[trigger] hit(j)
            },
            None => forall|j: int| 0 <= j < count ==> !#[trigger] hit(j),
        },
    decreases count,
{
    if count > 0 {
        lemma_first_index((count - 1) as nat, hit);
    }
}

/// An index found below `count` is the one found below any greater
/// bound.
pub proof fn lemma_first_index_stays(count: nat, longer: nat, hit: spec_fn(int) -> bool)
    requires
        count <= longer,
        first_index(count, hit) is Some,
    ensures
        first_index(longer, hit) == first_index(count, hit),
    decreases longer,
{
    if count < longer {
        lemma_first_index_stays(count, (longer - 1) as nat, hit);
    }
}

} // verus!

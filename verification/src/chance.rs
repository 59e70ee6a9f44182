use vstd::prelude::*;
use rand::seq::SliceRandom;

verus! {

/// Calls `SliceRandom::choose` of rand on `v` with the thread's generator.
/// It gives `None` for an empty slice and otherwise one of the elements,
/// picked at random: the contract says no more than that the result is one
/// of them.
#[verifier::external_body]
pub(crate) fn pick_one(v: &Vec<usize>) -> (r: Option<usize>)
    ensures
        r is Some == (v@.len() > 0),
        r is Some ==> v@.contains(r->Some_0),
{
    v.choose(&mut rand::thread_rng()).copied()
}

/// Calls `SliceRandom::choose_multiple` of rand on `v` with the thread's
/// generator. It yields the elements at `amount` distinct places of the
/// slice, or at all places where the slice is shorter, in random order: the
/// contract states the length, that each result stands in `v`, and that
/// nothing is repeated where `v` repeats nothing.
#[verifier::external_body]
pub(crate) fn pick_some(v: &Vec<usize>, amount: usize) -> (r: Vec<usize>)
    ensures
        r@.len() == if amount < v@.len() { amount as int } else { v@.len() as int },
        forall|k: int| 0 <= k < r@.len() ==> v@.contains(#[trigger] r@[k]),
        v@.no_duplicates() ==> r@.no_duplicates(),
{
    v.choose_multiple(&mut rand::thread_rng(), amount).copied().collect()
}

} // verus!

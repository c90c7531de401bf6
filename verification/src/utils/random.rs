use rand::seq::SliceRandom;
use rand::Rng;
use vstd::prelude::*;

verus! {

/// Draws an index from `0..upper` with the thread-local generator of the
/// `rand` crate (`Rng::gen_range` on `rand::thread_rng()`).
///
/// Trusted: the drawn value lies below `upper`. Which value comes back is left
/// open, so callers are verified for every possible draw. `gen_range` panics on
/// an empty range, hence the precondition.
#[verifier::external_body]
pub(crate) fn random_below(upper: usize) -> (r: usize)
    requires
        upper > 0,
    ensures
        r < upper,
{
    rand::thread_rng().gen_range(0..upper)
}

/// Shuffles `order` in place with the thread-local generator of the `rand`
/// crate (`SliceRandom::shuffle` on `rand::thread_rng()`).
///
/// Trusted: `shuffle` only swaps entries, so afterwards `order` holds the
/// same values as before, each as often as before. In which order is left
/// open.
#[verifier::external_body]
pub(crate) fn shuffle_in_place(order: &mut Vec<usize>)
    ensures
        final(order)@.to_multiset() == old(order)@.to_multiset(),
{
    order.shuffle(&mut rand::thread_rng());
}

} // verus!

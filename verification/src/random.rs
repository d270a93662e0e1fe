//! Chance, from the `rand` crate.
use rand::seq::SliceRandom;
use vstd::prelude::*;

verus! {

/// A random number, from `rand::random`. Nothing is promised of its value.
#[verifier::external_body]
pub(crate) fn random_usize() -> usize {
    rand::random::<usize>()
}

/// Shuffles `v` in place with `rand`'s `SliceRandom::shuffle` and the thread
/// generator. The result is a permutation of the input: `shuffle` only
/// swaps elements. Which permutation is left open.
#[verifier::external_body]
pub(crate) fn shuffle<T>(v: &mut Vec<T>)
    ensures
        final(v)@.to_multiset() == old(v)@.to_multiset(),
        final(v)@.len() == old(v)@.len(),
{
    v.shuffle(&mut rand::thread_rng());
}

} // verus!

//! Random choices, made with the `rand` crate.
//!
//! Nothing in this file is proved, and nothing is said of a choice but the range
//! it lies in: two calls with the same arguments may differ.

use vstd::prelude::*;

verus! {

/// `Rng::gen_range` on the thread-local generator, with the range `0..bound`: a
/// number below `bound`. An empty range would panic, so `bound` is not zero.
#[verifier::external_body]
pub(crate) fn random_below(bound: u32) -> (chosen: u32)
    requires
        bound > 0,
    ensures
        chosen < bound,
{
    rand::Rng::gen_range(&mut rand::thread_rng(), 0..bound)
}

/// `IteratorRandom::choose` on the thread-local generator, with the range
/// `first..=last`: one of its numbers, or none if and only if the range is empty.
#[verifier::external_body]
pub(crate) fn random_between(first: u32, last: u32) -> (chosen: Option<u32>)
    ensures
        chosen is Some <==> first <= last,
        chosen matches Some(number) ==> first <= number <= last,
{
    rand::seq::IteratorRandom::choose(first..=last, &mut rand::thread_rng())
}

} // verus!

//! Weights of sets of validators, and quorums.
//!
//! A set of validators is given by a predicate on positions in the validator set.
//! The faulty validators count towards every quorum.

use vstd::prelude::*;
use crate::consensus::types::Weight;

verus! {

/// The weight of the validators among the first `n` that are in `set`.
pub open spec fn weight_upto(weights: Seq<Weight>, set: Set<int>, n: int) -> nat
    decreases n,
{
    if n <= 0 {
        0
    } else {
        weight_upto(weights, set, n - 1) + if set.contains(n - 1) {
            weights[n - 1] as nat
        } else {
            0
        }
    }
}

/// The weight of the validators in `set`.
pub open spec fn weight_of(weights: Seq<Weight>, set: Set<int>) -> nat {
    weight_upto(weights, set, weights.len() as int)
}

/// The weight of all validators.
pub open spec fn total_weight(weights: Seq<Weight>) -> nat {
    weight_of(weights, Set::full())
}

/// The greatest weight such that two sets of validators of this weight can have only
/// faulty validators in common, if the weight of those is at most `ftt`.
pub open spec fn spec_quorum_threshold(total: nat, ftt: nat) -> nat {
    total / 2 + ftt / 2 + if total % 2 == 1 && ftt % 2 == 1 {
        1nat
    } else {
        0nat
    }
}

/// Whether the validators in `set`, together with all faulty validators, are a
/// quorum: their weight is strictly above the quorum threshold.
pub open spec fn spec_is_quorum(weights: Seq<Weight>, faulty: Set<int>, ftt: nat, set: Set<int>) -> bool {
    weight_of(weights, set.union(faulty)) > spec_quorum_threshold(total_weight(weights), ftt)
}

/// A set weighs no more than a set that includes it.
pub proof fn lemma_weight_monotone(weights: Seq<Weight>, small: Set<int>, large: Set<int>, n: int)
    requires
        forall|i: int| 0 <= i < n && small.contains(i) ==> large.contains(i),
    ensures
        weight_upto(weights, small, n) <= weight_upto(weights, large, n),
    decreases n,
{
    if n > 0 {
        lemma_weight_monotone(weights, small, large, n - 1);
    }
}

/// The weights of two sets add up to those of their union and their intersection.
pub proof fn lemma_weight_union_intersect(weights: Seq<Weight>, a: Set<int>, b: Set<int>, n: int)
    ensures
        weight_upto(weights, a, n) + weight_upto(weights, b, n) == weight_upto(
            weights,
            a.union(b),
            n,
        ) + weight_upto(weights, a.intersect(b), n),
    decreases n,
{
    if n > 0 {
        lemma_weight_union_intersect(weights, a, b, n - 1);
    }
}

/// No set weighs more than all validators together.
pub proof fn lemma_weight_at_most_total(weights: Seq<Weight>, set: Set<int>)
    ensures
        weight_of(weights, set) <= total_weight(weights),
{
    lemma_weight_monotone(weights, set, Set::full(), weights.len() as int);
}

/// Quorum arithmetic: the validators that two quorums have in common, faulty ones
/// included, weigh more than the fault tolerance threshold.
pub proof fn lemma_quorums_intersect(
    weights: Seq<Weight>,
    faulty: Set<int>,
    ftt: nat,
    first: Set<int>,
    second: Set<int>,
)
    requires
        spec_is_quorum(weights, faulty, ftt, first),
        spec_is_quorum(weights, faulty, ftt, second),
    ensures
        weight_of(weights, first.union(faulty).intersect(second.union(faulty))) > ftt,
{
    let a = first.union(faulty);
    let b = second.union(faulty);
    let n = weights.len() as int;
    lemma_weight_union_intersect(weights, a, b, n);
    lemma_weight_at_most_total(weights, a.union(b));
    let total = total_weight(weights);
    let threshold = spec_quorum_threshold(total, ftt);
    assert(2 * threshold + 1 >= total + ftt) by {
        assert(total == 2 * (total / 2) + total % 2);
        assert(ftt == 2 * (ftt / 2) + ftt % 2);
    }
}

/// Quorum arithmetic, for sets as the state holds them: if the weight of the faulty
/// validators is within the fault tolerance threshold, two quorums have a validator
/// in common that is not faulty.
pub proof fn lemma_quorums_share_honest_validator(
    weights: Seq<Weight>,
    faulty: Set<int>,
    ftt: nat,
    first: Set<int>,
    second: Set<int>,
)
    requires
        spec_is_quorum(weights, faulty, ftt, first),
        spec_is_quorum(weights, faulty, ftt, second),
        weight_of(weights, faulty) <= ftt,
    ensures
        exists|i: int|
            0 <= i < weights.len() && first.contains(i) && second.contains(i) && !faulty.contains(
                i,
            ),
{
    lemma_quorums_intersect(weights, faulty, ftt, first, second);
    let common = first.union(faulty).intersect(second.union(faulty));
    let n = weights.len() as int;
    if !exists|i: int|
        0 <= i < weights.len() && first.contains(i) && second.contains(i) && !faulty.contains(i) {
        assert forall|i: int| 0 <= i < n && common.contains(i) implies faulty.contains(i) by {
            if !faulty.contains(i) {
                assert(first.contains(i) && second.contains(i));
            }
        }
        lemma_weight_monotone(weights, common, faulty, n);
    }
}

} // verus!

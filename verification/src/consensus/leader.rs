//! The leader sequence: which validator may propose in which round.
//!
//! The sequence is determined by the seed of the era and the weights of the
//! validators that may propose. Every round draws one of the weight units, and the
//! validator that owns the unit leads the round.

use vstd::prelude::*;
use crate::consensus::types::{ValidatorIndex, Weight};

verus! {

/// The odd multiplier that scatters consecutive rounds over the weight units.
pub const SCATTER: u64 = 0x9e37_79b9_7f4a_7c15;

/// The leaders of all rounds of an era.
#[derive(Debug)]
pub struct LeaderSequence {
    /// The seed of the era.
    pub seed: u64,
    /// For each validator, the weight of the proposers up to and including it.
    pub cumulative: Vec<u64>,
}

/// The weight of the proposers among the first `n` validators.
pub open spec fn proposer_weight(weights: Seq<Weight>, can_propose: Seq<bool>, n: int) -> nat
    decreases n,
{
    if n <= 0 {
        0
    } else {
        proposer_weight(weights, can_propose, n - 1) + if can_propose[n - 1] {
            weights[n - 1] as nat
        } else {
            0
        }
    }
}

impl LeaderSequence {
    /// The invariant of a leader sequence: there is a validator for every weight
    /// unit, and at least one unit.
    pub open spec fn wf(&self) -> bool {
        &&& 1 <= self.cumulative.len() <= u32::MAX
        &&& forall|i: int, j: int|
            0 <= i <= j < self.cumulative.len() ==> self.cumulative[i] <= self.cumulative[j]
        &&& self.cumulative[self.cumulative.len() - 1] >= 1
    }

    /// The number of weight units.
    pub open spec fn total(&self) -> u64 {
        self.cumulative[self.cumulative.len() - 1]
    }

    /// The weight unit that the round draws, counted from one.
    pub open spec fn ticket(&self, slot: u64) -> u64 {
        (1 + self.seed.wrapping_add(slot).wrapping_mul(SCATTER) % self.total()) as u64
    }

    /// The first validator from position `i` on that owns the unit `ticket`.
    pub open spec fn owner(&self, ticket: u64, i: int) -> int
        decreases self.cumulative.len() - i,
    {
        if i + 1 >= self.cumulative.len() || self.cumulative[i] >= ticket {
            i
        } else {
            self.owner(ticket, i + 1)
        }
    }

    /// The leader of the round.
    pub open spec fn spec_leader(&self, slot: u64) -> ValidatorIndex {
        ValidatorIndex(self.owner(self.ticket(slot), 0) as u32)
    }

    /// The owner of a unit is a validator, and the unit is among its own.
    pub proof fn lemma_owner(&self, ticket: u64, i: int)
        requires
            self.wf(),
            0 <= i < self.cumulative.len(),
            1 <= ticket <= self.total(),
            i > 0 ==> self.cumulative[i - 1] < ticket,
        ensures
            i <= self.owner(ticket, i) < self.cumulative.len(),
            self.cumulative[self.owner(ticket, i)] >= ticket,
            self.owner(ticket, i) > 0 ==> self.cumulative[self.owner(ticket, i) - 1] < ticket,
        decreases self.cumulative.len() - i,
    {
        if !(i + 1 >= self.cumulative.len() || self.cumulative[i] >= ticket) {
            self.lemma_owner(ticket, i + 1);
        }
    }

    /// The leader of a round is a validator.
    pub proof fn lemma_leader_in_range(&self, slot: u64)
        requires
            self.wf(),
        ensures
            self.spec_leader(slot).0 < self.cumulative.len(),
    {
        self.lemma_owner(self.ticket(slot), 0);
    }

    /// Creates the leader sequence of an era. There is none if the two lists differ
    /// in length, if there are no validators or more than `u32::MAX`, if the weights
    /// of the proposers add up to more than `u64::MAX`, or if they add up to zero.
    pub fn new(seed: u64, weights: &Vec<Weight>, can_propose: &Vec<bool>) -> (res: Option<
        LeaderSequence,
    >)
        ensures
            res is Some <==> {
                &&& weights.len() == can_propose.len()
                &&& 1 <= weights.len() <= u32::MAX
                &&& 1 <= proposer_weight(weights@, can_propose@, weights.len() as int) <= u64::MAX
            },
            res matches Some(sequence) ==> {
                &&& sequence.wf()
                &&& sequence.seed == seed
                &&& sequence.cumulative.len() == weights.len()
                &&& forall|i: int|
                    0 <= i < weights.len() ==> #[trigger] sequence.cumulative[i]
                        == proposer_weight(weights@, can_propose@, i + 1)
            },
    {
        let count = weights.len();
        if count != can_propose.len() || count == 0 || count > u32::MAX as usize {
            return None;
        }
        let mut cumulative: Vec<u64> = Vec::new();
        let mut sum: u64 = 0;
        let mut i: usize = 0;
        while i < count
            invariant
                i <= count,
                count == weights.len(),
                count == can_propose.len(),
                cumulative.len() == i,
                sum == proposer_weight(weights@, can_propose@, i as int),
                forall|k: int|
                    0 <= k < i ==> #[trigger] cumulative[k] == proposer_weight(
                        weights@,
                        can_propose@,
                        k + 1,
                    ),
            decreases count - i,
        {
            if can_propose[i] {
                sum = match sum.checked_add(weights[i]) {
                    Some(sum) => sum,
                    None => {
                        proof {
                            lemma_proposer_weight_monotone(
                                weights@,
                                can_propose@,
                                i + 1,
                                count as int,
                            );
                        }
                        return None;
                    },
                };
            }
            cumulative.push(sum);
            i += 1;
        }
        if sum == 0 {
            return None;
        }
        proof {
            assert forall|a: int, b: int| 0 <= a <= b < cumulative.len() implies cumulative[a]
                <= cumulative[b] by {
                lemma_proposer_weight_monotone(weights@, can_propose@, a + 1, b + 1);
            }
        }
        Some(LeaderSequence { seed, cumulative })
    }

    /// Returns the leader of the round.
    pub fn leader(&self, slot: u64) -> (leader: ValidatorIndex)
        requires
            self.wf(),
        ensures
            leader == self.spec_leader(slot),
            leader.0 < self.cumulative.len(),
    {
        let total = self.cumulative[self.cumulative.len() - 1];
        let ticket = 1 + self.seed.wrapping_add(slot).wrapping_mul(SCATTER) % total;
        let mut i: usize = 0;
        proof {
            self.lemma_owner(ticket, 0);
        }
        while i + 1 < self.cumulative.len() && self.cumulative[i] < ticket
            invariant
                self.wf(),
                i < self.cumulative.len(),
                self.owner(ticket, 0) == self.owner(ticket, i as int),
            decreases self.cumulative.len() - i,
        {
            i += 1;
        }
        ValidatorIndex(i as u32)
    }
}

/// The weight of the proposers among more validators is no smaller.
pub proof fn lemma_proposer_weight_monotone(
    weights: Seq<Weight>,
    can_propose: Seq<bool>,
    few: int,
    many: int,
)
    requires
        few <= many,
    ensures
        proposer_weight(weights, can_propose, few) <= proposer_weight(weights, can_propose, many),
    decreases many - few,
{
    if few < many {
        lemma_proposer_weight_monotone(weights, can_propose, few, many - 1);
    }
}

} // verus!

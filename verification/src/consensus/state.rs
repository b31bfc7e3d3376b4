//! The state of the protocol in one era, its invariant, and what can be read off it.

use vstd::prelude::*;
use crate::consensus::bitfield::present;
use crate::consensus::context::Context;
use crate::consensus::leader::LeaderSequence;
use crate::consensus::round::{Round, RoundOutcome};
use crate::consensus::types::{
    Message, NodeId, Proposal, ProposedBlock, RoundId, Signature, TimeDiff, Timestamp, ValidatorId,
    ValidatorIndex, Weight,
};
use crate::consensus::weights::{
    lemma_weight_at_most_total, spec_is_quorum, spec_quorum_threshold, total_weight, weight_of,
    weight_upto,
};

verus! {

/// A reason for a validator to be counted as faulty.
///
/// `Banned` is fixed from the beginning of the era. `Indirect` can be replaced with
/// `Direct` evidence, which has the same effect but does not rest on another era.
#[derive(Copy, Clone, Debug, PartialEq, Eq, Structural)]
pub enum Fault {
    /// The validator was known to be malicious when the era began.
    Banned,
    /// Two contradictory messages that the validator signed in one round.
    Direct(Message, Message),
    /// The validator is known to be faulty, by evidence that another era holds.
    Indirect,
}

impl Fault {
    /// Whether this is direct evidence.
    pub open spec fn spec_is_direct(&self) -> bool {
        *self is Direct
    }

    /// Whether this is direct evidence.
    #[verifier::when_used_as_spec(spec_is_direct)]
    pub fn is_direct(&self) -> (res: bool)
        ensures
            res == self.spec_is_direct(),
    {
        match self {
            Fault::Direct(_, _) => true,
            _ => false,
        }
    }

    /// Whether the validator was banned.
    pub open spec fn spec_is_banned(&self) -> bool {
        *self is Banned
    }

    /// Whether the validator was banned.
    #[verifier::when_used_as_spec(spec_is_banned)]
    pub fn is_banned(&self) -> (res: bool)
        ensures
            res == self.spec_is_banned(),
    {
        match self {
            Fault::Banned => true,
            _ => false,
        }
    }
}

/// A validator of the era.
#[derive(Copy, Clone, Debug, PartialEq, Eq, Structural)]
pub struct Validator {
    /// The public identity of the validator.
    pub id: ValidatorId,
    /// Its voting weight.
    pub weight: Weight,
    /// Whether it was known to be malicious when the era began.
    pub banned: bool,
    /// Whether it may lead a round.
    pub can_propose: bool,
}

/// The numerical parameters of an era.
#[derive(Copy, Clone, Debug, PartialEq, Eq, Structural)]
pub struct Params {
    /// When the era starts.
    pub start_timestamp: Timestamp,
    /// The earliest time at which the last block of the era may be proposed.
    pub end_timestamp: Timestamp,
    /// The least number of blocks of the era.
    pub end_height: u64,
    /// The shortest length of a round.
    pub min_round_length: TimeDiff,
}

/// The settings of the local node.
#[derive(Copy, Clone, Debug, PartialEq, Eq, Structural)]
pub struct Config {
    /// How far in the future the timestamp of a proposal may lie.
    pub pending_vertex_timeout: TimeDiff,
    /// How often the state is synchronized with a random peer, if at all.
    pub request_state_interval: Option<TimeDiff>,
    /// How often the participation of the validators is reported, if at all.
    pub log_participation_interval: Option<TimeDiff>,
}

/// A proposal that waits for the proposal of its parent round to be accepted.
#[derive(Copy, Clone, Debug, PartialEq, Eq, Structural)]
pub struct WaitingProposal {
    /// The round whose accepted proposal is waited for.
    pub parent_round_id: RoundId,
    /// The proposal.
    pub proposal: Proposal,
    /// The round of the proposal.
    pub round_id: RoundId,
    /// The peer that sent it.
    pub sender: NodeId,
    /// The signature of the leader.
    pub signature: Signature,
}

/// A proposal whose block is being validated.
#[derive(Debug)]
pub struct PendingValidation {
    /// The block and what it builds on.
    pub proposed_block: ProposedBlock,
    /// The round of the proposal.
    pub round_id: RoundId,
    /// The parent round of the proposal.
    pub maybe_parent_round_id: Option<RoundId>,
    /// The peer that sent it.
    pub sender: NodeId,
    /// The signature of the leader.
    pub signature: Signature,
}

/// The state of the protocol in one era.
pub struct SimpleConsensus<C: Context> {
    /// The numerical parameters of the era.
    pub params: Params,
    /// Identifies this instance of the protocol.
    pub instance_id: u64,
    /// How long a round waits for a proposal before the local validator votes to
    /// skip it.
    pub proposal_timeout: TimeDiff,
    /// The validators of the era.
    pub validators: Vec<Validator>,
    /// The weight of all validators.
    pub total_weight: Weight,
    /// If this node is a validator: its position and its secret.
    pub active_validator: Option<(ValidatorIndex, C::ValidatorSecret)>,
    /// Whether the era has ended and is kept only for the evidence it holds.
    pub evidence_only: bool,
    /// Proposals whose parent is not accepted yet, in the order of their arrival.
    pub proposals_waiting_for_parent: Vec<WaitingProposal>,
    /// Proposals whose blocks are being validated, in the order of their arrival.
    pub proposals_waiting_for_validation: Vec<PendingValidation>,
    /// If a block was requested from the proposer: the round of the proposal to be
    /// and its parent round.
    pub pending_proposal_round_ids: Option<(RoundId, Option<RoundId>)>,
    /// The leaders of the rounds.
    pub leader_sequence: LeaderSequence,
    /// The rounds that have been started, by round id.
    pub rounds: Vec<Option<Round>>,
    /// The faulty validators and the kind of their fault, by validator.
    pub faults: Vec<Option<Fault>>,
    /// The weight of faulty validators up to which the protocol is safe.
    pub ftt: Weight,
    /// The settings of the local node.
    pub config: Config,
    /// The voting weights, by validator.
    pub weights: Vec<Weight>,
    /// The lowest round that could still be finalized.
    pub first_non_finalized_round_id: RoundId,
    /// When the current round times out.
    pub current_timeout: Timestamp,
    /// Whether anything was added to the state of late.
    pub progress_detected: bool,
}

impl<C: Context> SimpleConsensus<C> {
    /// The number of validators.
    pub open spec fn count(&self) -> int {
        self.weights.len() as int
    }

    /// The round with the given id, if it has been started.
    pub open spec fn round_at(&self, round_id: int) -> Option<Round> {
        if 0 <= round_id < self.rounds.len() {
            self.rounds[round_id]
        } else {
            None
        }
    }

    /// The faulty validators.
    pub open spec fn faulty(&self) -> Set<int> {
        present(self.faults@)
    }

    /// The weight of the faulty validators.
    pub open spec fn spec_faulty_weight(&self) -> nat {
        weight_of(self.weights@, self.faulty())
    }

    /// The threshold above which a weight is that of a quorum.
    pub open spec fn spec_quorum_threshold(&self) -> nat {
        spec_quorum_threshold(total_weight(self.weights@), self.ftt as nat)
    }

    /// Whether the validators with a signature in the map, together with all faulty
    /// validators, are a quorum.
    pub open spec fn spec_is_quorum(&self, signatures: Seq<Option<Signature>>) -> bool {
        spec_is_quorum(self.weights@, self.faulty(), self.ftt as nat, present(signatures))
    }

    /// Whether the round can be skipped: a quorum has voted to skip it.
    pub open spec fn spec_is_skippable_round(&self, round_id: int) -> bool {
        match self.round_at(round_id) {
            Some(round) => round.is_skippable(),
            None => false,
        }
    }

    /// The height of the proposal accepted in the round, if one is.
    pub open spec fn accepted_height(&self, round_id: int) -> Option<u64> {
        match self.round_at(round_id) {
            Some(round) => round.outcome.accepted_proposal_height,
            None => None,
        }
    }

    /// The leader of the round.
    pub open spec fn spec_leader(&self, round_id: RoundId) -> ValidatorIndex {
        self.leader_sequence.spec_leader(round_id as u64)
    }

    /// The invariant of the parts of the state that do not change in an era, and
    /// of the shape of the rest.
    pub open spec fn wf_basic(&self) -> bool {
        &&& 1 <= self.weights.len() <= u32::MAX
        &&& self.validators.len() == self.weights.len()
        &&& self.faults.len() == self.weights.len()
        &&& forall|i: int|
            0 <= i < self.weights.len() ==> (#[trigger] self.validators[i]).weight
                == self.weights[i]
        &&& self.total_weight == total_weight(self.weights@)
        &&& self.rounds.len() <= u32::MAX
        &&& forall|r: int|
            0 <= r < self.rounds.len() && (#[trigger] self.rounds[r]) is Some
                ==> self.rounds[r].unwrap().wf(self.count())
        &&& self.leader_sequence.wf()
        &&& self.leader_sequence.cumulative.len() == self.weights.len()
        &&& self.active_validator matches Some((index, _)) ==> index.0 < self.weights.len()
    }

    /// After the last round with an accepted proposal among the first `k`: the round
    /// that follows it, or round zero if there is none.
    pub open spec fn after_last_accepted(&self, k: int) -> int
        decreases k,
    {
        if k <= 0 {
            0
        } else if self.accepted_height(k - 1) is Some {
            k
        } else {
            self.after_last_accepted(k - 1)
        }
    }

    /// The first round from `round_id` on that is not skippable.
    pub open spec fn first_unskippable(&self, round_id: int) -> int
        decreases self.rounds.len() - round_id,
    {
        if round_id >= self.rounds.len() || !self.spec_is_skippable_round(round_id) {
            round_id
        } else {
            self.first_unskippable(round_id + 1)
        }
    }

    /// The current round: the first round after the last one with an accepted
    /// proposal that is not skippable.
    pub open spec fn spec_current_round(&self) -> RoundId {
        self.first_unskippable(self.after_last_accepted(self.rounds.len() as int)) as u32
    }

    /// After the last round with an accepted proposal comes a round that has been
    /// started, or the first that has not; no round from there on holds an accepted
    /// proposal.
    pub proof fn lemma_after_last_accepted(&self, k: int)
        requires
            0 <= k,
        ensures
            0 <= self.after_last_accepted(k) <= k,
            forall|q: int|
                self.after_last_accepted(k) <= q < k ==> (#[trigger] self.accepted_height(q)) is None,
            self.after_last_accepted(k) > 0 ==> self.accepted_height(self.after_last_accepted(k) - 1)
                is Some,
        decreases k,
    {
        if k > 0 && self.accepted_height(k - 1) is None {
            self.lemma_after_last_accepted(k - 1);
        }
    }

    /// The first round from `k` on that is not skippable is not skippable, and every
    /// round from `k` up to it is.
    pub proof fn lemma_first_unskippable(&self, k: int)
        requires
            0 <= k,
        ensures
            k <= self.first_unskippable(k),
            !self.spec_is_skippable_round(self.first_unskippable(k)),
            forall|q: int|
                k <= q < self.first_unskippable(k) ==> #[trigger] self.spec_is_skippable_round(q),
        decreases self.rounds.len() - k,
    {
        if !(k >= self.rounds.len() || !self.spec_is_skippable_round(k)) {
            self.lemma_first_unskippable(k + 1);
        }
    }

    /// Where a round without an accepted proposal becomes skippable, and nothing
    /// else changes in what is accepted and what is skippable, the current round
    /// lies beyond that round if and only if it had been reached.
    pub proof fn lemma_current_round_after_skip(&self, after: &SimpleConsensus<C>, round_id: int)
        requires
            self.rounds.len() <= after.rounds.len() <= u32::MAX,
            0 <= round_id < after.rounds.len(),
            forall|q: int| #[trigger] after.accepted_height(q) == self.accepted_height(q),
            forall|q: int|
                q != round_id ==> #[trigger] after.spec_is_skippable_round(q)
                    == self.spec_is_skippable_round(q),
            after.spec_is_skippable_round(round_id),
            !self.spec_is_skippable_round(round_id),
            self.accepted_height(round_id) is None,
        ensures
            (after.spec_current_round() > round_id) == (self.spec_current_round() >= round_id),
    {
        let old_len = self.rounds.len() as int;
        let new_len = after.rounds.len() as int;
        self.lemma_after_last_accepted(old_len);
        after.lemma_after_last_accepted(new_len);
        let start = self.after_last_accepted(old_len);
        let new_start = after.after_last_accepted(new_len);
        assert(new_start == start) by {
            if new_start > 0 {
                assert(self.accepted_height(new_start - 1) is Some);
                assert(new_start - 1 < old_len);
            }
            if start > 0 {
                assert(after.accepted_height(start - 1) is Some);
            }
            if new_start < start {
                assert(after.accepted_height(start - 1) is None);
            }
            if start < new_start {
                assert(self.accepted_height(new_start - 1) is None);
            }
        }
        self.lemma_first_unskippable(start);
        after.lemma_first_unskippable(start);
        let before = self.first_unskippable(start);
        let then = after.first_unskippable(start);
        assert(before <= old_len && then <= new_len) by {
            if before > old_len {
                assert(self.spec_is_skippable_round(before - 1));
            }
            if then > new_len {
                assert(after.spec_is_skippable_round(then - 1));
            }
        }
        if start <= round_id {
            if before > round_id {
                assert(self.spec_is_skippable_round(round_id));
            }
            if then > round_id && before < round_id {
                assert(after.spec_is_skippable_round(before));
            }
            if then < round_id && before == round_id {
                assert(self.spec_is_skippable_round(then));
            }
            assert(then != round_id);
        }
    }

    /// Returns the round with the given id, if it has been started.
    pub fn round(&self, round_id: RoundId) -> (round: Option<&Round>)
        ensures
            match round {
                Some(round) => self.round_at(round_id as int) == Some(*round),
                None => self.round_at(round_id as int) is None,
            },
    {
        let index = round_id as usize;
        if index < self.rounds.len() {
            self.rounds[index].as_ref()
        } else {
            None
        }
    }

    /// Starts the round with the given id, unless it has been started. The last id
    /// there is stands for no round.
    pub fn ensure_round(&mut self, round_id: RoundId)
        requires
            old(self).wf_basic(),
            round_id < u32::MAX,
        ensures
            final(self).wf_basic(),
            *final(self) == (SimpleConsensus { rounds: final(self).rounds, ..*old(self) }),
            final(self).rounds.len() == if old(self).rounds.len() > round_id {
                old(self).rounds.len() as int
            } else {
                round_id + 1
            },
            final(self).round_at(round_id as int) is Some,
            old(self).round_at(round_id as int) is Some ==> final(self).rounds@ == old(self).rounds@,
            old(self).round_at(round_id as int) is None ==> {
                let round = final(self).round_at(round_id as int).unwrap();
                &&& round.proposals.len() == 0
                &&& round.echos.len() == 0
                &&& round.outcome == RoundOutcome::undecided()
                &&& forall|v: int| 0 <= v < old(self).count() ==> round.votes_true@[v] is None
                &&& forall|v: int| 0 <= v < old(self).count() ==> round.votes_false@[v] is None
            },
            forall|r: int|
                r != round_id ==> #[trigger] final(self).round_at(r) == old(self).round_at(r),
    {
        let index = round_id as usize;
        while self.rounds.len() <= index
            invariant
                index == round_id,
                round_id < u32::MAX,
                self.wf_basic(),
                *self == (SimpleConsensus { rounds: self.rounds, ..*old(self) }),
                old(self).rounds.len() <= self.rounds.len(),
                self.rounds.len() <= index + 1 || self.rounds.len() == old(self).rounds.len(),
                forall|r: int|
                    0 <= r < old(self).rounds.len() ==> #[trigger] self.rounds[r] == old(self).rounds[r],
                forall|r: int|
                    old(self).rounds.len() <= r < self.rounds.len() ==> (
                    #[trigger] self.rounds[r]) is None,
            decreases index + 1 - self.rounds.len(),
        {
            self.rounds.push(None);
        }
        if self.rounds[index].is_none() {
            self.rounds[index] = Some(Round::new(self.weights.len()));
        } else {
            assert(self.rounds@ =~= old(self).rounds@);
        }
    }

    /// Returns the weight of all validators.
    pub fn total_weight(&self) -> (total: Weight)
        requires
            self.wf_basic(),
        ensures
            total == total_weight(self.weights@),
    {
        self.total_weight
    }

    /// Returns the sum of the weights of the validators for which the map holds a
    /// value.
    pub fn sum_weights<T>(&self, map: &Vec<Option<T>>) -> (sum: Weight)
        requires
            self.wf_basic(),
            map.len() == self.weights.len(),
        ensures
            sum == weight_of(self.weights@, present(map@)),
    {
        let mut sum: u64 = 0;
        let mut i: usize = 0;
        proof {
            lemma_weight_at_most_total(self.weights@, present(map@));
        }
        while i < self.weights.len()
            invariant
                i <= self.weights.len(),
                map.len() == self.weights.len(),
                sum == weight_upto(self.weights@, present(map@), i as int),
                weight_of(self.weights@, present(map@)) <= u64::MAX,
            decreases self.weights.len() - i,
        {
            proof {
                lemma_weight_prefix(self.weights@, present(map@), i + 1);
            }
            if map[i].is_some() {
                sum = sum + self.weights[i];
            }
            i += 1;
        }
        sum
    }

    /// Returns the total weight of the validators known to be faulty.
    pub fn faulty_weight(&self) -> (sum: Weight)
        requires
            self.wf_basic(),
        ensures
            sum == self.spec_faulty_weight(),
    {
        self.sum_weights(&self.faults)
    }

    /// Returns the greatest weight such that two sets of validators of this weight
    /// can have only faulty validators in common, that is, validators of a weight
    /// of at most `ftt`. A quorum is any set that weighs strictly more, so that any
    /// two quorums have a correct validator in common.
    pub fn quorum_threshold(&self) -> (threshold: Weight)
        requires
            self.wf_basic(),
        ensures
            threshold == self.spec_quorum_threshold(),
    {
        let total = self.total_weight;
        let ftt = self.ftt;
        let both_odd: u64 = if total % 2 == 1 && ftt % 2 == 1 {
            1
        } else {
            0
        };
        total / 2 + ftt / 2 + both_odd
    }

    /// Returns `true` if the validators with a signature in the map, together with
    /// all faulty validators, form a quorum.
    pub fn is_quorum(&self, signatures: &Vec<Option<Signature>>) -> (res: bool)
        requires
            self.wf_basic(),
            signatures.len() == self.weights.len(),
        ensures
            res == self.spec_is_quorum(signatures@),
    {
        let threshold = self.quorum_threshold();
        let ghost set = present(signatures@).union(self.faulty());
        let mut sum: u64 = 0;
        let mut i: usize = 0;
        proof {
            lemma_weight_at_most_total(self.weights@, set);
        }
        while i < self.weights.len()
            invariant
                i <= self.weights.len(),
                signatures.len() == self.weights.len(),
                self.faults.len() == self.weights.len(),
                set == present(signatures@).union(self.faulty()),
                sum == weight_upto(self.weights@, set, i as int),
                weight_of(self.weights@, set) <= u64::MAX,
            decreases self.weights.len() - i,
        {
            proof {
                lemma_weight_prefix(self.weights@, set, i + 1);
            }
            if signatures[i].is_some() || self.faults[i].is_some() {
                sum = sum + self.weights[i];
            }
            i += 1;
        }
        sum > threshold
    }

    /// Returns the leader of the round.
    pub fn leader(&self, round_id: RoundId) -> (leader: ValidatorIndex)
        requires
            self.wf_basic(),
        ensures
            leader == self.spec_leader(round_id),
            leader.0 < self.weights.len(),
    {
        self.leader_sequence.leader(round_id as u64)
    }

    /// Returns whether the round can be skipped: there is a quorum of votes to skip
    /// it.
    pub fn is_skippable_round(&self, round_id: RoundId) -> (res: bool)
        ensures
            res == self.spec_is_skippable_round(round_id as int),
    {
        match self.round(round_id) {
            Some(round) => match round.outcome.quorum_votes {
                Some(vote) => !vote,
                None => false,
            },
            None => false,
        }
    }

    /// Returns the current round: the first round after the last one with an
    /// accepted proposal that is not skippable.
    pub fn current_round(&self) -> (round_id: RoundId)
        requires
            self.wf_basic(),
        ensures
            round_id == self.spec_current_round(),
    {
        let mut k: usize = self.rounds.len();
        while k > 0 && !self.has_accepted_at(k - 1)
            invariant
                k <= self.rounds.len(),
                self.after_last_accepted(self.rounds.len() as int) == self.after_last_accepted(
                    k as int,
                ),
            decreases k,
        {
            k -= 1;
        }
        let ghost start = k;
        while k < self.rounds.len() && self.is_skippable_at(k)
            invariant
                start <= k <= self.rounds.len(),
                self.rounds.len() <= u32::MAX,
                self.first_unskippable(start as int) == self.first_unskippable(k as int),
            decreases self.rounds.len() - k,
        {
            k += 1;
        }
        k as u32
    }

    /// Whether the round at the position has an accepted proposal.
    fn has_accepted_at(&self, index: usize) -> (res: bool)
        requires
            index < self.rounds.len(),
        ensures
            res == self.accepted_height(index as int) is Some,
    {
        match &self.rounds[index] {
            Some(round) => round.has_accepted_proposal(),
            None => false,
        }
    }

    /// Whether the round at the position is skippable.
    fn is_skippable_at(&self, index: usize) -> (res: bool)
        requires
            index < self.rounds.len(),
        ensures
            res == self.spec_is_skippable_round(index as int),
    {
        match &self.rounds[index] {
            Some(round) => match round.outcome.quorum_votes {
                Some(vote) => !vote,
                None => false,
            },
            None => false,
        }
    }
}

/// The weight among the first `n` validators is no more than the weight among all.
pub proof fn lemma_weight_prefix(weights: Seq<Weight>, set: Set<int>, n: int)
    requires
        n <= weights.len(),
    ensures
        weight_upto(weights, set, n) <= weight_of(weights, set),
    decreases weights.len() - n,
{
    if n < weights.len() {
        lemma_weight_prefix(weights, set, n + 1);
    }
}

} // verus!

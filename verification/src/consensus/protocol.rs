//! The protocol proper: what a proposal, an echo, a vote and a fault do to the state.

use vstd::prelude::*;
use crate::consensus::bitfield::present;
use crate::consensus::context::{Context, ValidatorSecret};
use crate::consensus::round::{signed_by_other, Round};
use crate::consensus::state::{Fault, PendingValidation, SimpleConsensus, WaitingProposal};
use crate::consensus::types::{
    begins_with, calm, effects, extend_outcomes, lemma_begins_with_contains,
    lemma_begins_with_first, lemma_begins_with_itself, lemma_begins_with_more, lemma_calm_after,
    lemma_calm_empty, lemma_calm_push, BlockContext, BlockContextView, ConsensusValue, Content,
    Digest, Effect, Message, NodeId, Proposal, ProposedBlock, ProposedBlockView, ProtocolOutcome,
    RoundId, Signature, Timestamp, ValidatorIndex, TIMER_ID_ROUND,
};
use crate::consensus::validity::PendingView;
use crate::consensus::weights::{lemma_weight_monotone, spec_is_quorum, weight_of};
use crate::consensus::wellformed::{
    is_direct_at, lemma_adds_nothing, lemma_direct_count_bound, lemma_direct_count_grows,
    lemma_extends_accepted, lemma_extends_accepted_proposal, lemma_extends_budgets,
    lemma_extends_outcome, lemma_extends_refl, lemma_extends_trans, lemma_extends_wf,
    lemma_faults_grow_quorums, lemma_grows_keeps, lemma_grows_none_waits, lemma_grows_refl,
    lemma_grows_trans, lemma_keeps_rounds, lemma_keeps_waiting, lemma_same_skipped, lemma_settled,
    lemma_settles, parent_is_earlier, round_extends, round_keeps,
};
use crate::consensus::wire::{signed_hash, spec_serialize, spec_signed_hash};

verus! {

/// The rank of a content in the order in which the steps of the protocol call one
/// another: a proposal is followed by echoes and votes, never the other way round.
pub open spec fn content_rank(content: Content) -> nat {
    if content is Proposal {
        3
    } else {
        1
    }
}

/// Whether a content may stand in the round: a proposal builds on an earlier round.
pub open spec fn content_fits(content: Content, round_id: int) -> bool {
    match content {
        Content::Proposal(proposal) => parent_is_earlier(proposal.maybe_parent_round_id, round_id),
        _ => true,
    }
}

/// Whether a round is as another but for the votes and echoes of one validator,
/// which it does not hold.
pub open spec fn purged(before: Round, after: Round, v: int) -> bool {
    &&& after.proposals == before.proposals
    &&& after.outcome == before.outcome
    &&& after.votes_true@ == before.votes_true@.update(v, None)
    &&& after.votes_false@ == before.votes_false@.update(v, None)
    &&& forall|hash: Digest, u: int|
        #![trigger after.echo_signature(hash, u)]
        after.echo_signature(hash, u) == if u == v {
            None
        } else {
            before.echo_signature(hash, u)
        }
}

/// Whether two proposals that await validation are the same.
pub open spec fn same_pending(first: PendingValidation, second: PendingValidation) -> bool {
    &&& first.round_id == second.round_id
    &&& first.maybe_parent_round_id == second.maybe_parent_round_id
    &&& first.sender == second.sender
    &&& first.signature == second.signature
    &&& first.proposed_block@ =~~= second.proposed_block@
}

/// Whether the proposal is among those that await validation.
pub open spec fn is_pending(list: Seq<PendingValidation>, pending: PendingValidation) -> bool {
    exists|i: int| 0 <= i < list.len() && same_pending(#[trigger] list[i], pending)
}

impl<C: Context> SimpleConsensus<C> {
    /// Whether the round holds the content from the validator.
    pub open spec fn holds(&self, round_id: int, content: Content, validator_idx: ValidatorIndex) -> bool {
        match self.round_at(round_id) {
            Some(round) => round.spec_contains::<C>(content, validator_idx),
            None => false,
        }
    }

    /// Whether the round holds a vote of the validator.
    pub open spec fn spec_has_voted_at(&self, round_id: int, validator_idx: ValidatorIndex) -> bool {
        self.votes_at(round_id, true)[validator_idx.0 as int] is Some || self.votes_at(
            round_id,
            false,
        )[validator_idx.0 as int] is Some
    }

    /// A vote that a round holds, it holds as long as the state grows.
    pub proof fn lemma_grows_voted(&self, after: &SimpleConsensus<C>, round_id: int, validator_idx: ValidatorIndex)
        requires
            self.wf_basic(),
            after.wf_basic(),
            self.grows(after),
            validator_idx.0 < self.weights.len(),
            self.spec_has_voted_at(round_id, validator_idx),
        ensures
            after.spec_has_voted_at(round_id, validator_idx),
    {
        if self.votes_at(round_id, true)[validator_idx.0 as int] is Some {
            self.lemma_grows_holds(after, round_id, Content::Vote(true), validator_idx);
        } else {
            self.lemma_grows_holds(after, round_id, Content::Vote(false), validator_idx);
        }
    }

    /// Whether the content contradicts what the round holds from the validator: an
    /// echo of another hash, or the opposite vote.
    pub open spec fn equivocates(
        &self,
        round_id: int,
        content: Content,
        validator_idx: ValidatorIndex,
    ) -> bool {
        match content {
            Content::Proposal(_) => false,
            Content::Echo(hash) => self.echoed_other_at(round_id, hash, validator_idx),
            Content::Vote(vote) => self.votes_at(round_id, !vote)[validator_idx.0 as int] is Some,
        }
    }

    /// The message that a validator signs for a content in a round of this instance.
    pub open spec fn signed_message(
        &self,
        round_id: RoundId,
        content: Content,
        validator_idx: ValidatorIndex,
        signature: Signature,
    ) -> Message {
        Message::Signed { round_id, instance_id: self.instance_id, content, validator_idx, signature }
    }

    /// Whether `other` is the message that the round holds from the validator and
    /// that the content contradicts: the first proposal of the round, the echo of
    /// another hash, or the opposite vote.
    pub open spec fn contradicts(
        &self,
        other: Message,
        round_id: RoundId,
        content: Content,
        validator_idx: ValidatorIndex,
    ) -> bool {
        match content {
            Content::Proposal(_) => {
                &&& self.proposals_at(round_id as int).len() > 0
                &&& other == self.signed_message(
                    round_id,
                    Content::Proposal(self.proposals_at(round_id as int)[0].proposal),
                    validator_idx,
                    self.proposals_at(round_id as int)[0].signature,
                )
            },
            Content::Echo(hash) => match other {
                Message::Signed {
                    round_id: other_round,
                    instance_id,
                    content: Content::Echo(other_hash),
                    validator_idx: signer,
                    signature,
                } => {
                    &&& other_round == round_id
                    &&& instance_id == self.instance_id
                    &&& signer == validator_idx
                    &&& other_hash != hash
                    &&& validator_idx.0 < self.echo_signatures_at(round_id as int, other_hash).len()
                    &&& self.echo_signatures_at(round_id as int, other_hash)[validator_idx.0 as int]
                        == Some(signature)
                },
                _ => false,
            },
            Content::Vote(vote) => match self.votes_at(round_id as int, !vote)[validator_idx.0 as int] {
                Some(signature) => other == self.signed_message(
                    round_id,
                    Content::Vote(!vote),
                    validator_idx,
                    signature,
                ),
                None => false,
            },
        }
    }

    /// Whether the validators with a signature in the map, together with the faulty
    /// validators and the validator `v`, are a quorum.
    pub open spec fn spec_is_quorum_with(&self, signatures: Seq<Option<Signature>>, v: int) -> bool {
        spec_is_quorum(self.weights@, self.faulty().insert(v), self.ftt as nat, present(signatures))
    }

    /// Whether `after` has recorded for the round the quorums that come about when
    /// the validator `v` is found faulty in the state `self`: a quorum of votes to
    /// commit commits the round, a quorum of votes to skip decides it, and a quorum
    /// of echoes of a hash that another validator has echoed is recorded.
    #[verifier::opaque]
    pub open spec fn fault_concluded(&self, after: &SimpleConsensus<C>, r: int, v: int) -> bool {
        self.round_at(r) is Some ==> {
            &&& self.outcome_at(r).quorum_votes is None && self.spec_is_quorum_with(
                self.votes_at(r, true),
                v,
            ) ==> after.outcome_at(r).quorum_votes == Some(true)
            &&& self.outcome_at(r).quorum_votes is None && self.spec_is_quorum_with(
                self.votes_at(r, false),
                v,
            ) ==> after.outcome_at(r).quorum_votes is Some
            &&& forall|hash: Digest|
                self.outcome_at(r).quorum_echos is None && signed_by_other(
                    #[trigger] self.echo_signatures_at(r, hash),
                    v,
                ) && self.spec_is_quorum_with(self.echo_signatures_at(r, hash), v)
                    ==> after.outcome_at(r).quorum_echos is Some
        }
    }

    /// The quorums that come about are recorded where each of them is.
    pub proof fn lemma_fault_concluded(&self, after: &SimpleConsensus<C>, r: int, v: int)
        requires
            self.round_at(r) is Some ==> {
                &&& self.outcome_at(r).quorum_votes is None && self.spec_is_quorum_with(
                    self.votes_at(r, true),
                    v,
                ) ==> after.outcome_at(r).quorum_votes == Some(true)
                &&& self.outcome_at(r).quorum_votes is None && self.spec_is_quorum_with(
                    self.votes_at(r, false),
                    v,
                ) ==> after.outcome_at(r).quorum_votes is Some
                &&& forall|hash: Digest|
                    self.outcome_at(r).quorum_echos is None && signed_by_other(
                        #[trigger] self.echo_signatures_at(r, hash),
                        v,
                    ) && self.spec_is_quorum_with(self.echo_signatures_at(r, hash), v)
                        ==> after.outcome_at(r).quorum_echos is Some
            },
        ensures
            self.fault_concluded(after, r, v),
    {
        reveal(SimpleConsensus::fault_concluded);
    }

    /// What was recorded for a round stays on record as the state extends.
    pub proof fn lemma_fault_concluded_still(
        &self,
        before: &SimpleConsensus<C>,
        after: &SimpleConsensus<C>,
        r: int,
        v: int,
    )
        requires
            self.fault_concluded(before, r, v),
            before.extends(after),
        ensures
            self.fault_concluded(after, r, v),
    {
        reveal(SimpleConsensus::fault_concluded);
        lemma_extends_outcome(before, after, r);
    }

    /// Where a validator is found faulty and its votes are removed, the votes that
    /// were a quorum together with it are a quorum, as long as the state grows.
    pub proof fn lemma_votes_after_fault(
        &self,
        purged_state: &SimpleConsensus<C>,
        after: &SimpleConsensus<C>,
        r: int,
        vote: bool,
        v: int,
    )
        requires
            self.wf_basic(),
            purged_state.wf_basic(),
            after.wf_basic(),
            self.same_era(after),
            after.faulty() == self.faulty().insert(v),
            0 <= v < self.weights.len(),
            0 <= r < self.rounds.len(),
            self.rounds[r] is Some,
            purged_state.round_at(r) is Some,
            purged(self.rounds[r].unwrap(), purged_state.round_at(r).unwrap(), v),
            purged_state.grows(after),
            self.spec_is_quorum_with(self.votes_at(r, vote), v),
        ensures
            after.spec_is_quorum(after.votes_at(r, vote)),
    {
        let old_round = self.rounds[r].unwrap();
        let mid_round = purged_state.rounds[r].unwrap();
        let new_round = after.rounds[r].unwrap();
        assert(round_keeps(mid_round, new_round));
        assert(old_round.wf(self.count()));
        assert(mid_round.wf(purged_state.count()));
        assert(new_round.wf(after.count()));
        let n = self.weights.len() as int;
        let small = present(old_round.votes(vote)).union(self.faulty().insert(v));
        let large = present(new_round.votes(vote)).union(after.faulty());
        assert forall|u: int| 0 <= u < n && small.contains(u) implies large.contains(u) by {
            if u != v && present(old_round.votes(vote)).contains(u) {
                if vote {
                    assert(mid_round.votes_true@[u] == old_round.votes_true@[u]);
                    assert(new_round.votes_true@[u] == mid_round.votes_true@[u]);
                } else {
                    assert(mid_round.votes_false@[u] == old_round.votes_false@[u]);
                    assert(new_round.votes_false@[u] == mid_round.votes_false@[u]);
                }
            }
        }
        lemma_weight_monotone(self.weights@, small, large, n);
    }

    /// Where a validator is found faulty and its echoes are removed, the echoes of a
    /// hash that were a quorum together with it, and were not its alone, are a
    /// quorum, as long as the state grows.
    pub proof fn lemma_echoes_after_fault(
        &self,
        purged_state: &SimpleConsensus<C>,
        after: &SimpleConsensus<C>,
        r: int,
        hash: Digest,
        v: int,
    )
        requires
            self.wf_basic(),
            purged_state.wf_basic(),
            after.wf_basic(),
            self.same_era(after),
            after.faulty() == self.faulty().insert(v),
            0 <= v < self.weights.len(),
            0 <= r < self.rounds.len(),
            self.rounds[r] is Some,
            purged_state.round_at(r) is Some,
            purged(self.rounds[r].unwrap(), purged_state.round_at(r).unwrap(), v),
            purged_state.grows(after),
            signed_by_other(self.echo_signatures_at(r, hash), v),
            self.spec_is_quorum_with(self.echo_signatures_at(r, hash), v),
        ensures
            after.round_at(r) is Some,
            after.round_at(r).unwrap().has_echos(hash),
            after.spec_is_quorum(after.round_at(r).unwrap().echo_signatures(hash)),
    {
        let old_round = self.rounds[r].unwrap();
        let mid_round = purged_state.rounds[r].unwrap();
        let new_round = after.rounds[r].unwrap();
        assert(round_keeps(mid_round, new_round));
        let n = self.weights.len() as int;
        let old_map = old_round.echo_signatures(hash);
        assert forall|u: int| 0 <= u < old_map.len() && u != v && old_map[u] is Some implies
            new_round.echo_signature(hash, u) is Some by {
            assert(old_round.echo_signature(hash, u) is Some);
            assert(mid_round.echo_signature(hash, u) == old_round.echo_signature(hash, u));
            assert(new_round.echo_signature(hash, u) == mid_round.echo_signature(hash, u));
        }
        let witness = choose|u: int| 0 <= u < old_map.len() && u != v && (#[trigger] old_map[u]) is Some;
        assert(new_round.echo_signature(hash, witness) is Some);
        let small = present(old_map).union(self.faulty().insert(v));
        let large = present(new_round.echo_signatures(hash)).union(after.faulty());
        assert forall|u: int| 0 <= u < n && small.contains(u) implies large.contains(u) by {
            if u != v && present(old_map).contains(u) {
                assert(new_round.echo_signature(hash, u) is Some);
            }
        }
        lemma_weight_monotone(self.weights@, small, large, n);
    }

    /// The number of outcomes that announce the fault of a validator that was not
    /// known to have signed contradicting messages: two messages and the evidence,
    /// and that the fault tolerance is exceeded, if it is.
    pub open spec fn evidence_length(&self, validator_idx: ValidatorIndex) -> int {
        if weight_of(self.weights@, self.faulty().insert(validator_idx.0 as int)) > self.ftt {
            4
        } else {
            3
        }
    }

    /// Whether `after` and `outcomes` are what giving evidence against a validator
    /// that was not known to have signed contradicting messages begins with.
    ///
    /// The two messages are kept as evidence and sent to all peers, the new first,
    /// and the evidence is announced; if the weight of the faulty validators then
    /// exceeds the fault tolerance, that is announced next, and no fault is announced
    /// after that. No round holds a vote or an echo of the validator any more,
    /// unless it is the local validator, whose own messages are put on record as
    /// they are created; what the others have signed is kept. In every round that
    /// is not finalized, the quorums that come about with the fault are recorded.
    pub open spec fn evidence_given(
        &self,
        after: &SimpleConsensus<C>,
        outcomes: Seq<ProtocolOutcome>,
        round_id: RoundId,
        content: Content,
        validator_idx: ValidatorIndex,
        signature: Signature,
    ) -> bool {
        match after.faults@[validator_idx.0 as int] {
            Some(Fault::Direct(msg0, msg1)) => {
                &&& msg0 == self.signed_message(round_id, content, validator_idx, signature)
                &&& self.contradicts(msg1, round_id, content, validator_idx)
                &&& after.faults@ == self.faults@.update(
                    validator_idx.0 as int,
                    Some(Fault::Direct(msg0, msg1)),
                )
                &&& after.progress_detected
                &&& outcomes.len() >= 3
                &&& effects(outcomes)[0] == Effect::CreatedGossipMessage(spec_serialize(msg0))
                &&& effects(outcomes)[1] == Effect::CreatedGossipMessage(spec_serialize(msg1))
                &&& effects(outcomes)[2] == Effect::NewEvidence(
                    self.validators[validator_idx.0 as int].id,
                )
                &&& weight_of(self.weights@, self.faulty().insert(validator_idx.0 as int))
                    > self.ftt ==> outcomes.len() >= 4 && effects(outcomes)[3]
                    == Effect::FttExceeded
                &&& !self.own().contains(validator_idx.0 as int) ==> after.holds_nothing_of(
                    validator_idx.0 as int,
                )
                &&& self.keeps_signed(after, set![validator_idx.0 as int])
                &&& self.evidence_length(validator_idx) <= outcomes.len()
                &&& calm(outcomes.skip(self.evidence_length(validator_idx)))
                &&& forall|r: int|
                    self.first_non_finalized_round_id <= r < self.rounds.len()
                        ==> #[trigger] self.fault_concluded(after, r, validator_idx.0 as int)
            },
            _ => false,
        }
    }

    /// The signatures under the echoes of the hash in the round, once the echo of the
    /// validator is added.
    pub open spec fn echoes_with(
        &self,
        round_id: int,
        hash: Digest,
        validator_idx: ValidatorIndex,
        signature: Signature,
    ) -> Seq<Option<Signature>> {
        (if self.echo_signatures_at(round_id, hash).len() > 0 {
            self.echo_signatures_at(round_id, hash)
        } else {
            Seq::new(self.weights.len() as nat, |v: int| None::<Signature>)
        }).update(validator_idx.0 as int, Some(signature))
    }

    /// The signatures under the votes for `vote` in the round, once the vote of the
    /// validator is added.
    pub open spec fn votes_with(
        &self,
        round_id: int,
        vote: bool,
        validator_idx: ValidatorIndex,
        signature: Signature,
    ) -> Seq<Option<Signature>> {
        self.votes_at(round_id, vote).update(validator_idx.0 as int, Some(signature))
    }

    /// Whether the outcomes begin with what is announced when a proposal is accepted
    /// in the round: unless the round is skippable, the timer of the next round; and
    /// then, if the round is committed and not finalized, the blocks of the proposal
    /// and of those it builds on, as far as they were not finalized.
    #[verifier::opaque]
    pub open spec fn acceptance_announced(
        &self,
        after: &SimpleConsensus<C>,
        outcomes: Seq<ProtocolOutcome>,
        round_id: int,
        now: Timestamp,
    ) -> bool {
        &&& !self.spec_is_skippable_round(round_id) ==> outcomes.len() >= 1 && effects(outcomes)[0]
            == Effect::ScheduleTimer(now, TIMER_ID_ROUND)
        &&& self.outcome_at(round_id).quorum_votes == Some(true) && round_id
            >= self.first_non_finalized_round_id ==> begins_with(
            effects(outcomes),
            seq![Effect::ScheduleTimer(now, TIMER_ID_ROUND)] + after.chain_blocks(
                round_id,
                self.first_non_finalized_round_id as int,
            ),
        )
    }

    /// What was announced when a proposal was accepted is what the outcomes begin
    /// with when more follow and the state extends.
    pub proof fn lemma_announced_still(
        &self,
        before: &SimpleConsensus<C>,
        accepted: &SimpleConsensus<C>,
        after: &SimpleConsensus<C>,
        checked: Seq<ProtocolOutcome>,
        first: Seq<ProtocolOutcome>,
        more: Seq<ProtocolOutcome>,
        outcomes: Seq<ProtocolOutcome>,
        round_id: int,
        now: Timestamp,
    )
        requires
            before.acceptance_announced(accepted, checked, round_id, now),
            self.outcome_at(round_id).quorum_votes == before.outcome_at(round_id).quorum_votes,
            self.first_non_finalized_round_id == before.first_non_finalized_round_id,
            effects(first) == effects(Seq::<ProtocolOutcome>::empty()) + effects(checked),
            first.len() == checked.len(),
            outcomes == first || (effects(outcomes) == effects(first) + effects(more)
                && outcomes.len() == first.len() + more.len()),
            accepted.wf(),
            after.wf(),
            accepted.extends(after),
            accepted.accepted_height(round_id) is Some,
        ensures
            self.acceptance_announced(after, outcomes, round_id, now),
    {
        reveal(SimpleConsensus::acceptance_announced);
        let floor = self.first_non_finalized_round_id as int;
        let timer = Effect::ScheduleTimer(now, TIMER_ID_ROUND);
        assert(accepted.accepted_ok(round_id));
        accepted.lemma_extends_blocks(after, round_id, floor);
        assert(effects(first) =~= effects(checked));
        let rest = if outcomes == first {
            Seq::<Effect>::empty()
        } else {
            effects(more)
        };
        assert(effects(outcomes) =~= effects(checked) + rest);
        if self.outcome_at(round_id).quorum_votes == Some(true) && round_id >= floor {
            lemma_begins_with_more(
                effects(checked),
                rest,
                seq![timer] + accepted.chain_blocks(round_id, floor),
            );
        }
        if !self.spec_is_skippable_round(round_id) {
            assert(checked.len() >= 1);
            assert(effects(checked)[0] == timer);
            assert(effects(outcomes)[0] == effects(checked)[0]);
        }
    }

    /// The outcomes that begin with the timer of the next round, and after it with
    /// the blocks that are finalized, announce the acceptance of a proposal.
    pub proof fn lemma_announced(
        &self,
        after: &SimpleConsensus<C>,
        outcomes: Seq<ProtocolOutcome>,
        round_id: int,
        now: Timestamp,
    )
        requires
            !self.spec_is_skippable_round(round_id) ==> outcomes.len() >= 1 && effects(outcomes)[0]
                == Effect::ScheduleTimer(now, TIMER_ID_ROUND),
            self.outcome_at(round_id).quorum_votes == Some(true) && round_id
                >= self.first_non_finalized_round_id ==> begins_with(
                effects(outcomes),
                seq![Effect::ScheduleTimer(now, TIMER_ID_ROUND)] + after.chain_blocks(
                    round_id,
                    self.first_non_finalized_round_id as int,
                ),
            ),
        ensures
            self.acceptance_announced(after, outcomes, round_id, now),
    {
        reveal(SimpleConsensus::acceptance_announced);
    }

    /// Whether `after` has drawn from a content that was put on record what follows
    /// from it at once.
    ///
    /// A proposal that a quorum has echoed is accepted if it can be. An echo that
    /// makes the echoes of its hash a quorum makes that hash the one echoed by a
    /// quorum, and the proposal with the hash is accepted if it can be. A vote that
    /// makes the votes a quorum decides the round, and a round that is committed
    /// with an accepted proposal is finalized: the blocks of the proposal and of
    /// those it builds on, as far as they were not finalized, are what is announced.
    /// The acceptance of a proposal is announced likewise. A round that is skipped
    /// without an accepted proposal, when it has been reached, starts the next.
    pub open spec fn concluded(
        &self,
        after: &SimpleConsensus<C>,
        outcomes: Seq<ProtocolOutcome>,
        round_id: int,
        content: Content,
        validator_idx: ValidatorIndex,
        signature: Signature,
        now: Timestamp,
    ) -> bool {
        match content {
            Content::Proposal(proposal) => {
                self.outcome_at(round_id).quorum_echos == Some(proposal.spec_hash::<C>())
                    && self.accepted_height(round_id) is None && self.proposal_height(
                    round_id,
                    proposal,
                ) is Some ==> {
                    &&& after.accepted_height(round_id) == self.proposal_height(round_id, proposal)
                    &&& self.acceptance_announced(after, outcomes, round_id, now)
                }
            },
            Content::Echo(hash) => {
                self.outcome_at(round_id).quorum_echos is None && self.spec_is_quorum(
                    self.echoes_with(round_id, hash, validator_idx, signature),
                ) ==> {
                    &&& after.outcome_at(round_id).quorum_echos == Some(hash)
                    &&& self.accepted_height(round_id) is None && self.height_if_echoed(
                        round_id,
                        hash,
                    ) is Some ==> {
                        &&& after.accepted_height(round_id) == self.height_if_echoed(round_id, hash)
                        &&& self.acceptance_announced(after, outcomes, round_id, now)
                    }
                }
            },
            Content::Vote(vote) => {
                self.outcome_at(round_id).quorum_votes is None && self.spec_is_quorum(
                    self.votes_with(round_id, vote, validator_idx, signature),
                ) ==> {
                    &&& after.outcome_at(round_id).quorum_votes == Some(vote)
                    &&& vote && self.accepted_height(round_id) is Some
                        ==> after.first_non_finalized_round_id > round_id
                    &&& vote ==> effects(outcomes) == if self.accepted_height(round_id) is Some
                        && round_id >= self.first_non_finalized_round_id {
                        self.chain_blocks(round_id, self.first_non_finalized_round_id as int)
                    } else {
                        Seq::<Effect>::empty()
                    }
                    &&& !vote && self.accepted_height(round_id) is None
                        && self.spec_current_round() >= round_id ==> outcomes.len() >= 1
                        && effects(outcomes)[0] == Effect::ScheduleTimer(now, TIMER_ID_ROUND)
                }
            },
        }
    }

    /// The height at which a proposal could be accepted in a round depends on the
    /// other rounds alone.
    pub proof fn lemma_height_frame(
        &self,
        after: &SimpleConsensus<C>,
        round_id: int,
        proposal: Proposal,
    )
        requires
            forall|q: int| q != round_id ==> #[trigger] after.round_at(q) == self.round_at(q),
        ensures
            after.proposal_height(round_id, proposal) == self.proposal_height(round_id, proposal),
    {
        match proposal.maybe_parent_round_id {
            Some(parent) => {
                if parent < round_id {
                    assert(after.round_at(parent as int) == self.round_at(parent as int));
                    if forall|q: int|
                        parent < q < round_id ==> #[trigger] self.spec_is_skippable_round(q) {
                        assert forall|q: int| parent < q < round_id implies (
                        #[trigger] after.spec_is_skippable_round(q)) by {
                            assert(after.round_at(q) == self.round_at(q));
                            assert(self.spec_is_skippable_round(q));
                        }
                    }
                    if forall|q: int|
                        parent < q < round_id ==> #[trigger] after.spec_is_skippable_round(q) {
                        assert forall|q: int| parent < q < round_id implies (
                        #[trigger] self.spec_is_skippable_round(q)) by {
                            assert(after.round_at(q) == self.round_at(q));
                            assert(after.spec_is_skippable_round(q));
                        }
                    }
                }
            },
            None => {
                if forall|q: int| 0 <= q < round_id ==> #[trigger] self.spec_is_skippable_round(q) {
                    assert forall|q: int| 0 <= q < round_id implies (
                    #[trigger] after.spec_is_skippable_round(q)) by {
                        assert(after.round_at(q) == self.round_at(q));
                        assert(self.spec_is_skippable_round(q));
                    }
                }
                if forall|q: int| 0 <= q < round_id ==> #[trigger] after.spec_is_skippable_round(q) {
                    assert forall|q: int| 0 <= q < round_id implies (
                    #[trigger] self.spec_is_skippable_round(q)) by {
                        assert(after.round_at(q) == self.round_at(q));
                        assert(after.spec_is_skippable_round(q));
                    }
                }
            },
        }
    }

    /// The height at which the proposal with a hash could be accepted in a round
    /// depends on the other rounds and on the proposals that the round holds.
    pub proof fn lemma_echoed_height_frame(&self, after: &SimpleConsensus<C>, round_id: int, hash: Digest)
        requires
            self.wf_basic(),
            after.wf_basic(),
            self.count() == after.count(),
            forall|q: int| q != round_id ==> #[trigger] after.round_at(q) == self.round_at(q),
            after.round_at(round_id) is Some,
            after.round_at(round_id).unwrap().proposals@ == self.proposals_at(round_id),
        ensures
            after.height_if_echoed(round_id, hash) == self.height_if_echoed(round_id, hash),
    {
        let later = after.round_at(round_id).unwrap();
        assert(after.rounds[round_id] is Some);
        match self.round_at(round_id) {
            Some(round) => {
                assert(self.rounds[round_id] is Some);
                later.lemma_same_proposals(&round, self.count(), hash);
                if round.has_proposal(hash) {
                    self.lemma_height_frame(after, round_id, round.proposal(hash).unwrap().proposal);
                }
            },
            None => {
                assert(later.proposals@.len() == 0);
            },
        }
    }

    /// What a round holds, it holds as long as the state grows.
    pub proof fn lemma_grows_holds(
        &self,
        after: &SimpleConsensus<C>,
        round_id: int,
        content: Content,
        validator_idx: ValidatorIndex,
    )
        requires
            self.wf_basic(),
            after.wf_basic(),
            self.grows(after),
            validator_idx.0 < self.weights.len(),
            self.holds(round_id, content, validator_idx),
        ensures
            after.holds(round_id, content, validator_idx),
    {
        let before = self.rounds[round_id].unwrap();
        let later = after.rounds[round_id].unwrap();
        assert(round_extends(before, later));
        assert(round_keeps(before, later));
        match content {
            Content::Proposal(proposal) => {
                let hash = proposal.spec_hash::<C>();
                let i = before.proposal_position(hash).unwrap();
                assert(later.proposals[i] == before.proposals[i]);
            },
            Content::Echo(hash) => {
                assert(before.echo_signature(hash, validator_idx.0 as int) is Some);
                assert(later.echo_signature(hash, validator_idx.0 as int) is Some);
            },
            Content::Vote(vote) => {
                if vote {
                    assert(before.votes_true@[validator_idx.0 as int] is Some);
                } else {
                    assert(before.votes_false@[validator_idx.0 as int] is Some);
                }
            },
        }
    }
}

impl<C: Context> SimpleConsensus<C> {
    /// The quorums that were found in a round stay quorums when the votes and echoes
    /// of a faulty validator are removed: the validator counts towards every
    /// quorum as it is.
    pub proof fn lemma_purged_quorums(&self, before: &SimpleConsensus<C>, r: int, v: int)
        requires
            before.wf_basic(),
            self.wf_basic(),
            before.same_era(self),
            self.faults@ == before.faults@,
            0 <= v < before.faults.len(),
            before.faults[v] is Some,
            before.quorums_ok(r),
            before.round_at(r) is Some,
            self.round_at(r) is Some,
            purged(before.round_at(r).unwrap(), self.round_at(r).unwrap(), v),
        ensures
            self.quorums_ok(r),
    {
        let old_round = before.round_at(r).unwrap();
        let new_round = self.round_at(r).unwrap();
        let n = before.weights.len() as int;
        match new_round.outcome.quorum_echos {
            Some(hash) => {
                let small = present(old_round.echo_signatures(hash)).union(before.faulty());
                let large = present(new_round.echo_signatures(hash)).union(self.faulty());
                assert forall|u: int| 0 <= u < n && small.contains(u) implies large.contains(u) by {
                    if u != v && present(old_round.echo_signatures(hash)).contains(u) {
                        assert(old_round.echo_signature(hash, u) is Some);
                        assert(new_round.echo_signature(hash, u) == old_round.echo_signature(
                            hash,
                            u,
                        ));
                    }
                }
                lemma_weight_monotone(before.weights@, small, large, n);
            },
            None => {},
        }
        match new_round.outcome.quorum_votes {
            Some(vote) => {
                let small = present(old_round.votes(vote)).union(before.faulty());
                let large = present(new_round.votes(vote)).union(self.faulty());
                assert forall|u: int| 0 <= u < n && small.contains(u) implies large.contains(u) by {}
                lemma_weight_monotone(before.weights@, small, large, n);
            },
            None => {},
        }
    }

    /// Where every round is as it was but for the votes and echoes of a validator,
    /// the state holds nothing of the validator, and nothing was added.
    pub proof fn lemma_purged(&self, after: &SimpleConsensus<C>, v: int)
        requires
            self.wf_basic(),
            0 <= v < self.weights.len(),
            after.rounds.len() == self.rounds.len(),
            forall|r: int|
                0 <= r < self.rounds.len() ==> match (#[trigger] self.rounds[r]) {
                    Some(round) => after.rounds[r] is Some && purged(
                        round,
                        after.rounds[r].unwrap(),
                        v,
                    ),
                    None => after.rounds[r] is None,
                },
        ensures
            self.adds_only(after, Set::empty()),
            after.holds_nothing_of(v),
            self.keeps_signed(after, set![v]),
            self.same_skipped(after),
            after.first_non_finalized_round_id == self.first_non_finalized_round_id
                ==> self.settles(after),
    {
        if after.first_non_finalized_round_id == self.first_non_finalized_round_id {
            assert forall|q: int| (#[trigger] after.outcome_at(q)).quorum_votes == self.outcome_at(
                q,
            ).quorum_votes && after.accepted_height(q) == self.accepted_height(q) by {
                if 0 <= q < self.rounds.len() {
                    let before = self.rounds[q];
                    if before is Some {
                        assert(purged(before.unwrap(), after.rounds[q].unwrap(), v));
                    }
                }
            }
            lemma_settles(self, after);
        }
        reveal(SimpleConsensus::vote_at);
        reveal(SimpleConsensus::echo_at);
        reveal(SimpleConsensus::skipped_at);
        assert forall|r: int, vote: bool, u: int|
            u != v && (#[trigger] self.vote_at(r, vote, u)) is Some implies after.vote_at(r, vote, u)
            == self.vote_at(r, vote, u) by {
            let before = self.rounds[r];
            assert(before.unwrap().wf(self.count()));
            assert(purged(before.unwrap(), after.rounds[r].unwrap(), v));
        }
        assert forall|r: int, hash: Digest, u: int|
            u != v && (#[trigger] self.echo_at(r, hash, u)) is Some implies after.echo_at(r, hash, u)
            == self.echo_at(r, hash, u) by {
            let before = self.rounds[r];
            assert(purged(before.unwrap(), after.rounds[r].unwrap(), v));
            assert(after.rounds[r].unwrap().echo_signature(hash, u) == before.unwrap().echo_signature(
                hash,
                u,
            ));
        }
        assert forall|q: int| #[trigger] after.skipped_at(q) == self.skipped_at(q) by {
            if 0 <= q < self.rounds.len() {
                let before = self.rounds[q];
                if before is Some {
                    assert(purged(before.unwrap(), after.rounds[q].unwrap(), v));
                }
            }
        }
        assert forall|r: int, vote: bool, u: int| (#[trigger] after.vote_at(r, vote, u)) is Some implies
            self.vote_at(r, vote, u) is Some by {
            assert(0 <= r < self.rounds.len());
            let before = self.rounds[r];
            assert(before is Some);
            assert(before.unwrap().wf(self.count()));
            assert(purged(before.unwrap(), after.rounds[r].unwrap(), v));
            let round = after.rounds[r].unwrap();
            if vote {
                assert(round.votes_true@ == before.unwrap().votes_true@.update(v, None));
                assert(round.votes_true@[u] is Some);
                assert(0 <= u < round.votes_true@.len());
                assert(u != v);
            } else {
                assert(round.votes_false@ == before.unwrap().votes_false@.update(v, None));
                assert(round.votes_false@[u] is Some);
                assert(u != v);
            }
        }
        assert forall|r: int, hash: Digest, u: int| (#[trigger] after.echo_at(r, hash, u)) is Some implies
            self.echo_at(r, hash, u) is Some by {
            assert(0 <= r < self.rounds.len());
            let before = self.rounds[r];
            assert(before is Some);
            assert(after.rounds[r].unwrap().echo_signature(hash, u) is Some);
        }
        assert forall|r: int, vote: bool| (#[trigger] after.vote_at(r, vote, v)) is None by {
            if 0 <= r < self.rounds.len() {
                let before = self.rounds[r];
                if before is Some {
                    assert(before.unwrap().wf(self.count()));
                    assert(purged(before.unwrap(), after.rounds[r].unwrap(), v));
                }
            }
        }
        assert forall|r: int, hash: Digest| (#[trigger] after.echo_at(r, hash, v)) is None by {
            if 0 <= r < self.rounds.len() {
                let before = self.rounds[r];
                if before is Some {
                    assert(after.rounds[r].unwrap().echo_signature(hash, v) is None);
                }
            }
        }
    }

    /// Removes the votes and echoes of the validator from every round.
    pub fn purge_validator(&mut self, validator_idx: ValidatorIndex)
        requires
            old(self).wf(),
            validator_idx.0 < old(self).weights.len(),
            old(self).faults[validator_idx.0 as int] is Some,
        ensures
            final(self).wf(),
            old(self).extends(final(self)),
            *final(self) == (SimpleConsensus { rounds: final(self).rounds, ..*old(self) }),
            final(self).rounds.len() == old(self).rounds.len(),
            forall|r: int|
                0 <= r < old(self).rounds.len() ==> match (#[trigger] old(self).rounds[r]) {
                    Some(round) => final(self).rounds[r] is Some && purged(
                        round,
                        final(self).rounds[r].unwrap(),
                        validator_idx.0 as int,
                    ),
                    None => final(self).rounds[r] is None,
                },
            old(self).adds_only(final(self), Set::empty()),
            final(self).holds_nothing_of(validator_idx.0 as int),
            old(self).keeps_signed(final(self), set![validator_idx.0 as int]),
            old(self).same_skipped(final(self)),
            old(self).settles(final(self)),
            old(self).keeps_waiting(final(self)),
    {
        let mut i: usize = 0;
        while i < self.rounds.len()
            invariant
                i <= self.rounds.len(),
                old(self).wf(),
                validator_idx.0 < old(self).weights.len(),
                *self == (SimpleConsensus { rounds: self.rounds, ..*old(self) }),
                self.rounds.len() == old(self).rounds.len(),
                forall|r: int| i <= r < self.rounds.len() ==> self.rounds[r] == old(self).rounds[r],
                forall|r: int|
                    0 <= r < i ==> match (#[trigger] old(self).rounds[r]) {
                        Some(round) => self.rounds[r] is Some && purged(
                            round,
                            self.rounds[r].unwrap(),
                            validator_idx.0 as int,
                        ) && self.rounds[r].unwrap().wf(old(self).count()),
                        None => self.rounds[r] is None,
                    },
            decreases self.rounds.len() - i,
        {
            let ghost before = self.rounds@;
            assert(old(self).rounds[i as int] is Some ==> old(self).rounds[i as int].unwrap().wf(
                old(self).count(),
            ));
            match &mut self.rounds[i] {
                Some(round) => {
                    round.purge(validator_idx);
                },
                None => {},
            }
            assert(self.rounds@ =~= before.update(i as int, self.rounds[i as int]));
            i += 1;
        }
        proof {
            old(self).lemma_purged(self, validator_idx.0 as int);
            assert(old(self).extends(self)) by {
                assert forall|r: int|
                    0 <= r < old(self).rounds.len()
                        && (#[trigger] old(self).rounds[r]) is Some implies self.rounds[r] is Some
                    && round_extends(old(self).rounds[r].unwrap(), self.rounds[r].unwrap()) by {}
            }
            lemma_keeps_waiting(old(self), self);
            assert(self.wf_basic()) by {
                assert forall|r: int|
                    0 <= r < self.rounds.len() && (#[trigger] self.rounds[r]) is Some
                        implies self.rounds[r].unwrap().wf(
                    self.count(),
                ) by {
                    assert(old(self).rounds[r] is Some);
                }
            }
            assert(old(self).extends(self)) by {
                assert forall|r: int|
                    0 <= r < old(self).rounds.len()
                        && (#[trigger] old(self).rounds[r]) is Some implies self.rounds[r] is Some
                    && round_extends(old(self).rounds[r].unwrap(), self.rounds[r].unwrap()) by {}
            }
            assert(self.wf_parents()) by {
                assert forall|r: int, k: int|
                    0 <= r < self.rounds.len() && self.rounds[r] is Some && 0 <= k
                        < self.rounds[r].unwrap().proposals.len() implies parent_is_earlier(
                    (#[trigger] self.rounds[r].unwrap().proposals[k]).proposal.maybe_parent_round_id,
                    r,
                ) by {
                    assert(old(self).rounds[r] is Some);
                    assert(old(self).rounds[r].unwrap().proposals[k]
                        == self.rounds[r].unwrap().proposals[k]);
                }
            }
            assert forall|r: int|
                0 <= r < self.rounds.len() && (#[trigger] self.accepted_height(r)) is Some
                    implies old(self).accepted_height(r) is Some by {
                assert(old(self).rounds[r] is Some);
            }
            assert(self.wf_quorums()) by {
                assert forall|r: int| 0 <= r < self.rounds.len() implies #[trigger] self.quorums_ok(
                    r,
                ) by {
                    assert(old(self).quorums_ok(r));
                    if old(self).rounds[r] is Some {
                        self.lemma_purged_quorums(old(self), r, validator_idx.0 as int);
                    }
                }
            }
            lemma_extends_wf(old(self), self);
        }
    }

    /// The echo set of the round, in the order in which the hashes were first seen,
    /// whose signers first form a quorum together with the faulty validators.
    fn find_quorum_echos(&self, round_id: RoundId) -> (res: Option<Digest>)
        requires
            self.wf_basic(),
            self.round_at(round_id as int) is Some,
        ensures
            res matches Some(hash) ==> self.round_at(round_id as int).unwrap().has_echos(hash)
                && self.spec_is_quorum(
                self.round_at(round_id as int).unwrap().echo_signatures(hash),
            ),
            res is None ==> forall|hash: Digest| #[trigger]
                self.round_at(round_id as int).unwrap().has_echos(hash) ==> !self.spec_is_quorum(
                    self.round_at(round_id as int).unwrap().echo_signatures(hash),
                ),
    {
        let round = match self.round(round_id) {
            Some(round) => round,
            None => {
                return None;
            },
        };
        assert(self.rounds[round_id as int] is Some);
        let mut i: usize = 0;
        while i < round.echos.len()
            invariant
                i <= round.echos.len(),
                self.wf_basic(),
                round.wf(self.count()),
                self.round_at(round_id as int) == Some(*round),
                forall|j: int|
                    0 <= j < i ==> !self.spec_is_quorum((#[trigger] round.echos[j]).signatures@),
            decreases round.echos.len() - i,
        {
            if self.is_quorum(&round.echos[i].signatures) {
                proof {
                    round.lemma_echo_position(self.count(), i as int);
                }
                return Some(round.echos[i].hash);
            }
            i += 1;
        }
        assert forall|hash: Digest| #[trigger] round.has_echos(hash) implies !self.spec_is_quorum(
            round.echo_signatures(hash),
        ) by {
            let position = round.echo_position(hash);
            assert(!self.spec_is_quorum(round.echos[position].signatures@));
        }
        None
    }

    /// If this node is a validator, signs the content and processes it as if it had
    /// been received, and then has the signed message sent to all peers.
    pub fn create_message(&mut self, round_id: RoundId, content: Content, now: Timestamp) -> (outcomes:
        Vec<ProtocolOutcome>)
        requires
            old(self).wf(),
            round_id < u32::MAX,
            content_fits(content, round_id as int),
        ensures
            final(self).wf(),
            old(self).extends(final(self)),
            old(self).same_control(final(self)),
            match old(self).active_validator {
                None => outcomes.len() == 0 && *final(self) == *old(self),
                Some((our_idx, secret)) => {
                    let signature = secret.spec_sign(
                        spec_signed_hash::<C>(round_id, old(self).instance_id, content, our_idx),
                    );
                    &&& outcomes.len() >= 1
                    &&& effects(outcomes@).last() == Effect::CreatedGossipMessage(
                        spec_serialize(
                            old(self).signed_message(round_id, content, our_idx, signature),
                        ),
                    )
                    &&& old(self).holds(round_id as int, content, our_idx) ==> outcomes.len() == 1
                        && *final(self) == *old(self)
                    &&& !old(self).holds(round_id as int, content, our_idx)
                        && old(self).equivocates(round_id as int, content, our_idx)
                        ==> if is_direct_at(old(self).faults@, our_idx.0 as int) {
                        outcomes.len() == 1 && *final(self) == *old(self)
                    } else {
                        old(self).evidence_given(
                            final(self),
                            outcomes@,
                            round_id,
                            content,
                            our_idx,
                            signature,
                        )
                    }
                    &&& !old(self).equivocates(round_id as int, content, our_idx) ==> {
                        &&& old(self).grows(final(self))
                        &&& final(self).holds(round_id as int, content, our_idx)
                    }
                    &&& !old(self).holds(round_id as int, content, our_idx)
                        && !old(self).equivocates(round_id as int, content, our_idx)
                        ==> old(self).concluded(
                        final(self),
                        outcomes@.drop_last(),
                        round_id as int,
                        content,
                        our_idx,
                        signature,
                        now,
                    )
                },
            },
            old(self).adds_only(final(self), old(self).own()),
            old(self).settles(final(self)),
            old(self).keeps_waiting(final(self)),
            (old(self).active_validator matches Some((our_idx, _)) ==> !old(self).equivocates(
                round_id as int,
                content,
                our_idx,
            )) ==> calm(outcomes@) && (content != Content::Vote(false) ==> old(self).same_skipped(
                final(self),
            )),
        decreases old(self).fault_budget(), old(self).round_budget(), content_rank(content) + 1,
    {
        let (validator_idx, signature) = match &self.active_validator {
            Some((validator_idx, secret)) => {
                let hash = signed_hash::<C>(round_id, self.instance_id, content, *validator_idx);
                (*validator_idx, secret.sign(hash))
            },
            None => {
                proof {
                    lemma_extends_refl(old(self));
                    lemma_adds_nothing(old(self), old(self));
            lemma_same_skipped(old(self), old(self));
            lemma_settles(old(self), old(self));
            lemma_extends_refl(old(self));
            lemma_keeps_waiting(old(self), old(self));
            lemma_calm_empty();
                }
                return Vec::new();
            },
        };
        let mut outcomes = self.handle_content(round_id, content, validator_idx, signature, now);
        let message = Message::Signed {
            round_id,
            instance_id: self.instance_id,
            content,
            validator_idx,
            signature,
        };
        let ghost earlier = effects(outcomes@);
        let ghost handled = outcomes@;
        outcomes.push(ProtocolOutcome::CreatedGossipMessage(message.serialize()));
        assert(effects(outcomes@) =~= earlier.push(
            Effect::CreatedGossipMessage(spec_serialize(message)),
        ));
        assert(outcomes@.drop_last() =~= handled);
        proof {
            let gossip = Seq::<ProtocolOutcome>::empty().push(outcomes@.last());
            assert(outcomes@ =~= handled + gossip);
            lemma_calm_empty();
            lemma_calm_push(Seq::empty(), outcomes@.last());
            if calm(handled) {
                lemma_calm_push(handled, outcomes@.last());
                assert(outcomes@ =~= handled.push(outcomes@.last()));
            }
            let evidence = old(self).evidence_length(validator_idx);
            if evidence <= handled.len() && calm(handled.skip(evidence)) {
                lemma_calm_after(handled, gossip, evidence);
            }
        }
        outcomes
    }

    /// Records the evidence of two contradictory messages that a validator signed in
    /// a round, has both sent to all peers, and removes the votes and echoes of the
    /// validator from every round: from now on it counts towards every quorum. Then
    /// every round that is not finalized is looked at again, as quorums may have
    /// come about.
    #[verifier::rlimit(80)]
    pub fn handle_fault(
        &mut self,
        round_id: RoundId,
        validator_idx: ValidatorIndex,
        content0: Content,
        signature0: Signature,
        content1: Content,
        signature1: Signature,
        now: Timestamp,
    ) -> (outcomes: Vec<ProtocolOutcome>)
        requires
            old(self).wf(),
            validator_idx.0 < old(self).weights.len(),
        ensures
            final(self).wf(),
            old(self).extends(final(self)),
            old(self).same_control(final(self)),
            is_direct_at(old(self).faults@, validator_idx.0 as int) ==> outcomes.len() == 0
                && *final(self) == *old(self),
            is_direct_at(final(self).faults@, validator_idx.0 as int),
            !is_direct_at(old(self).faults@, validator_idx.0 as int) ==> {
                let msg0 = old(self).signed_message(round_id, content0, validator_idx, signature0);
                let msg1 = old(self).signed_message(round_id, content1, validator_idx, signature1);
                &&& final(self).faults@ == old(self).faults@.update(
                    validator_idx.0 as int,
                    Some(Fault::Direct(msg0, msg1)),
                )
                &&& final(self).progress_detected
                &&& outcomes.len() >= 3
                &&& effects(outcomes@)[0] == Effect::CreatedGossipMessage(spec_serialize(msg0))
                &&& effects(outcomes@)[1] == Effect::CreatedGossipMessage(spec_serialize(msg1))
                &&& effects(outcomes@)[2] == Effect::NewEvidence(
                    old(self).validators[validator_idx.0 as int].id,
                )
                &&& weight_of(
                    old(self).weights@,
                    old(self).faulty().insert(validator_idx.0 as int),
                ) > old(self).ftt ==> outcomes.len() >= 4 && effects(outcomes@)[3]
                    == Effect::FttExceeded
                &&& !old(self).own().contains(validator_idx.0 as int) ==> final(self).holds_nothing_of(
                    validator_idx.0 as int,
                )
                &&& old(self).keeps_signed(final(self), set![validator_idx.0 as int])
                &&& calm(outcomes@.skip(old(self).evidence_length(validator_idx)))
                &&& forall|r: int|
                    old(self).first_non_finalized_round_id <= r < old(self).rounds.len()
                        ==> #[trigger] old(self).fault_concluded(
                        final(self),
                        r,
                        validator_idx.0 as int,
                    )
            },
            old(self).adds_only(final(self), old(self).own()),
            old(self).settles(final(self)),
            old(self).keeps_waiting(final(self)),
        decreases old(self).fault_budget(), old(self).round_budget(), 0nat,
    {
        let index = validator_idx.0 as usize;
        let validator_id = self.validators[index].id;
        match self.faults[index] {
            Some(Fault::Direct(_, _)) => {
                proof {
                    lemma_extends_refl(old(self));
                    lemma_adds_nothing(old(self), old(self));
            lemma_same_skipped(old(self), old(self));
            lemma_calm_empty();
                }
                return Vec::new();
            },
            _ => {},
        }
        let msg0 = Message::Signed {
            round_id,
            instance_id: self.instance_id,
            content: content0,
            validator_idx,
            signature: signature0,
        };
        let msg1 = Message::Signed {
            round_id,
            instance_id: self.instance_id,
            content: content1,
            validator_idx,
            signature: signature1,
        };
        let mut outcomes: Vec<ProtocolOutcome> = Vec::new();
        outcomes.push(ProtocolOutcome::CreatedGossipMessage(msg0.serialize()));
        outcomes.push(ProtocolOutcome::CreatedGossipMessage(msg1.serialize()));
        outcomes.push(ProtocolOutcome::NewEvidence(validator_id));
        self.faults[index] = Some(Fault::Direct(msg0, msg1));
        self.progress_detected = true;
        proof {
            lemma_adds_nothing(old(self), self);
            assert(old(self).extends(self));
            lemma_faults_grow_quorums(old(self), self);
            lemma_extends_wf(old(self), self);
            assert(!is_direct_at(old(self).faults@, index as int));
            assert(is_direct_at(self.faults@, index as int));
            assert forall|v: int|
                0 <= v < old(self).faults.len() && #[trigger] is_direct_at(
                    old(self).faults@,
                    v,
                ) implies is_direct_at(self.faults@, v) by {}
            lemma_direct_count_grows(
                old(self).faults@,
                self.faults@,
                self.faults.len() as int,
                index as int,
            );
            lemma_direct_count_bound(self.faults@, self.faults.len() as int);
        }
        proof {
            assert(self.faulty() =~= old(self).faulty().insert(index as int));
        }
        if self.faulty_weight() > self.ftt {
            outcomes.push(ProtocolOutcome::FttExceeded);
        }
        let ghost marked = *self;
        let ghost announced = effects(outcomes@);
        let ghost evidence = outcomes@.len() as int;
        proof {
            lemma_calm_empty();
            assert(outcomes@.skip(evidence) =~= Seq::<ProtocolOutcome>::empty());
            lemma_keeps_rounds(old(self), &marked);
            lemma_settles(old(self), &marked);
            lemma_keeps_waiting(old(self), &marked);
        }
        // The votes and echoes of the faulty validator are removed: they count
        // towards every quorum now, so that nobody has to keep them.
        self.purge_validator(validator_idx);
        proof {
            lemma_extends_trans(old(self), &marked, self);
            lemma_grows_refl(self);
            lemma_same_skipped(old(self), &marked);
        }
        let ghost cleared = *self;
        let ghost v = validator_idx.0 as int;
        let first = self.first_non_finalized_round_id;
        let last = self.rounds.len();
        let mut current: usize = first as usize;
        while current < last
            invariant
                self.wf(),
                old(self).extends(self),
                old(self).same_control(self),
                self.fault_budget() < old(self).fault_budget(),
                last <= self.rounds.len(),
                validator_idx.0 < self.faults.len(),
                is_direct_at(self.faults@, validator_idx.0 as int),
                self.faults@ == marked.faults@,
                self.progress_detected,
                old(self).adds_only(self, old(self).own()),
                !old(self).own().contains(validator_idx.0 as int) ==> self.holds_nothing_of(
                    validator_idx.0 as int,
                ),
                announced.len() <= effects(outcomes@).len(),
                effects(outcomes@).take(announced.len() as int) == announced,
                cleared.wf(),
                cleared.grows(self),
                0 <= evidence <= outcomes@.len(),
                calm(outcomes@.skip(evidence)),
                old(self).wf_basic(),
                v == validator_idx.0,
                first <= current,
                first == old(self).first_non_finalized_round_id,
                last == old(self).rounds.len(),
                cleared.rounds.len() == old(self).rounds.len(),
                self.faulty() == old(self).faulty().insert(v),
                forall|r: int|
                    0 <= r < old(self).rounds.len() ==> match (#[trigger] old(self).rounds[r]) {
                        Some(round) => cleared.rounds[r] is Some && purged(
                            round,
                            cleared.rounds[r].unwrap(),
                            v,
                        ),
                        None => cleared.rounds[r] is None,
                    },
                forall|q: int|
                    first <= q < current ==> #[trigger] old(self).fault_concluded(self, q, v),
                forall|q: int|
                    q >= current ==> (#[trigger] self.skipped_at(q)) == old(self).skipped_at(q),
                old(self).settles(self),
                old(self).keeps_waiting(self),
            decreases last - current,
        {
            let ghost entry = *self;
            let round_id = current as u32;
            let ghost r = current as int;
            proof {
                lemma_grows_refl(&entry);
                lemma_extends_refl(&entry);
            }
            if self.rounds[current].is_some() {
                let found = if self.quorum_echos(round_id).is_none() {
                    self.find_quorum_echos(round_id)
                } else {
                    None
                };
                match found {
                    Some(hash) => {
                        // The fault made the echoes a quorum.
                        self.set_quorum_echos(round_id, hash);
                    },
                    None => {},
                }
                proof {
                    lemma_extends_trans(old(self), &entry, self);
                    lemma_extends_budgets(&entry, self);
                    lemma_grows_trans(&cleared, &entry, self);
                }
                let ghost echoed = *self;
                proof {
                    lemma_grows_refl(&echoed);
                    if old(self).rounds[r] is Some {
                        assert forall|hash: Digest|
                            old(self).outcome_at(r).quorum_echos is None && signed_by_other(
                                #[trigger] old(self).echo_signatures_at(r, hash),
                                v,
                            ) && old(self).spec_is_quorum_with(
                                old(self).echo_signatures_at(r, hash),
                                v,
                            ) implies echoed.outcome_at(r).quorum_echos is Some by {
                            old(self).lemma_echoes_after_fault(&cleared, &entry, r, hash, v);
                        }
                    }
                    if old(self).rounds[r] is Some && old(self).outcome_at(r).quorum_votes is None {
                        reveal(SimpleConsensus::skipped_at);
                        assert(!old(self).skipped_at(r));
                        assert(!echoed.skipped_at(r));
                        assert(echoed.outcome_at(r).quorum_votes != Some(false));
                        if old(self).spec_is_quorum_with(old(self).votes_at(r, true), v) {
                            old(self).lemma_votes_after_fault(&cleared, &echoed, r, true, v);
                        }
                    }
                }
                if self.quorum_votes(round_id).is_none() && self.is_quorum_of_votes(round_id, true) {
                    // The fault made the votes to commit a quorum.
                    self.set_quorum_votes(round_id, true);
                    let ghost committed = *self;
                    // If there is an accepted proposal already, it is finalized.
                    proof {
                        lemma_grows_refl(&committed);
                        assert(committed.accepted_ok(r));
                    }
                    if self.has_accepted_proposal(round_id) {
                        let finalized = self.finalize_round(round_id);
                        proof {
                            lemma_calm_after(outcomes@, finalized@, evidence);
                        }
                        extend_outcomes(&mut outcomes, finalized);
                    }
                    proof {
                        lemma_extends_trans(&echoed, &committed, self);
                        lemma_grows_trans(&echoed, &committed, self);
                        lemma_extends_outcome(&committed, self, r);
                        lemma_settled(self, r);
                    }
                }
                proof {
                    lemma_extends_trans(old(self), &echoed, self);
                    lemma_extends_budgets(&echoed, self);
                    lemma_grows_trans(&cleared, &echoed, self);
                    lemma_extends_refl(&echoed);
                    lemma_extends_trans(&entry, &echoed, self);
                }
                let ghost voted = *self;
                proof {
                    lemma_grows_refl(&voted);
                    lemma_extends_refl(&voted);
                    lemma_extends_outcome(&echoed, &voted, r);
                    if old(self).rounds[r] is Some && old(self).outcome_at(r).quorum_votes is None
                        && old(self).spec_is_quorum_with(old(self).votes_at(r, true), v) {
                        assert(voted.outcome_at(r).quorum_votes == Some(true));
                    }
                    if old(self).rounds[r] is Some && old(self).outcome_at(r).quorum_votes is None
                        && old(self).spec_is_quorum_with(old(self).votes_at(r, false), v) {
                        old(self).lemma_votes_after_fault(&cleared, &voted, r, false, v);
                    }
                }
                if self.quorum_votes(round_id).is_none() && self.is_quorum_of_votes(round_id, false) {
                    // The fault made the votes to skip a quorum.
                    self.set_quorum_votes(round_id, false);
                    // If there is no accepted proposal, this starts the next round.
                    if !self.has_accepted_proposal(round_id) && self.current_round() > round_id {
                        proof {
                            let timer = ProtocolOutcome::ScheduleTimer(now, TIMER_ID_ROUND);
                            lemma_calm_empty();
                            lemma_calm_push(Seq::empty(), timer);
                            lemma_calm_after(outcomes@, Seq::empty().push(timer), evidence);
                            assert(outcomes@.push(timer) =~= outcomes@ + Seq::empty().push(timer));
                        }
                        outcomes.push(ProtocolOutcome::ScheduleTimer(now, TIMER_ID_ROUND));
                    }
                }
                proof {
                    lemma_extends_trans(old(self), &voted, self);
                    lemma_extends_budgets(&voted, self);
                    lemma_grows_trans(&cleared, &voted, self);
                    lemma_extends_trans(&entry, &voted, self);
                }
                let ghost skipped = *self;
                proof {
                    lemma_extends_refl(&skipped);
                    lemma_extends_outcome(&voted, &skipped, r);
                    if old(self).rounds[r] is Some && old(self).outcome_at(r).quorum_votes is None
                        && old(self).spec_is_quorum_with(old(self).votes_at(r, false), v) {
                        assert(skipped.outcome_at(r).quorum_votes is Some);
                    }
                    old(self).lemma_fault_concluded(&skipped, r, v);
                }
                // The proposal of the round may be accepted now.
                let checked = self.check_proposal(round_id, now);
                proof {
                    lemma_calm_after(outcomes@, checked@, evidence);
                }
                extend_outcomes(&mut outcomes, checked);
                proof {
                    lemma_extends_trans(old(self), &skipped, self);
                    lemma_extends_budgets(&skipped, self);
                    lemma_grows_trans(&cleared, &skipped, self);
                    lemma_extends_trans(&entry, &skipped, self);
                    old(self).lemma_fault_concluded_still(&skipped, self, r, v);
                }
            } else {
                proof {
                    assert(old(self).rounds[r] is None) by {
                        if old(self).rounds[r] is Some {
                            assert(cleared.rounds[r] is Some);
                        }
                    }
                    old(self).lemma_fault_concluded(self, r, v);
                }
            }
            proof {
                assert forall|q: int| first <= q < current + 1 implies #[trigger]
                    old(self).fault_concluded(self, q, v) by {
                    if q < current {
                        old(self).lemma_fault_concluded_still(&entry, self, q, v);
                    }
                }
            }
            assert(effects(outcomes@).take(announced.len() as int) =~= announced);
            current += 1;
        }
        proof {
            assert(effects(outcomes@).take(announced.len() as int) == announced);
            assert(forall|k: int|
                0 <= k < announced.len() ==> effects(outcomes@)[k] == effects(outcomes@).take(
                    announced.len() as int,
                )[k]);
            lemma_grows_keeps(&cleared, self);
        }
        outcomes
    }

    /// The hash that a quorum has echoed in the round, if there is one.
    pub fn quorum_echos(&self, round_id: RoundId) -> (res: Option<Digest>)
        ensures
            res == self.outcome_at(round_id as int).quorum_echos,
    {
        match self.round(round_id) {
            Some(round) => round.outcome.quorum_echos,
            None => None,
        }
    }

    /// The vote that a quorum has cast in the round, if there is one.
    pub fn quorum_votes(&self, round_id: RoundId) -> (res: Option<bool>)
        ensures
            res == self.outcome_at(round_id as int).quorum_votes,
    {
        match self.round(round_id) {
            Some(round) => round.outcome.quorum_votes,
            None => None,
        }
    }

    /// Whether a proposal is accepted in the round.
    pub fn has_accepted_proposal(&self, round_id: RoundId) -> (res: bool)
        ensures
            res == self.accepted_height(round_id as int) is Some,
    {
        match self.round(round_id) {
            Some(round) => round.has_accepted_proposal(),
            None => false,
        }
    }

    /// Whether the validators that have cast the vote in the round, together with
    /// all faulty validators, form a quorum.
    pub fn is_quorum_of_votes(&self, round_id: RoundId, vote: bool) -> (res: bool)
        requires
            self.wf_basic(),
        ensures
            res == (self.round_at(round_id as int) is Some && self.spec_is_quorum(
                self.votes_at(round_id as int, vote),
            )),
    {
        match self.round(round_id) {
            Some(round) => {
                assert(self.rounds[round_id as int] is Some);
                if vote {
                    self.is_quorum(&round.votes_true)
                } else {
                    self.is_quorum(&round.votes_false)
                }
            },
            None => false,
        }
    }

    /// Processes a content that a validator has signed, or that this node has signed
    /// itself: it is put on record, and what follows from it is concluded.
    #[verifier::rlimit(40)]
    pub fn handle_content(
        &mut self,
        round_id: RoundId,
        content: Content,
        validator_idx: ValidatorIndex,
        signature: Signature,
        now: Timestamp,
    ) -> (outcomes: Vec<ProtocolOutcome>)
        requires
            old(self).wf(),
            round_id < u32::MAX,
            validator_idx.0 < old(self).weights.len(),
            content_fits(content, round_id as int),
        ensures
            final(self).wf(),
            old(self).extends(final(self)),
            old(self).same_control(final(self)),
            old(self).holds(round_id as int, content, validator_idx) ==> outcomes.len() == 0
                && *final(self) == *old(self),
            !old(self).holds(round_id as int, content, validator_idx) && old(self).equivocates(
                round_id as int,
                content,
                validator_idx,
            ) ==> if is_direct_at(old(self).faults@, validator_idx.0 as int) {
                outcomes.len() == 0 && *final(self) == *old(self)
            } else {
                old(self).evidence_given(
                    final(self),
                    outcomes@,
                    round_id,
                    content,
                    validator_idx,
                    signature,
                )
            },
            !old(self).equivocates(round_id as int, content, validator_idx) ==> {
                &&& old(self).grows(final(self))
                &&& final(self).holds(round_id as int, content, validator_idx)
            },
            !old(self).holds(round_id as int, content, validator_idx) && !old(self).equivocates(
                round_id as int,
                content,
                validator_idx,
            ) ==> final(self).progress_detected && old(self).concluded(
                final(self),
                outcomes@,
                round_id as int,
                content,
                validator_idx,
                signature,
                now,
            ),
            old(self).adds_only(
                final(self),
                match content {
                    Content::Proposal(_) => old(self).own(),
                    _ => old(self).own().insert(validator_idx.0 as int),
                },
            ),
            !old(self).equivocates(round_id as int, content, validator_idx) ==> calm(outcomes@) && (
            content != Content::Vote(false) ==> old(self).same_skipped(final(self))),
            old(self).settles(final(self)),
            old(self).keeps_waiting(final(self)),
        decreases old(self).fault_budget(), old(self).round_budget(), content_rank(content),
    {
        let mut outcomes: Vec<ProtocolOutcome> = Vec::new();
        proof {
            lemma_grows_refl(old(self));
            lemma_adds_nothing(old(self), old(self));
            lemma_same_skipped(old(self), old(self));
            lemma_settles(old(self), old(self));
            lemma_extends_refl(old(self));
            lemma_keeps_waiting(old(self), old(self));
            lemma_calm_empty();
        }
        if self.contains(round_id, &content, validator_idx) {
            // The round holds the content already.
            return outcomes;
        }
        match content {
            Content::Proposal(proposal) => {
                match self.record_proposal(round_id, proposal, signature) {
                    Some(hash) => {
                        let ghost recorded = *self;
                        self.progress_detected = true;
                        proof {
                            lemma_adds_nothing(&recorded, self);
                        lemma_same_skipped(&recorded, self);
                        lemma_settles(&recorded, self);
                        lemma_keeps_waiting(&recorded, self);
                            assert(recorded.extends(self));
                            assert(recorded.grows(self));
                            lemma_extends_wf(&recorded, self);
                            lemma_extends_trans(old(self), &recorded, self);
                            lemma_grows_trans(old(self), &recorded, self);
                            lemma_extends_budgets(old(self), self);
                        }
                        let ghost marked = *self;
                        // The proposal is new: it may be accepted already, and it
                        // is echoed.
                        proof {
                            assert forall|q: int| q != round_id implies #[trigger] marked.round_at(
                                q,
                            ) == old(self).round_at(q) by {
                                assert(recorded.round_at(q) == old(self).round_at(q));
                            }
                            old(self).lemma_height_frame(&marked, round_id as int, proposal);
                        }
                        let checked = self.check_proposal(round_id, now);
                        let ghost checked_outcomes = checked@;
                        extend_outcomes(&mut outcomes, checked);
                        proof {
                            lemma_extends_trans(old(self), &marked, self);
                            lemma_grows_trans(old(self), &marked, self);
                            lemma_extends_budgets(old(self), self);
                        }
                        let ghost accepted = *self;
                        let ghost first = outcomes@;
                        let ghost more = Seq::<ProtocolOutcome>::empty();
                        if self.we_have_not_echoed(round_id, hash) {
                            let echoed = self.create_message(round_id, Content::Echo(hash), now);
                            proof {
                                more = echoed@;
                            }
                            extend_outcomes(&mut outcomes, echoed);
                            proof {
                                lemma_extends_trans(old(self), &accepted, self);
                                lemma_grows_trans(old(self), &accepted, self);
                                lemma_grows_trans(&marked, &accepted, self);
                            }
                        }
                        proof {
                            assert(marked.holds(round_id as int, content, validator_idx));
                            marked.lemma_grows_holds(self, round_id as int, content, validator_idx);
                            lemma_extends_outcome(&accepted, self, round_id as int);
                            if marked.spec_acceptable_height(round_id as int) is Some {
                                old(self).lemma_announced_still(
                                    &marked,
                                    &accepted,
                                    self,
                                    checked_outcomes,
                                    first,
                                    more,
                                    outcomes@,
                                    round_id as int,
                                    now,
                                );
                            }
                        }
                    },
                    None => {},
                }
            },
            Content::Echo(hash) => {
                match self.other_echo(round_id, hash, validator_idx) {
                    Some((other_hash, other_signature)) => {
                        // The validator has signed two echoes in one round.
                        return self.handle_fault(
                            round_id,
                            validator_idx,
                            Content::Echo(hash),
                            signature,
                            Content::Echo(other_hash),
                            other_signature,
                            now,
                        );
                    },
                    None => {},
                }
                if self.record_echo(round_id, hash, validator_idx, signature) {
                    let ghost recorded = *self;
                    self.progress_detected = true;
                    proof {
                        lemma_adds_nothing(&recorded, self);
                        lemma_same_skipped(&recorded, self);
                        lemma_settles(&recorded, self);
                        lemma_keeps_waiting(&recorded, self);
                        assert(recorded.extends(self));
                        assert(recorded.grows(self));
                        lemma_extends_wf(&recorded, self);
                        lemma_extends_trans(old(self), &recorded, self);
                        lemma_grows_trans(old(self), &recorded, self);
                    }
                    let ghost marked = *self;
                    proof {
                        lemma_grows_refl(&marked);
                    }
                    if self.quorum_echos(round_id).is_none() && self.is_quorum_of_echos(
                        round_id,
                        hash,
                    ) {
                        // The echo made the echoes a quorum.
                        self.set_quorum_echos(round_id, hash);
                        proof {
                            lemma_extends_trans(old(self), &marked, self);
                            lemma_grows_trans(old(self), &marked, self);
                            lemma_extends_budgets(old(self), self);
                        }
                        let ghost echoed = *self;
                        proof {
                            assert forall|q: int| q != round_id implies #[trigger] echoed.round_at(
                                q,
                            ) == old(self).round_at(q) by {
                                assert(recorded.round_at(q) == old(self).round_at(q));
                                assert(echoed.round_at(q) == marked.round_at(q));
                            }
                            old(self).lemma_echoed_height_frame(&echoed, round_id as int, hash);
                        }
                        let checked = self.check_proposal(round_id, now);
                        let ghost checked_outcomes = checked@;
                        extend_outcomes(&mut outcomes, checked);
                        proof {
                            lemma_extends_trans(old(self), &echoed, self);
                            lemma_grows_trans(old(self), &echoed, self);
                            lemma_grows_trans(&marked, &echoed, self);
                            lemma_extends_outcome(&echoed, self, round_id as int);
                            if echoed.spec_acceptable_height(round_id as int) is Some {
                                lemma_extends_refl(self);
                                old(self).lemma_announced_still(
                                    &echoed,
                                    self,
                                    self,
                                    checked_outcomes,
                                    outcomes@,
                                    Seq::<ProtocolOutcome>::empty(),
                                    outcomes@,
                                    round_id as int,
                                    now,
                                );
                            }
                        }
                    }
                    proof {
                        assert(marked.holds(round_id as int, content, validator_idx));
                        marked.lemma_grows_holds(self, round_id as int, content, validator_idx);
                    }
                }
            },
            Content::Vote(vote) => {
                match self.other_vote(round_id, vote, validator_idx) {
                    Some(other_signature) => {
                        // The validator has voted both ways in one round.
                        return self.handle_fault(
                            round_id,
                            validator_idx,
                            Content::Vote(vote),
                            signature,
                            Content::Vote(!vote),
                            other_signature,
                            now,
                        );
                    },
                    None => {},
                }
                if self.record_vote(round_id, vote, validator_idx, signature) {
                    let ghost recorded = *self;
                    self.progress_detected = true;
                    proof {
                        lemma_adds_nothing(&recorded, self);
                        lemma_same_skipped(&recorded, self);
                        lemma_settles(&recorded, self);
                        lemma_keeps_waiting(&recorded, self);
                        assert(recorded.extends(self));
                        assert(recorded.grows(self));
                        lemma_extends_wf(&recorded, self);
                        lemma_extends_trans(old(self), &recorded, self);
                        lemma_grows_trans(old(self), &recorded, self);
                    }
                    let ghost marked = *self;
                    proof {
                        lemma_grows_refl(&marked);
                    }
                    if self.quorum_votes(round_id).is_none() && self.is_quorum_of_votes(
                        round_id,
                        vote,
                    ) {
                        // The vote made the votes a quorum.
                        self.set_quorum_votes(round_id, vote);
                        proof {
                            lemma_extends_trans(old(self), &marked, self);
                            lemma_grows_trans(old(self), &marked, self);
                        }
                        let ghost decided = *self;
                        if vote {
                            // The round is committed. If there is an accepted
                            // proposal already, it is finalized.
                            proof {
                                assert(effects(outcomes@) =~= Seq::<Effect>::empty());
                                assert(decided.accepted_height(round_id as int)
                                    == old(self).accepted_height(round_id as int));
                            }
                            if self.has_accepted_proposal(round_id) {
                                proof {
                                    assert(decided.accepted_ok(round_id as int));
                                    assert(old(self).accepted_ok(round_id as int));
                                    old(self).lemma_extends_blocks(
                                        &decided,
                                        round_id as int,
                                        old(self).first_non_finalized_round_id as int,
                                    );
                                }
                                let finalized = self.finalize_round(round_id);
                                let ghost blocks = effects(finalized@);
                                extend_outcomes(&mut outcomes, finalized);
                                proof {
                                    assert(effects(outcomes@) =~= blocks);
                                    lemma_extends_trans(old(self), &decided, self);
                                    lemma_grows_trans(old(self), &decided, self);
                                    lemma_grows_trans(&marked, &decided, self);
                                }
                            }
                            proof {
                                lemma_settled(self, round_id as int);
                            }
                        } else {
                            // The round is skippable. If there is no accepted
                            // proposal, this starts the next round.
                            proof {
                                assert forall|q: int| #[trigger]
                                    decided.accepted_height(q) == old(self).accepted_height(q) by {
                                    if q != round_id {
                                        assert(recorded.round_at(q) == old(self).round_at(q));
                                        assert(decided.round_at(q) == marked.round_at(q));
                                    }
                                }
                                assert forall|q: int| q != round_id implies #[trigger]
                                    decided.spec_is_skippable_round(q) == old(self).spec_is_skippable_round(q) by {
                                    assert(recorded.round_at(q) == old(self).round_at(q));
                                    assert(decided.round_at(q) == marked.round_at(q));
                                }
                                if old(self).accepted_height(round_id as int) is None {
                                    old(self).lemma_current_round_after_skip(
                                        &decided,
                                        round_id as int,
                                    );
                                }
                            }
                            if !self.has_accepted_proposal(round_id) && self.current_round()
                                > round_id {
                                proof {
                                    lemma_calm_push(outcomes@, ProtocolOutcome::ScheduleTimer(now, TIMER_ID_ROUND));
                                }
                                outcomes.push(ProtocolOutcome::ScheduleTimer(now, TIMER_ID_ROUND));
                            }
                            let ghost scheduled = effects(outcomes@);
                            proof {
                                lemma_begins_with_itself(scheduled);
                            }
                            // A proposal of a later round may be accepted now.
                            let last = self.rounds.len();
                            let mut current: usize = round_id as usize + 1;
                            while current < last
                                invariant
                                    begins_with(effects(outcomes@), scheduled),
                                    self.wf(),
                                    old(self).extends(self),
                                    old(self).same_control(self),
                                    calm(outcomes@),
                                    old(self).settles(self),
                                    old(self).keeps_waiting(self),
                                    old(self).adds_only(self, old(self).own().insert(validator_idx.0 as int)),
                                    old(self).grows(self),
                                    marked.grows(self),
                                    decided.extends(self),
                                    last <= u32::MAX,
                                decreases last - current,
                            {
                                let ghost entry = *self;
                                proof {
                                    lemma_extends_budgets(old(self), self);
                                }
                                let checked = self.check_proposal(current as u32, now);
                                let ghost announced = effects(outcomes@);
                                extend_outcomes(&mut outcomes, checked);
                                proof {
                                    lemma_begins_with_more(announced, effects(checked@), scheduled);
                                    lemma_extends_trans(old(self), &entry, self);
                                    lemma_grows_trans(old(self), &entry, self);
                                    lemma_grows_trans(&marked, &entry, self);
                                    lemma_extends_trans(&decided, &entry, self);
                                }
                                current += 1;
                            }
                            proof {
                                if scheduled.len() > 0 {
                                    lemma_begins_with_first(effects(outcomes@), scheduled);
                                }
                            }
                        }
                        proof {
                            lemma_extends_outcome(&decided, self, round_id as int);
                        }
                    }
                    proof {
                        assert(marked.holds(round_id as int, content, validator_idx));
                        marked.lemma_grows_holds(self, round_id as int, content, validator_idx);
                    }
                }
            },
        }
        outcomes
    }

    /// Whether the round holds an echo of the validator, of whatever hash.
    pub open spec fn spec_has_echoed_at(&self, round_id: int, validator_idx: ValidatorIndex) -> bool {
        match self.round_at(round_id) {
            Some(round) => round.spec_has_echoed(validator_idx),
            None => false,
        }
    }

    /// Whether this node is a validator and has not echoed a hash in the round. If
    /// so, its echo of `hash` contradicts nothing that the round holds.
    fn we_have_not_echoed(&self, round_id: RoundId, hash: Digest) -> (res: bool)
        requires
            self.wf_basic(),
        ensures
            res == match self.active_validator {
                Some((our_idx, _)) => !self.spec_has_echoed_at(round_id as int, our_idx),
                None => false,
            },
            res ==> !self.equivocates(
                round_id as int,
                Content::Echo(hash),
                self.active_validator.unwrap().0,
            ),
    {
        match &self.active_validator {
            Some((our_idx, _)) => match self.round(round_id) {
                Some(round) => {
                    assert(self.rounds[round_id as int] is Some);
                    !round.has_echoed(*our_idx)
                },
                None => true,
            },
            None => false,
        }
    }

    /// Whether this node is a validator and has not voted in the round.
    fn we_have_not_voted(&self, round_id: RoundId) -> (res: bool)
        requires
            self.wf_basic(),
        ensures
            res ==> self.active_validator is Some && !self.equivocates(
                round_id as int,
                Content::Vote(true),
                self.active_validator.unwrap().0,
            ) && !self.equivocates(
                round_id as int,
                Content::Vote(false),
                self.active_validator.unwrap().0,
            ),
            !res && self.active_validator is Some ==> self.spec_has_voted_at(
                round_id as int,
                self.active_validator.unwrap().0,
            ),
            res == match self.active_validator {
                Some((our_idx, _)) => !self.spec_has_voted_at(round_id as int, our_idx),
                None => false,
            },
    {
        match &self.active_validator {
            Some((our_idx, _)) => match self.round(round_id) {
                Some(round) => {
                    assert(self.rounds[round_id as int] is Some);
                    !round.has_voted(*our_idx)
                },
                None => true,
            },
            None => false,
        }
    }

    /// Checks whether the round has already received the content from the validator.
    pub fn contains(&self, round_id: RoundId, content: &Content, validator_idx: ValidatorIndex) -> (res:
        bool)
        requires
            self.wf_basic(),
            validator_idx.0 < self.weights.len(),
        ensures
            res == self.holds(round_id as int, *content, validator_idx),
    {
        match self.round(round_id) {
            Some(round) => {
                assert(self.rounds[round_id as int] is Some);
                round.contains::<C>(content, validator_idx)
            },
            None => false,
        }
    }

    /// An echo of the validator in the round for a hash other than `hash`, if the
    /// round holds one.
    fn other_echo(&self, round_id: RoundId, hash: Digest, validator_idx: ValidatorIndex) -> (res:
        Option<(Digest, Signature)>)
        requires
            self.wf_basic(),
            validator_idx.0 < self.weights.len(),
        ensures
            res is Some == self.echoed_other_at(round_id as int, hash, validator_idx),
            res matches Some((other, signature)) ==> {
                &&& other != hash
                &&& validator_idx.0 < self.echo_signatures_at(round_id as int, other).len()
                &&& self.echo_signatures_at(round_id as int, other)[validator_idx.0 as int] == Some(
                    signature,
                )
            },
    {
        match self.round(round_id) {
            Some(round) => {
                assert(self.rounds[round_id as int] is Some);
                round.find_other_echo(hash, validator_idx)
            },
            None => None,
        }
    }

    /// The signature under the opposite vote of the validator in the round, if the
    /// round holds one.
    fn other_vote(&self, round_id: RoundId, vote: bool, validator_idx: ValidatorIndex) -> (res:
        Option<Signature>)
        requires
            self.wf_basic(),
            validator_idx.0 < self.weights.len(),
        ensures
            res == self.votes_at(round_id as int, !vote)[validator_idx.0 as int],
    {
        match self.round(round_id) {
            Some(round) => {
                assert(self.rounds[round_id as int] is Some);
                if vote {
                    round.votes_false[validator_idx.0 as usize]
                } else {
                    round.votes_true[validator_idx.0 as usize]
                }
            },
            None => None,
        }
    }

    /// Whether the validators that have echoed the hash in the round, together with
    /// all faulty validators, form a quorum.
    pub fn is_quorum_of_echos(&self, round_id: RoundId, hash: Digest) -> (res: bool)
        requires
            self.wf_basic(),
        ensures
            res == match self.round_at(round_id as int) {
                Some(round) => round.has_echos(hash) && self.spec_is_quorum(
                    round.echo_signatures(hash),
                ),
                None => false,
            },
    {
        match self.round(round_id) {
            Some(round) => {
                assert(self.rounds[round_id as int] is Some);
                match round.echo_map(hash) {
                    Some(map) => self.is_quorum(map),
                    None => false,
                }
            },
            None => false,
        }
    }

    /// Checks whether the proposal that a quorum has echoed in the round has become
    /// acceptable, and accepts it if so. The next round is then started unless this
    /// one is skippable, the round is finalized if it is committed, the local
    /// validator votes to commit it unless it has voted, and the proposals that
    /// have waited for this one are taken up.
    pub fn check_proposal(&mut self, round_id: RoundId, now: Timestamp) -> (outcomes: Vec<
        ProtocolOutcome,
    >)
        requires
            old(self).wf(),
        ensures
            final(self).wf(),
            old(self).extends(final(self)),
            old(self).same_control(final(self)),
            old(self).grows(final(self)),
            match old(self).spec_acceptable_height(round_id as int) {
                Some(height) => {
                    &&& final(self).accepted_height(round_id as int) == Some(height)
                    &&& old(self).acceptance_announced(final(self), outcomes@, round_id as int, now)
                    &&& old(self).outcome_at(round_id as int).quorum_votes == Some(true)
                        ==> final(self).first_non_finalized_round_id > round_id
                    &&& old(self).active_validator is Some ==> final(self).spec_has_voted_at(
                        round_id as int,
                        old(self).active_validator.unwrap().0,
                    )
                    &&& match old(self).active_validator {
                        Some((our_idx, secret)) => !old(self).spec_has_voted_at(
                            round_id as int,
                            our_idx,
                        ) ==> {
                            let signature = secret.spec_sign(
                                spec_signed_hash::<C>(
                                    round_id,
                                    old(self).instance_id,
                                    Content::Vote(true),
                                    our_idx,
                                ),
                            );
                            &&& final(self).holds(round_id as int, Content::Vote(true), our_idx)
                            &&& effects(outcomes@).contains(
                                Effect::CreatedGossipMessage(
                                    spec_serialize(
                                        old(self).signed_message(
                                            round_id,
                                            Content::Vote(true),
                                            our_idx,
                                            signature,
                                        ),
                                    ),
                                ),
                            )
                        },
                        None => true,
                    }
                    &&& final(self).none_waits_for(round_id as int)
                    &&& forall|waiting: WaitingProposal|
                        old(self).waits(waiting) && waiting.parent_round_id == round_id
                            ==> #[trigger] final(self).taken_up(waiting)
                },
                None => outcomes.len() == 0 && *final(self) == *old(self),
            },
            old(self).adds_only(final(self), old(self).own()),
            old(self).same_skipped(final(self)),
            old(self).settles(final(self)),
            old(self).keeps_waiting(final(self)),
            calm(outcomes@),
        decreases old(self).fault_budget(), old(self).round_budget(), 0nat,
    {
        proof {
            lemma_extends_refl(old(self));
            lemma_adds_nothing(old(self), old(self));
            lemma_same_skipped(old(self), old(self));
            lemma_settles(old(self), old(self));
            lemma_extends_refl(old(self));
            lemma_keeps_waiting(old(self), old(self));
            lemma_calm_empty();
            lemma_grows_refl(old(self));
        }
        let height = match self.acceptable_height(round_id) {
            Some(height) => height,
            None => {
                return Vec::new();
            },
        };
        proof {
            reveal(SimpleConsensus::accepted_at);
            assert(!old(self).accepted_at(round_id as int));
        }
        // The round holds a proposal that a quorum has echoed, the proposal it
        // builds on is accepted, and all rounds in between are skippable: the
        // proposal is accepted.
        self.set_accepted(round_id, height);
        let mut outcomes: Vec<ProtocolOutcome> = Vec::new();
        let ghost accepted = *self;
        proof {
            lemma_extends_budgets(old(self), self);
            reveal(SimpleConsensus::accepted_at);
            reveal(SimpleConsensus::waits);
            assert(accepted.accepted_at(round_id as int));
            assert(forall|waiting: WaitingProposal|
                old(self).waits(waiting) ==> #[trigger] accepted.waits(waiting));
            assert(accepted.accepted_ok(round_id as int));
            assert(accepted.accepted_proposal_at(round_id as int) is Some);
        }
        // Unless the round is skippable, the accepted proposal starts the next
        // round. If the round is committed, the proposal is finalized.
        match self.quorum_votes(round_id) {
            Some(false) => {},
            votes => {
                proof {
                    lemma_calm_push(outcomes@, ProtocolOutcome::ScheduleTimer(now, TIMER_ID_ROUND));
                }
                outcomes.push(ProtocolOutcome::ScheduleTimer(now, TIMER_ID_ROUND));
                if votes == Some(true) {
                    proof {
                        assert(accepted.accepted_ok(round_id as int));
                    }
                    let finalized = self.finalize_round(round_id);
                    extend_outcomes(&mut outcomes, finalized);
                }
            },
        }
        let ghost scheduled = effects(outcomes@);
        let ghost floor = old(self).first_non_finalized_round_id as int;
        proof {
            lemma_settled(self, round_id as int);
            lemma_begins_with_itself(scheduled);
            if old(self).outcome_at(round_id as int).quorum_votes == Some(true) && round_id
                >= floor {
                assert(scheduled =~= seq![Effect::ScheduleTimer(now, TIMER_ID_ROUND)]
                    + accepted.chain_blocks(round_id as int, floor));
            }
        }
        proof {
            lemma_extends_trans(old(self), &accepted, self);
            lemma_grows_trans(old(self), &accepted, self);
            lemma_extends_budgets(&accepted, self);
        }
        let ghost finalized = *self;
        proof {
            assert(finalized.votes_at(round_id as int, true) == old(self).votes_at(
                round_id as int,
                true,
            ));
            assert(finalized.votes_at(round_id as int, false) == old(self).votes_at(
                round_id as int,
                false,
            ));
        }
        // The local validator votes to commit the round, unless it has voted.
        if self.we_have_not_voted(round_id) {
            let voted = self.create_message(round_id, Content::Vote(true), now);
            let ghost announced = effects(outcomes@);
            extend_outcomes(&mut outcomes, voted);
            proof {
                lemma_begins_with_more(announced, effects(voted@), scheduled);
                lemma_extends_trans(old(self), &finalized, self);
                lemma_grows_trans(old(self), &finalized, self);
                lemma_extends_budgets(&finalized, self);
                let cast = effects(outcomes@);
                assert(cast[cast.len() - 1] == effects(voted@).last());
                assert(cast.contains(effects(voted@).last()));
            }
        }
        let ghost voted_by_us = *self;
        let ghost cast = effects(outcomes@);
        proof {
            lemma_begins_with_itself(cast);
        }
        proof {
            assert(self.active_validator is Some ==> self.spec_has_voted_at(
                round_id as int,
                self.active_validator.unwrap().0,
            ));
        }
        // The proposals that build on this one can be validated now.
        let ghost voted_state = *self;
        proof {
            assert(forall|waiting: WaitingProposal|
                old(self).waits(waiting) && waiting.parent_round_id == round_id
                    ==> #[trigger] voted_state.waits(waiting));
        }
        let waiting = self.take_waiting_for_parent(round_id);
        let ghost drained = *self;
        proof {
            lemma_extends_accepted_proposal(&accepted, self, round_id as int);
            accepted.lemma_chain_ends(round_id as int);
            accepted.lemma_extends_ancestors(self, round_id as int);
            lemma_extends_trans(old(self), &voted_state, self);
            lemma_grows_trans(old(self), &voted_state, self);
            lemma_grows_trans(&voted_by_us, &voted_state, self);
            lemma_grows_refl(&drained);
            lemma_extends_accepted(&accepted, self, round_id as int);
            assert(scheduled.len() > 0 ==> effects(outcomes@)[0] == scheduled[0]);
        }
        if waiting.len() > 0 {
            let ancestor_values = match self.ancestor_values(round_id) {
                Some(ancestor_values) => ancestor_values,
                None => {
                    proof {
                        // The round holds an accepted proposal, so that the blocks it
                        // builds on are known: this is never reached.
                        assert(false);
                        accepted.lemma_extends_blocks(self, round_id as int, floor);
                        old(self).lemma_announced(self, outcomes@, round_id as int, now);
                        if self.active_validator is Some {
                            let our_idx = self.active_validator.unwrap().0;
                            if voted_by_us.holds(round_id as int, Content::Vote(true), our_idx) {
                                voted_by_us.lemma_grows_holds(
                                    self,
                                    round_id as int,
                                    Content::Vote(true),
                                    our_idx,
                                );
                            }
                        }
                    }
                    return outcomes;
                },
            };
            let mut i: usize = 0;
            while i < waiting.len()
                invariant
                    self.wf(),
                    old(self).extends(self),
                    old(self).same_control(self),
                    calm(outcomes@),
                    old(self).same_skipped(self),
                    old(self).settles(self),
                    old(self).keeps_waiting(self),
                    old(self).adds_only(self, old(self).own()),
                    old(self).grows(self),
                    accepted.extends(self),
                    voted_by_us.grows(self),
                    voted_by_us.wf(),
                    drained.grows(self),
                    self.round_budget() < old(self).round_budget(),
                    self.fault_budget() <= old(self).fault_budget(),
                    scheduled.len() <= effects(outcomes@).len(),
                    scheduled.len() > 0 ==> effects(outcomes@)[0] == scheduled[0],
                    begins_with(effects(outcomes@), scheduled),
                    begins_with(effects(outcomes@), cast),
                    i <= waiting.len(),
                    accepted.wf(),
                    accepted.accepted_proposal_at(round_id as int) is Some,
                    accepted.spec_ancestor_values(round_id as int) == Some(ancestor_values@),
                    forall|k: int|
                        0 <= k < waiting.len() ==> (#[trigger] waiting[k]).parent_round_id
                            == round_id && waiting[k].proposal.maybe_parent_round_id == Some(
                            round_id,
                        ),
                    forall|k: int| 0 <= k < i ==> self.taken_up(#[trigger] waiting[k]),
                    forall|k: int|
                        0 <= k < waiting.len() ==> {
                            &&& (#[trigger] waiting[k]).round_id < u32::MAX
                            &&& parent_is_earlier(
                                waiting[k].proposal.maybe_parent_round_id,
                                waiting[k].round_id as int,
                            )
                        },
                decreases waiting.len() - i,
            {
                let ghost entry = *self;
                let entry_proposal = waiting[i];
                let validated = self.validate_proposal(
                    entry_proposal.round_id,
                    entry_proposal.proposal,
                    copy_values(&ancestor_values),
                    entry_proposal.sender,
                    entry_proposal.signature,
                    now,
                );
                let ghost announced = effects(outcomes@);
                extend_outcomes(&mut outcomes, validated);
                proof {
                    lemma_begins_with_more(announced, effects(validated@), scheduled);
                    lemma_begins_with_more(announced, effects(validated@), cast);
                    lemma_extends_accepted_proposal(&accepted, &entry, round_id as int);
                    lemma_extends_accepted_proposal(&accepted, self, round_id as int);
                    accepted.lemma_extends_ancestors(&entry, round_id as int);
                    accepted.lemma_extends_ancestors(self, round_id as int);
                    assert(self.taken_up(waiting[i as int]));
                    assert forall|k: int| 0 <= k < i implies self.taken_up(#[trigger] waiting[k]) by {
                        entry.lemma_taken_up_still(self, waiting[k]);
                    }
                    lemma_extends_trans(old(self), &entry, self);
                    lemma_extends_trans(&accepted, &entry, self);
                    lemma_grows_trans(old(self), &entry, self);
                    lemma_grows_trans(&voted_by_us, &entry, self);
                    lemma_grows_trans(&drained, &entry, self);
                    lemma_extends_budgets(&entry, self);
                }
                i += 1;
            }
            proof {
                lemma_grows_none_waits(&drained, self, round_id as int);
            }
            proof {
                lemma_extends_accepted(&accepted, self, round_id as int);
            }
        }
        proof {
            if self.active_validator is Some {
                voted_by_us.lemma_grows_voted(
                    self,
                    round_id as int,
                    self.active_validator.unwrap().0,
                );
            }
            accepted.lemma_extends_blocks(self, round_id as int, floor);
            old(self).lemma_announced(self, outcomes@, round_id as int, now);
            assert forall|entry: WaitingProposal|
                old(self).waits(entry) && entry.parent_round_id == round_id implies #[trigger]
                self.taken_up(entry) by {
                assert(waiting@.contains(entry));
                let k = choose|k: int| 0 <= k < waiting@.len() && waiting@[k] == entry;
                assert(self.taken_up(waiting[k]));
            }
            if self.active_validator is Some {
                let our_idx = self.active_validator.unwrap().0;
                if voted_by_us.holds(round_id as int, Content::Vote(true), our_idx) {
                    voted_by_us.lemma_grows_holds(self, round_id as int, Content::Vote(true), our_idx);
                }
                if !old(self).spec_has_voted_at(round_id as int, our_idx) {
                    let secret = self.active_validator.unwrap().1;
                    let gossip = Effect::CreatedGossipMessage(
                        spec_serialize(
                            old(self).signed_message(
                                round_id,
                                Content::Vote(true),
                                our_idx,
                                secret.spec_sign(
                                    spec_signed_hash::<C>(
                                        round_id,
                                        old(self).instance_id,
                                        Content::Vote(true),
                                        our_idx,
                                    ),
                                ),
                            ),
                        ),
                    );
                    assert(cast.contains(gossip));
                    lemma_begins_with_contains(effects(outcomes@), cast, gossip);
                }
            }
        }
        outcomes
    }

    /// The height at which the proposal that a quorum has echoed in the round can be
    /// accepted, if it can.
    fn acceptable_height(&self, round_id: RoundId) -> (res: Option<u64>)
        requires
            self.wf(),
        ensures
            res == self.spec_acceptable_height(round_id as int),
    {
        let round = match self.round(round_id) {
            Some(round) => round,
            None => {
                return None;
            },
        };
        assert(self.rounds[round_id as int] is Some);
        let hash = match round.outcome.quorum_echos {
            Some(hash) => hash,
            None => {
                // The round has no quorum of echoes yet.
                return None;
            },
        };
        if round.has_accepted_proposal() {
            return None;
        }
        let proposal = match round.find_proposal(hash) {
            Some(i) => {
                proof {
                    round.lemma_proposal_position(self.count(), i as int);
                    assert(parent_is_earlier(
                        self.rounds[round_id as int].unwrap().proposals[i as int].proposal.maybe_parent_round_id,
                        round_id as int,
                    ));
                }
                round.proposals[i].proposal
            },
            None => {
                // There is a quorum of echoes, but no proposal yet.
                return None;
            },
        };
        let (first_skipped, height): (u32, u64) = match proposal.maybe_parent_round_id {
            Some(parent) => match self.round(parent) {
                Some(parent_round) => match parent_round.outcome.accepted_proposal_height {
                    Some(parent_height) => (parent + 1, parent_height.saturating_add(1)),
                    None => {
                        // The proposal that this one builds on is not accepted yet.
                        return None;
                    },
                },
                None => {
                    return None;
                },
            },
            None => (0, 0),
        };
        let mut current = first_skipped;
        assert(self.spec_acceptable_height(round_id as int) == if forall|q: int|
            first_skipped <= q < round_id ==> #[trigger] self.spec_is_skippable_round(q) {
            Some(height)
        } else {
            None
        });
        while current < round_id
            invariant
                first_skipped <= current <= round_id,
                forall|q: int| first_skipped <= q < current ==> #[trigger] self.spec_is_skippable_round(q),
                self.spec_acceptable_height(round_id as int) == if forall|q: int|
                    first_skipped <= q < round_id ==> #[trigger] self.spec_is_skippable_round(q) {
                    Some(height)
                } else {
                    None
                },
            decreases round_id - current,
        {
            if !self.is_skippable_round(current) {
                // A round in between is not skippable yet.
                return None;
            }
            current += 1;
        }
        Some(height)
    }

    /// Takes the proposals that wait for the proposal of the round out of the list,
    /// in the order of their arrival.
    fn take_waiting_for_parent(&mut self, round_id: RoundId) -> (taken: Vec<WaitingProposal>)
        requires
            old(self).wf(),
        ensures
            final(self).wf(),
            old(self).extends(final(self)),
            old(self).grows(final(self)),
            final(self).round_budget() == old(self).round_budget(),
            final(self).fault_budget() == old(self).fault_budget(),
            *final(self) == (SimpleConsensus {
                proposals_waiting_for_parent: final(self).proposals_waiting_for_parent,
                ..*old(self)
            }),
            final(self).none_waits_for(round_id as int),
            old(self).adds_only(final(self), Set::empty()),
            old(self).same_skipped(final(self)),
            old(self).settles(final(self)),
            forall|r: int| old(self).accepted_at(r) ==> #[trigger] final(self).accepted_at(r),
            forall|pending: PendingView|
                old(self).awaits(pending) ==> #[trigger] final(self).awaits(pending),
            forall|waiting: WaitingProposal|
                old(self).waits(waiting) && waiting.parent_round_id != round_id
                    ==> #[trigger] final(self).waits(waiting),
            forall|waiting: WaitingProposal|
                old(self).waits(waiting) && waiting.parent_round_id == round_id
                    ==> #[trigger] taken@.contains(waiting),
            forall|k: int|
                0 <= k < taken.len() ==> {
                    &&& (#[trigger] taken[k]).round_id < u32::MAX
                    &&& taken[k].parent_round_id == round_id
                    &&& taken[k].proposal.maybe_parent_round_id == Some(round_id)
                    &&& parent_is_earlier(
                        taken[k].proposal.maybe_parent_round_id,
                        taken[k].round_id as int,
                    )
                },
    {
        let mut taken: Vec<WaitingProposal> = Vec::new();
        let mut kept: Vec<WaitingProposal> = Vec::new();
        let mut i: usize = 0;
        while i < self.proposals_waiting_for_parent.len()
            invariant
                i <= self.proposals_waiting_for_parent.len(),
                *self == *old(self),
                self.wf(),
                forall|k: int|
                    0 <= k < taken.len() ==> {
                        &&& (#[trigger] taken[k]).round_id < u32::MAX
                        &&& taken[k].parent_round_id == round_id
                        &&& taken[k].proposal.maybe_parent_round_id == Some(round_id)
                        &&& parent_is_earlier(
                            taken[k].proposal.maybe_parent_round_id,
                            taken[k].round_id as int,
                        )
                    },
                forall|k: int|
                    0 <= k < kept.len() ==> {
                        &&& (#[trigger] kept[k]).parent_round_id < kept[k].round_id < u32::MAX
                        &&& kept[k].proposal.maybe_parent_round_id == Some(kept[k].parent_round_id)
                        &&& kept[k].parent_round_id != round_id
                        &&& self.proposals_waiting_for_parent@.contains(kept[k])
                    },
                forall|k: int|
                    0 <= k < i ==> if (#[trigger] self.proposals_waiting_for_parent[k]).parent_round_id
                        == round_id {
                        taken@.contains(self.proposals_waiting_for_parent[k])
                    } else {
                        kept@.contains(self.proposals_waiting_for_parent[k])
                    },
            decreases self.proposals_waiting_for_parent.len() - i,
        {
            let entry = self.proposals_waiting_for_parent[i];
            let ghost taken_before = taken@;
            let ghost kept_before = kept@;
            if entry.parent_round_id == round_id {
                taken.push(entry);
            } else {
                kept.push(entry);
            }
            proof {
                assert forall|k: int| 0 <= k < i + 1 implies if (
                #[trigger] self.proposals_waiting_for_parent[k]).parent_round_id == round_id {
                    taken@.contains(self.proposals_waiting_for_parent[k])
                } else {
                    kept@.contains(self.proposals_waiting_for_parent[k])
                } by {
                    let e = self.proposals_waiting_for_parent[k];
                    if k < i {
                        if e.parent_round_id == round_id {
                            let j = choose|j: int| 0 <= j < taken_before.len() && taken_before[j] == e;
                            assert(taken@[j] == e);
                        } else {
                            let j = choose|j: int| 0 <= j < kept_before.len() && kept_before[j] == e;
                            assert(kept@[j] == e);
                        }
                    } else {
                        if e.parent_round_id == round_id {
                            assert(taken@[taken@.len() - 1] == e);
                        } else {
                            assert(kept@[kept@.len() - 1] == e);
                        }
                    }
                }
            }
            i += 1;
        }
        self.proposals_waiting_for_parent = kept;
        proof {
            assert(old(self).extends(self));
            reveal(SimpleConsensus::waits);
            reveal(SimpleConsensus::awaits);
            reveal(SimpleConsensus::accepted_at);
            assert forall|waiting: WaitingProposal|
                old(self).waits(waiting) && waiting.parent_round_id != round_id implies #[trigger]
                self.waits(waiting) by {
                let k = choose|k: int|
                    0 <= k < old(self).proposals_waiting_for_parent.len()
                        && old(self).proposals_waiting_for_parent[k] == waiting;
                assert(kept@.contains(old(self).proposals_waiting_for_parent[k]));
            }
            assert forall|waiting: WaitingProposal|
                old(self).waits(waiting) && waiting.parent_round_id == round_id implies #[trigger]
                taken@.contains(waiting) by {
                let k = choose|k: int|
                    0 <= k < old(self).proposals_waiting_for_parent.len()
                        && old(self).proposals_waiting_for_parent[k] == waiting;
                assert(taken@.contains(old(self).proposals_waiting_for_parent[k]));
            }
            lemma_extends_wf(old(self), self);
            lemma_adds_nothing(old(self), self);
            lemma_same_skipped(old(self), self);
            lemma_settles(old(self), self);
        }
        taken
    }

    /// Whether the proposal is older than the accepted proposal that it builds on.
    pub open spec fn older_than_parent(&self, proposal: Proposal) -> bool {
        match proposal.maybe_parent_round_id {
            Some(parent) => match self.accepted_proposal_at(parent as int) {
                Some((_, parent_proposal)) => parent_proposal.timestamp.0 > proposal.timestamp.0,
                None => false,
            },
            None => false,
        }
    }

    /// The proposal as it awaits the validation of its block.
    pub open spec fn pending_view(
        round_id: RoundId,
        proposal: Proposal,
        ancestor_values: Seq<ConsensusValue>,
        sender: NodeId,
        signature: Signature,
    ) -> PendingView {
        PendingView {
            proposed_block: ProposedBlockView {
                value: proposal.maybe_block.unwrap(),
                context: BlockContextView { timestamp: proposal.timestamp, ancestor_values },
            },
            round_id,
            maybe_parent_round_id: proposal.maybe_parent_round_id,
            sender,
            signature,
        }
    }

    /// Whether the proposal that waited for the proposal of its parent round has
    /// been taken up: unless it is older than the proposal it builds on, it awaits
    /// the validation of its block, if that has to be validated, and is on record
    /// otherwise.
    pub open spec fn taken_up(&self, waiting: WaitingProposal) -> bool {
        if self.older_than_parent(waiting.proposal) {
            true
        } else if Self::must_validate(waiting.proposal) {
            self.spec_ancestor_values(waiting.parent_round_id as int) is Some && self.awaits(
                Self::pending_view(
                    waiting.round_id,
                    waiting.proposal,
                    self.spec_ancestor_values(waiting.parent_round_id as int).unwrap(),
                    waiting.sender,
                    waiting.signature,
                ),
            )
        } else {
            self.holds(
                waiting.round_id as int,
                Content::Proposal(waiting.proposal),
                self.spec_leader(waiting.round_id),
            )
        }
    }

    /// A proposal that has been taken up is taken up as long as the state grows and
    /// keeps what awaits validation.
    pub proof fn lemma_taken_up_still(&self, after: &SimpleConsensus<C>, waiting: WaitingProposal)
        requires
            self.wf(),
            after.wf(),
            self.grows(after),
            self.keeps_waiting(after),
            self.taken_up(waiting),
            waiting.proposal.maybe_parent_round_id == Some(waiting.parent_round_id),
            self.accepted_proposal_at(waiting.parent_round_id as int) is Some,
        ensures
            after.taken_up(waiting),
    {
        lemma_extends_accepted_proposal(self, after, waiting.parent_round_id as int);
        self.lemma_extends_ancestors(after, waiting.parent_round_id as int);
        if !self.older_than_parent(waiting.proposal) && !Self::must_validate(waiting.proposal) {
            self.leader_sequence.lemma_leader_in_range(waiting.round_id as u64);
            self.lemma_grows_holds(
                after,
                waiting.round_id as int,
                Content::Proposal(waiting.proposal),
                self.spec_leader(waiting.round_id),
            );
        }
    }

    /// Whether the block of the proposal has to be validated.
    pub open spec fn must_validate(proposal: Proposal) -> bool {
        match proposal.maybe_block {
            Some(block) => C::spec_needs_validation(block),
            None => false,
        }
    }

    /// Has the block of a proposal validated, or, if it needs no validation,
    /// processes the proposal at once. A proposal that is older than the one it
    /// builds on is dropped.
    pub fn validate_proposal(
        &mut self,
        round_id: RoundId,
        proposal: Proposal,
        ancestor_values: Vec<ConsensusValue>,
        sender: NodeId,
        signature: Signature,
        now: Timestamp,
    ) -> (outcomes: Vec<ProtocolOutcome>)
        requires
            old(self).wf(),
            round_id < u32::MAX,
            parent_is_earlier(proposal.maybe_parent_round_id, round_id as int),
        ensures
            final(self).wf(),
            old(self).extends(final(self)),
            old(self).same_control(final(self)),
            old(self).grows(final(self)),
            old(self).older_than_parent(proposal) ==> outcomes.len() == 0 && *final(self) == *old(self),
            !old(self).older_than_parent(proposal) && Self::must_validate(proposal) ==> {
                let pending = PendingValidation {
                    proposed_block: ProposedBlock {
                        value: proposal.maybe_block.unwrap(),
                        context: BlockContext { timestamp: proposal.timestamp, ancestor_values },
                    },
                    round_id,
                    maybe_parent_round_id: proposal.maybe_parent_round_id,
                    sender,
                    signature,
                };
                &&& *final(self) == (SimpleConsensus {
                    proposals_waiting_for_validation: final(self).proposals_waiting_for_validation,
                    ..*old(self)
                })
                &&& if is_pending(old(self).proposals_waiting_for_validation@, pending) {
                    outcomes.len() == 0 && final(self).proposals_waiting_for_validation
                        == old(self).proposals_waiting_for_validation
                } else {
                    &&& outcomes.len() == 1
                    &&& outcomes[0]@ == Effect::ValidateConsensusValue {
                        sender,
                        proposed_block: pending.proposed_block@,
                    }
                    &&& final(self).proposals_waiting_for_validation.len()
                        == old(self).proposals_waiting_for_validation.len() + 1
                    &&& same_pending(final(self).proposals_waiting_for_validation@.last(), pending)
                }
            },
            !old(self).older_than_parent(proposal) && !Self::must_validate(proposal) ==> {
                &&& final(self).holds(
                    round_id as int,
                    Content::Proposal(proposal),
                    old(self).spec_leader(round_id),
                )
                &&& !old(self).holds(
                    round_id as int,
                    Content::Proposal(proposal),
                    old(self).spec_leader(round_id),
                ) ==> final(self).progress_detected && old(self).concluded(
                    final(self),
                    outcomes@,
                    round_id as int,
                    Content::Proposal(proposal),
                    old(self).spec_leader(round_id),
                    signature,
                    now,
                )
            },
            old(self).adds_only(final(self), old(self).own()),
            old(self).same_skipped(final(self)),
            old(self).settles(final(self)),
            old(self).keeps_waiting(final(self)),
            calm(outcomes@),
            !old(self).older_than_parent(proposal) && Self::must_validate(proposal)
                ==> final(self).awaits(
                Self::pending_view(round_id, proposal, ancestor_values@, sender, signature),
            ),
        decreases old(self).fault_budget(), old(self).round_budget(), 4nat,
    {
        proof {
            lemma_extends_refl(old(self));
            lemma_adds_nothing(old(self), old(self));
            lemma_same_skipped(old(self), old(self));
            lemma_settles(old(self), old(self));
            lemma_extends_refl(old(self));
            lemma_keeps_waiting(old(self), old(self));
            lemma_calm_empty();
            lemma_grows_refl(old(self));
        }
        let validator_idx = self.leader(round_id);
        match proposal.maybe_parent_round_id {
            Some(parent_round_id) => match self.accepted_proposal(parent_round_id) {
                Some((_, parent_proposal)) => {
                    if parent_proposal.timestamp.0 > proposal.timestamp.0 {
                        // The proposal is older than the one it builds on.
                        return Vec::new();
                    }
                },
                None => {},
            },
            None => {},
        }
        match proposal.maybe_block {
            Some(block) if C::needs_validation(block) => {
                let context = BlockContext { timestamp: proposal.timestamp, ancestor_values };
                let proposed_block = ProposedBlock { value: block, context };
                let pending = PendingValidation {
                    proposed_block: copy_block(&proposed_block),
                    round_id,
                    maybe_parent_round_id: proposal.maybe_parent_round_id,
                    sender,
                    signature,
                };
                if self.await_validation(pending) {
                    let mut outcomes: Vec<ProtocolOutcome> = Vec::new();
                    proof {
                        lemma_calm_push(
                            outcomes@,
                            ProtocolOutcome::ValidateConsensusValue { sender, proposed_block },
                        );
                    }
                    outcomes.push(ProtocolOutcome::ValidateConsensusValue { sender, proposed_block });
                    outcomes
                } else {
                    // The proposal awaits validation already.
                    Vec::new()
                }
            },
            _ => self.handle_content(
                round_id,
                Content::Proposal(proposal),
                validator_idx,
                signature,
                now,
            ),
        }
    }

    /// Adds the proposal to those that await validation, unless it is among them.
    /// Returns whether it was added.
    fn await_validation(&mut self, pending: PendingValidation) -> (added: bool)
        requires
            old(self).wf(),
            pending.round_id < u32::MAX,
            parent_is_earlier(pending.maybe_parent_round_id, pending.round_id as int),
        ensures
            final(self).wf(),
            old(self).extends(final(self)),
            old(self).grows(final(self)),
            *final(self) == (SimpleConsensus {
                proposals_waiting_for_validation: final(self).proposals_waiting_for_validation,
                ..*old(self)
            }),
            added == !is_pending(old(self).proposals_waiting_for_validation@, pending),
            added ==> final(self).proposals_waiting_for_validation@
                == old(self).proposals_waiting_for_validation@.push(pending),
            !added ==> final(self).proposals_waiting_for_validation
                == old(self).proposals_waiting_for_validation,
            old(self).adds_only(final(self), Set::empty()),
            old(self).same_skipped(final(self)),
            old(self).settles(final(self)),
            old(self).keeps_waiting(final(self)),
            final(self).awaits(pending@),
    {
        proof {
            lemma_adds_nothing(old(self), old(self));
            lemma_same_skipped(old(self), old(self));
            lemma_settles(old(self), old(self));
            lemma_extends_refl(old(self));
            lemma_keeps_waiting(old(self), old(self));
            lemma_calm_empty();
        }
        let mut i: usize = 0;
        while i < self.proposals_waiting_for_validation.len()
            invariant
                i <= self.proposals_waiting_for_validation.len(),
                *self == *old(self),
                self.wf(),
                forall|k: int|
                    0 <= k < i ==> !same_pending(
                        #[trigger] self.proposals_waiting_for_validation[k],
                        pending,
                    ),
            decreases self.proposals_waiting_for_validation.len() - i,
        {
            let known = &self.proposals_waiting_for_validation[i];
            if known.round_id == pending.round_id && known.maybe_parent_round_id
                == pending.maybe_parent_round_id && known.sender == pending.sender
                && known.signature == pending.signature && same_block(
                &known.proposed_block,
                &pending.proposed_block,
            ) {
                proof {
                    lemma_extends_refl(old(self));
                    lemma_grows_refl(old(self));
                    reveal(SimpleConsensus::awaits);
                    assert(self.proposals_waiting_for_validation[i as int]@ == pending@);
                }
                return false;
            }
            i += 1;
        }
        self.proposals_waiting_for_validation.push(pending);
        proof {
            assert(old(self).extends(self));
            assert(old(self).grows(self));
            lemma_extends_wf(old(self), self);
            lemma_adds_nothing(old(self), self);
            lemma_same_skipped(old(self), self);
            lemma_settles(old(self), self);
            lemma_keeps_waiting(old(self), old(self));
            reveal(SimpleConsensus::waits);
            reveal(SimpleConsensus::awaits);
            reveal(SimpleConsensus::accepted_at);
            assert forall|before: PendingView| old(self).awaits(before) implies #[trigger] self.awaits(
                before,
            ) by {
                let i = choose|i: int|
                    0 <= i < old(self).proposals_waiting_for_validation.len()
                        && (#[trigger] old(self).proposals_waiting_for_validation[i])@
                        == before;
                assert(self.proposals_waiting_for_validation[i]
                    == old(self).proposals_waiting_for_validation[i]);
            }
            assert(self.proposals_waiting_for_validation[self.proposals_waiting_for_validation.len()
                - 1]@ == pending@);
        }
        true
    }
}

/// Copies a list of values.
pub fn copy_values(values: &Vec<ConsensusValue>) -> (copy: Vec<ConsensusValue>)
    ensures
        copy@ == values@,
{
    let mut copy: Vec<ConsensusValue> = Vec::new();
    let mut i: usize = 0;
    while i < values.len()
        invariant
            i <= values.len(),
            copy@ == values@.take(i as int),
        decreases values.len() - i,
    {
        copy.push(values[i]);
        proof {
            assert(values@.take(i + 1) =~= values@.take(i as int).push(values@[i as int]));
        }
        i += 1;
    }
    assert(values@.take(values.len() as int) =~= values@);
    copy
}

/// Copies a proposed block.
pub fn copy_block(block: &ProposedBlock) -> (copy: ProposedBlock)
    ensures
        copy@ == block@,
{
    ProposedBlock {
        value: block.value,
        context: BlockContext {
            timestamp: block.context.timestamp,
            ancestor_values: copy_values(&block.context.ancestor_values),
        },
    }
}

/// Whether two proposed blocks are the same: the same value in the same context.
pub fn same_block(first: &ProposedBlock, second: &ProposedBlock) -> (same: bool)
    ensures
        same == (first@ =~~= second@),
{
    if first.value != second.value || first.context.timestamp != second.context.timestamp
        || first.context.ancestor_values.len() != second.context.ancestor_values.len() {
        return false;
    }
    let mut i: usize = 0;
    while i < first.context.ancestor_values.len()
        invariant
            i <= first.context.ancestor_values.len(),
            first.context.ancestor_values.len() == second.context.ancestor_values.len(),
            forall|k: int|
                0 <= k < i ==> first.context.ancestor_values[k] == second.context.ancestor_values[k],
        decreases first.context.ancestor_values.len() - i,
    {
        if first.context.ancestor_values[i] != second.context.ancestor_values[i] {
            return false;
        }
        i += 1;
    }
    assert(first.context.ancestor_values@ =~= second.context.ancestor_values@);
    true
}

} // verus!

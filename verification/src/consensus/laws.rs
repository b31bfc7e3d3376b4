//! What holds of every state of the protocol that its operations can reach.

use vstd::prelude::*;
use crate::consensus::bitfield::present;
use crate::consensus::context::Context;
use crate::consensus::state::SimpleConsensus;
use crate::consensus::types::Digest;
use crate::consensus::weights::lemma_quorums_share_honest_validator;
use crate::consensus::wellformed::{
    lemma_extends_accepted, lemma_extends_on_chain, lemma_extends_outcome,
};

verus! {

impl<C: Context> SimpleConsensus<C> {
    /// The round in which the chain of the proposal accepted in `round_id` begins:
    /// the round reached by going from each proposal to the one it builds on.
    pub open spec fn root_of(&self, round_id: int) -> int
        decreases round_id,
    {
        match self.accepted_proposal_at(round_id) {
            Some((_, proposal)) => match proposal.maybe_parent_round_id {
                Some(parent) => if 0 <= parent < round_id {
                    self.root_of(parent as int)
                } else {
                    round_id
                },
                None => round_id,
            },
            None => round_id,
        }
    }

    /// Safety of a round: two hashes cannot both have a quorum of echoes in one
    /// round, unless the faulty validators weigh more than the fault tolerance
    /// threshold.
    pub proof fn lemma_one_quorum_per_round(&self, round_id: int, first: Digest, second: Digest)
        requires
            self.wf(),
            self.round_at(round_id) is Some,
            first != second,
            self.spec_is_quorum(self.round_at(round_id).unwrap().echo_signatures(first)),
            self.spec_is_quorum(self.round_at(round_id).unwrap().echo_signatures(second)),
        ensures
            self.spec_faulty_weight() > self.ftt,
    {
        let round = self.round_at(round_id).unwrap();
        let n = self.count();
        if self.spec_faulty_weight() <= self.ftt {
            lemma_quorums_share_honest_validator(
                self.weights@,
                self.faulty(),
                self.ftt as nat,
                present(round.echo_signatures(first)),
                present(round.echo_signatures(second)),
            );
            let v = choose|v: int|
                0 <= v < self.weights.len() && present(round.echo_signatures(first)).contains(v)
                    && present(round.echo_signatures(second)).contains(v)
                    && !self.faulty().contains(v);
            assert(self.rounds[round_id] is Some);
            assert(round.wf(n));
            assert(round.has_echos(first));
            assert(round.has_echos(second));
            let i = round.echo_position(first);
            let j = round.echo_position(second);
            assert(round.echos[i].signatures@[v] is Some);
            assert(round.echos[j].signatures@[v] is Some);
            if i < j {
                assert(!(round.echos[i].signatures@[v] is Some
                    && round.echos[j].signatures@[v] is Some));
            } else if j < i {
                assert(!(round.echos[j].signatures@[v] is Some
                    && round.echos[i].signatures@[v] is Some));
            }
        }
    }

    /// Safety: beside the proposal accepted in a round, no proposal with another hash
    /// has a quorum of echoes in that round, unless the faulty validators weigh more
    /// than the fault tolerance threshold. This holds of every round with an
    /// accepted proposal, and so of every finalized round.
    pub proof fn lemma_accepted_is_unrivalled(&self, round_id: int, rival: Digest)
        requires
            self.wf(),
            0 <= round_id < self.rounds.len(),
            self.accepted_height(round_id) is Some,
            Some(rival) != self.round_at(round_id).unwrap().outcome.quorum_echos,
            self.spec_is_quorum(self.round_at(round_id).unwrap().echo_signatures(rival)),
        ensures
            self.round_at(round_id).unwrap().outcome.quorum_echos is Some,
            self.spec_faulty_weight() > self.ftt,
    {
        assert(self.accepted_ok(round_id));
        assert(self.quorums_ok(round_id));
        let accepted = self.round_at(round_id).unwrap().outcome.quorum_echos.unwrap();
        self.lemma_one_quorum_per_round(round_id, accepted, rival);
    }

    /// The chain of an accepted proposal is whole: every proposal on it is accepted,
    /// each builds on an earlier round, and the chain ends with a proposal that
    /// builds on none, at height zero, before which every round was skipped.
    pub proof fn lemma_chain_ends(&self, round_id: int)
        requires
            self.wf(),
            0 <= round_id < self.rounds.len(),
            self.accepted_height(round_id) is Some,
        ensures
            0 <= self.root_of(round_id) <= round_id,
            self.accepted_height(self.root_of(round_id)) == Some(0u64),
            self.accepted_proposal_at(self.root_of(round_id)) is Some,
            self.accepted_proposal_at(self.root_of(round_id)).unwrap().1.maybe_parent_round_id is None,
            forall|q: int|
                0 <= q < self.root_of(round_id) ==> #[trigger] self.spec_is_skippable_round(q),
            self.spec_ancestor_values(round_id) is Some,
        decreases round_id,
    {
        assert(self.accepted_ok(round_id));
        let round = self.round_at(round_id).unwrap();
        let hash = round.outcome.quorum_echos.unwrap();
        let proposal = round.proposal(hash).unwrap().proposal;
        match proposal.maybe_parent_round_id {
            Some(parent) => {
                self.lemma_chain_ends(parent as int);
            },
            None => {},
        }
    }

    /// Finalization: every round before the first that is not finalized holds an
    /// accepted proposal or was skipped.
    pub proof fn lemma_finalized_prefix(&self, round_id: int)
        requires
            self.wf(),
            !self.evidence_only,
            0 <= round_id < self.first_non_finalized_round_id,
        ensures
            self.accepted_height(round_id) is Some || self.spec_is_skippable_round(round_id),
    {
        self.lemma_accepted_or_skipped(self.first_non_finalized_round_id - 1, round_id);
    }

    /// Every round up to one with an accepted proposal holds an accepted proposal
    /// or was skipped.
    pub proof fn lemma_accepted_or_skipped(&self, accepted: int, round_id: int)
        requires
            self.wf(),
            0 <= round_id <= accepted,
            self.accepted_height(accepted) is Some,
        ensures
            self.accepted_height(round_id) is Some || self.spec_is_skippable_round(round_id),
        decreases accepted,
    {
        assert(self.accepted_ok(accepted));
        if round_id < accepted {
            let round = self.round_at(accepted).unwrap();
            let hash = round.outcome.quorum_echos.unwrap();
            let proposal = round.proposal(hash).unwrap().proposal;
            match proposal.maybe_parent_round_id {
                Some(parent) => {
                    if round_id <= parent {
                        self.lemma_accepted_or_skipped(parent as int, round_id);
                    }
                },
                None => {},
            }
        }
    }

    /// Finalization never goes back: as the state extends, the first round that is
    /// not finalized does not decrease, and what was accepted in a finalized round
    /// stays accepted at the same height.
    pub proof fn lemma_finalization_is_monotone(&self, after: &SimpleConsensus<C>, round_id: int)
        requires
            self.extends(after),
        ensures
            self.first_non_finalized_round_id <= after.first_non_finalized_round_id,
            self.accepted_height(round_id) is Some ==> after.accepted_height(round_id)
                == self.accepted_height(round_id),
    {
        if self.accepted_height(round_id) is Some {
            lemma_extends_accepted(self, after, round_id);
        }
    }

    /// A chain leads through earlier rounds only.
    pub proof fn lemma_chain_descends(&self, descendant: int, ancestor: int)
        requires
            self.on_chain(descendant, ancestor),
        ensures
            ancestor <= descendant,
            self.accepted_proposal_at(descendant) is Some,
            self.accepted_proposal_at(ancestor) is Some,
        decreases descendant,
    {
        if descendant != ancestor {
            let parent = self.accepted_proposal_at(descendant).unwrap().1.maybe_parent_round_id.unwrap();
            self.lemma_chain_descends(parent as int, ancestor);
        }
    }

    /// To build on is transitive.
    pub proof fn lemma_chain_trans(&self, top: int, middle: int, bottom: int)
        requires
            self.on_chain(top, middle),
            self.on_chain(middle, bottom),
        ensures
            self.on_chain(top, bottom),
        decreases top,
    {
        self.lemma_chain_descends(middle, bottom);
        if top != middle {
            let parent = self.accepted_proposal_at(top).unwrap().1.maybe_parent_round_id.unwrap();
            self.lemma_chain_descends(parent as int, middle);
            self.lemma_chain_trans(parent as int, middle, bottom);
        }
    }

    /// A chain does not fork: of two proposals that a third builds on, the later
    /// builds on the earlier.
    pub proof fn lemma_chain_is_linear(&self, top: int, later: int, earlier: int)
        requires
            self.on_chain(top, later),
            self.on_chain(top, earlier),
            earlier <= later,
        ensures
            self.on_chain(later, earlier),
        decreases top,
    {
        if top != later {
            let parent = self.accepted_proposal_at(top).unwrap().1.maybe_parent_round_id.unwrap();
            self.lemma_chain_descends(top, later);
            self.lemma_chain_linear_step(top, parent as int, earlier);
            self.lemma_chain_is_linear(parent as int, later, earlier);
        }
    }

    /// What a proposal builds on, other than itself, the proposal below it builds on.
    pub proof fn lemma_chain_linear_step(&self, top: int, parent: int, earlier: int)
        requires
            self.on_chain(top, earlier),
            earlier < top,
            self.accepted_proposal_at(top) is Some,
            self.accepted_proposal_at(top).unwrap().1.maybe_parent_round_id == Some(parent as u32),
            0 <= parent <= u32::MAX,
        ensures
            self.on_chain(parent, earlier),
    {
    }

    /// Every later accepted proposal builds on the proposal accepted in a committed
    /// round: a round that is committed cannot be skipped.
    pub proof fn lemma_committed_is_built_on(&self, later: int, committed: int)
        requires
            self.wf(),
            0 <= committed <= later < self.rounds.len(),
            self.accepted_height(later) is Some,
            self.accepted_height(committed) is Some,
            self.is_committed(committed),
        ensures
            self.on_chain(later, committed),
        decreases later,
    {
        assert(self.accepted_ok(later));
        assert(self.accepted_ok(committed));
        if later != committed {
            let round = self.round_at(later).unwrap();
            let hash = round.outcome.quorum_echos.unwrap();
            let proposal = round.proposal(hash).unwrap().proposal;
            match proposal.maybe_parent_round_id {
                Some(parent) => {
                    if parent < committed {
                        assert(self.spec_is_skippable_round(committed));
                    } else {
                        self.lemma_committed_is_built_on(parent as int, committed);
                    }
                },
                None => {
                    assert(self.spec_is_skippable_round(committed));
                },
            }
        }
    }

    /// Finalization goes along one chain: as the state extends, the proposal of the
    /// last finalized round builds on the proposal of the round that was the last
    /// finalized one before. No finalized block is ever left behind.
    pub proof fn lemma_finalized_chain_grows(&self, after: &SimpleConsensus<C>)
        requires
            self.wf(),
            after.wf(),
            self.extends(after),
            !self.evidence_only,
            self.first_non_finalized_round_id > 0,
        ensures
            after.on_chain(
                after.first_non_finalized_round_id - 1,
                self.first_non_finalized_round_id - 1,
            ),
    {
        let last_before = self.first_non_finalized_round_id - 1;
        let last_after = after.first_non_finalized_round_id - 1;
        let x = choose|x: int| #[trigger] self.finalized_through(x);
        let y = choose|y: int| #[trigger] after.finalized_through(y);
        lemma_extends_outcome(self, after, x);
        lemma_extends_on_chain(self, after, x, last_before);
        if x <= y {
            after.lemma_committed_is_built_on(y, x);
            after.lemma_chain_trans(y, x, last_before);
            after.lemma_chain_is_linear(y, last_after, last_before);
        } else {
            after.lemma_committed_is_built_on(x, y);
            after.lemma_chain_trans(x, y, last_after);
            after.lemma_chain_is_linear(x, last_after, last_before);
        }
    }
}

} // verus!

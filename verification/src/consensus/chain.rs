//! The chain of accepted proposals: ancestors, the last block of the era, and
//! finalization.

use vstd::prelude::*;
use crate::consensus::context::Context;
use crate::consensus::state::SimpleConsensus;
use crate::consensus::types::{
    calm, effects, lemma_calm_empty, lemma_calm_push, ConsensusValue, Effect, FinalizedBlock,
    FinalizedBlockView, Proposal, ProtocolOutcome, RoundId, TerminalBlockData,
    TerminalBlockDataView, ValidatorId,
};
use crate::consensus::wellformed::{
    lemma_adds_nothing, lemma_extends_accepted_proposal, lemma_extends_refl, lemma_extends_wf,
    lemma_keeps_waiting, lemma_same_skipped, lemma_settles, parent_is_earlier, spec_child_height,
};

verus! {

impl<C: Context> SimpleConsensus<C> {
    /// The proposal accepted in the round with its height, if one is accepted and
    /// the round holds it.
    pub open spec fn accepted_proposal_at(&self, round_id: int) -> Option<(u64, Proposal)> {
        match self.round_at(round_id) {
            Some(round) => round.spec_accepted_proposal(),
            None => None,
        }
    }

    /// Whether a block is accepted in the round that, once finalized, is the last of
    /// the era: it has the height and the timestamp at which the era ends.
    pub open spec fn spec_accepted_switch_block(&self, round_id: int) -> bool {
        match self.accepted_proposal_at(round_id) {
            None => false,
            Some((height, proposal)) => spec_child_height(height) >= self.params.end_height
                && proposal.timestamp.0 >= self.params.end_timestamp.0,
        }
    }

    /// Whether a proposal without a block is accepted in the round.
    pub open spec fn spec_accepted_dummy_proposal(&self, round_id: int) -> bool {
        match self.accepted_proposal_at(round_id) {
            None => false,
            Some((_, proposal)) => proposal.maybe_block is None,
        }
    }

    /// Whether the last block of the era is finalized.
    pub open spec fn spec_finalized_switch_block(&self) -> bool {
        self.first_non_finalized_round_id > 0 && self.spec_accepted_switch_block(
            self.first_non_finalized_round_id - 1,
        )
    }

    /// The block accepted in the round and the blocks it builds on, the nearest
    /// first; none unless a proposal is accepted in the round and in each round
    /// that it builds on.
    pub open spec fn spec_ancestor_values(&self, round_id: int) -> Option<Seq<ConsensusValue>>
        decreases round_id,
    {
        match self.accepted_proposal_at(round_id) {
            None => None,
            Some((_, proposal)) => {
                let own = match proposal.maybe_block {
                    Some(value) => seq![value],
                    None => Seq::empty(),
                };
                match proposal.maybe_parent_round_id {
                    None => Some(own),
                    Some(parent) => if 0 <= parent < round_id {
                        match self.spec_ancestor_values(parent as int) {
                            Some(rest) => Some(own + rest),
                            None => None,
                        }
                    } else {
                        None
                    },
                }
            },
        }
    }

    /// The validators with their weights.
    pub open spec fn spec_rewards(&self) -> Seq<(ValidatorId, u64)> {
        Seq::new(
            self.validators.len() as nat,
            |i: int| (self.validators[i].id, self.validators[i].weight),
        )
    }

    /// What is announced when the block `value` of the proposal accepted in the round
    /// is finalized.
    pub open spec fn finalized_block(
        &self,
        round_id: RoundId,
        height: u64,
        proposal: Proposal,
        value: ConsensusValue,
    ) -> FinalizedBlockView {
        FinalizedBlockView {
            value,
            timestamp: proposal.timestamp,
            relative_height: height,
            equivocators: Seq::empty(),
            terminal_block_data: if self.spec_accepted_switch_block(round_id as int) {
                Some(
                    TerminalBlockDataView {
                        rewards: self.spec_rewards(),
                        inactive_validators: Seq::empty(),
                    },
                )
            } else {
                None
            },
            proposer: self.validators[self.spec_leader(round_id).0 as int].id,
        }
    }

    /// The blocks that are finalized with the proposal accepted in the round: those of
    /// the proposal and of the proposals it builds on, as far as their rounds are
    /// not below `floor`, the earliest first. Proposals without a block add nothing.
    pub open spec fn chain_blocks(&self, round_id: int, floor: int) -> Seq<Effect>
        decreases round_id,
    {
        if round_id < floor || round_id < 0 || round_id > u32::MAX {
            Seq::empty()
        } else {
            match self.accepted_proposal_at(round_id) {
                None => Seq::empty(),
                Some((height, proposal)) => {
                    let below = match proposal.maybe_parent_round_id {
                        Some(parent) => if parent < round_id {
                            self.chain_blocks(parent as int, floor)
                        } else {
                            Seq::empty()
                        },
                        None => Seq::empty(),
                    };
                    match proposal.maybe_block {
                        Some(value) => below.push(
                            Effect::FinalizedBlock(
                                self.finalized_block(round_id as u32, height, proposal, value),
                            ),
                        ),
                        None => below,
                    }
                },
            }
        }
    }

    /// Returns the proposal accepted in the round with its height, if any.
    pub fn accepted_proposal(&self, round_id: RoundId) -> (res: Option<(u64, Proposal)>)
        requires
            self.wf_basic(),
        ensures
            res == self.accepted_proposal_at(round_id as int),
    {
        match self.round(round_id) {
            Some(round) => {
                assert(self.rounds[round_id as int] is Some);
                round.accepted_proposal()
            },
            None => None,
        }
    }

    /// Returns whether a block was accepted that, if finalized, would be the last one
    /// of the era.
    pub fn accepted_switch_block(&self, round_id: RoundId) -> (res: bool)
        requires
            self.wf_basic(),
        ensures
            res == self.spec_accepted_switch_block(round_id as int),
    {
        match self.accepted_proposal(round_id) {
            None => false,
            Some((height, proposal)) => height.saturating_add(1) >= self.params.end_height
                && proposal.timestamp.0 >= self.params.end_timestamp.0,
        }
    }

    /// Returns whether a proposal without a block was accepted, that is, whether the
    /// accepted proposal builds on the last block of the era.
    pub fn accepted_dummy_proposal(&self, round_id: RoundId) -> (res: bool)
        requires
            self.wf_basic(),
        ensures
            res == self.spec_accepted_dummy_proposal(round_id as int),
    {
        match self.accepted_proposal(round_id) {
            None => false,
            Some((_, proposal)) => proposal.maybe_block.is_none(),
        }
    }

    /// Returns whether the last block of the era has already been finalized.
    pub fn finalized_switch_block(&self) -> (res: bool)
        requires
            self.wf_basic(),
        ensures
            res == self.spec_finalized_switch_block(),
    {
        if self.first_non_finalized_round_id > 0 {
            self.accepted_switch_block(self.first_non_finalized_round_id - 1)
        } else {
            false
        }
    }

    /// The proposal accepted in a round is held by the round, so that it builds on
    /// an earlier round.
    pub proof fn lemma_accepted_parent(&self, round_id: int)
        requires
            self.wf_basic(),
            self.wf_parents(),
            self.accepted_proposal_at(round_id) is Some,
        ensures
            parent_is_earlier(
                self.accepted_proposal_at(round_id).unwrap().1.maybe_parent_round_id,
                round_id,
            ),
    {
        let round = self.round_at(round_id).unwrap();
        let hash = round.outcome.quorum_echos.unwrap();
        let i = round.proposal_position(hash).unwrap();
        assert(parent_is_earlier(
            self.rounds[round_id].unwrap().proposals[i].proposal.maybe_parent_round_id,
            round_id,
        ));
    }

    /// Returns the block accepted in the round and all blocks that it builds on, the
    /// nearest first, or `None` if no proposal is accepted in the round yet.
    pub fn ancestor_values(&self, round_id: RoundId) -> (res: Option<Vec<ConsensusValue>>)
        requires
            self.wf_basic(),
            self.wf_parents(),
        ensures
            match self.spec_ancestor_values(round_id as int) {
                Some(values) => res matches Some(list) && list@ == values,
                None => res is None,
            },
    {
        let mut ancestor_values: Vec<ConsensusValue> = Vec::new();
        let mut current = round_id;
        loop
            invariant
                self.wf_basic(),
                self.wf_parents(),
                current <= round_id,
                self.spec_ancestor_values(round_id as int) == match self.spec_ancestor_values(
                    current as int,
                ) {
                    Some(rest) => Some(ancestor_values@ + rest),
                    None => None,
                },
            decreases current,
        {
            let proposal = match self.accepted_proposal(current) {
                Some((_, proposal)) => proposal,
                None => {
                    return None;
                },
            };
            proof {
                self.lemma_accepted_parent(current as int);
            }
            let ghost before = ancestor_values@;
            match proposal.maybe_block {
                Some(value) => {
                    ancestor_values.push(value);
                },
                None => {},
            }
            match proposal.maybe_parent_round_id {
                None => {
                    proof {
                        let own = match proposal.maybe_block {
                            Some(value) => seq![value],
                            None => Seq::empty(),
                        };
                        assert(ancestor_values@ =~= before + own);
                    }
                    return Some(ancestor_values);
                },
                Some(parent) => {
                    proof {
                        let own = match proposal.maybe_block {
                            Some(value) => seq![value],
                            None => Seq::empty(),
                        };
                        assert(ancestor_values@ =~= before + own);
                        match self.spec_ancestor_values(parent as int) {
                            Some(rest) => {
                                assert(before + (own + rest) =~= ancestor_values@ + rest);
                            },
                            None => {},
                        }
                    }
                    current = parent;
                },
            }
        }
    }

    /// Lists the validators with their weights.
    fn rewards(&self) -> (rewards: Vec<(ValidatorId, u64)>)
        ensures
            rewards@ == self.spec_rewards(),
    {
        let mut rewards: Vec<(ValidatorId, u64)> = Vec::new();
        let mut i: usize = 0;
        while i < self.validators.len()
            invariant
                i <= self.validators.len(),
                rewards.len() == i,
                forall|k: int|
                    0 <= k < i ==> #[trigger] rewards[k] == (
                        self.validators[k].id,
                        self.validators[k].weight,
                    ),
            decreases self.validators.len() - i,
        {
            rewards.push((self.validators[i].id, self.validators[i].weight));
            i += 1;
        }
        assert(rewards@ =~= self.spec_rewards());
        rewards
    }

    /// Whether the round is committed: a quorum has voted to commit it.
    pub open spec fn is_committed(&self, round_id: int) -> bool {
        self.outcome_at(round_id).quorum_votes == Some(true)
    }

    /// Whether the proposal accepted in `descendant` builds, over any number of
    /// proposals, on the proposal accepted in `ancestor`, or is that proposal.
    pub open spec fn on_chain(&self, descendant: int, ancestor: int) -> bool
        decreases descendant,
    {
        match self.accepted_proposal_at(descendant) {
            None => false,
            Some((_, proposal)) => {
                if descendant == ancestor {
                    true
                } else {
                    match proposal.maybe_parent_round_id {
                        Some(parent) => 0 <= parent < descendant && ancestor <= parent
                            && self.on_chain(parent as int, ancestor),
                        None => false,
                    }
                }
            },
        }
    }

    /// The blocks that an accepted proposal builds on are the same as the state
    /// extends.
    pub proof fn lemma_extends_ancestors(&self, after: &SimpleConsensus<C>, round_id: int)
        requires
            self.wf(),
            after.wf(),
            self.extends(after),
            self.accepted_proposal_at(round_id) is Some,
        ensures
            after.spec_ancestor_values(round_id) == self.spec_ancestor_values(round_id),
        decreases round_id,
    {
        lemma_extends_accepted_proposal(self, after, round_id);
        let (height, proposal) = self.accepted_proposal_at(round_id).unwrap();
        self.lemma_accepted_parent(round_id);
        match proposal.maybe_parent_round_id {
            Some(parent) => {
                if 0 <= parent < round_id {
                    assert(self.accepted_ok(round_id));
                    assert(self.accepted_height(parent as int) is Some);
                    assert(self.accepted_ok(parent as int));
                    assert(self.accepted_proposal_at(parent as int) is Some);
                    self.lemma_extends_ancestors(after, parent as int);
                }
            },
            None => {},
        }
    }

    /// The blocks that are finalized with an accepted proposal are the same as the
    /// state extends.
    pub proof fn lemma_extends_blocks(&self, after: &SimpleConsensus<C>, round_id: int, floor: int)
        requires
            self.wf(),
            after.wf(),
            self.extends(after),
            self.accepted_proposal_at(round_id) is Some,
        ensures
            after.chain_blocks(round_id, floor) == self.chain_blocks(round_id, floor),
        decreases round_id,
    {
        lemma_extends_accepted_proposal(self, after, round_id);
        if !(round_id < floor || round_id < 0 || round_id > u32::MAX) {
            let (height, proposal) = self.accepted_proposal_at(round_id).unwrap();
            self.lemma_accepted_parent(round_id);
            match proposal.maybe_parent_round_id {
                Some(parent) => {
                    assert(self.accepted_ok(round_id));
                    let round = self.round_at(round_id).unwrap();
                    assert(self.accepted_height(parent as int) is Some);
                    assert(self.accepted_ok(parent as int));
                    assert(self.accepted_proposal_at(parent as int) is Some);
                    self.lemma_extends_blocks(after, parent as int, floor);
                },
                None => {},
            }
            assert(after.spec_rewards() =~= self.spec_rewards());
        }
    }

    /// Whether finalizing the round does anything: the round is committed, it is not
    /// finalized, and it holds an accepted proposal.
    pub open spec fn can_finalize(&self, round_id: int) -> bool {
        &&& self.is_committed(round_id)
        &&& round_id >= self.first_non_finalized_round_id
        &&& self.accepted_proposal_at(round_id) is Some
    }

    /// Lists the blocks that are finalized with the proposal accepted in the round,
    /// as far as their rounds are not below `floor`, the earliest first.
    fn chain_outcomes(&self, round_id: RoundId, floor: RoundId) -> (outcomes: Vec<ProtocolOutcome>)
        requires
            self.wf_basic(),
            self.wf_parents(),
        ensures
            effects(outcomes@) == self.chain_blocks(round_id as int, floor as int),
            calm(outcomes@),
        decreases round_id,
    {
        let mut outcomes: Vec<ProtocolOutcome> = Vec::new();
        assert(effects(outcomes@) =~= Seq::empty());
        proof {
            lemma_calm_empty();
        }
        if round_id < floor {
            return outcomes;
        }
        let (relative_height, proposal) = match self.accepted_proposal(round_id) {
            Some(accepted) => accepted,
            None => {
                return outcomes;
            },
        };
        proof {
            self.lemma_accepted_parent(round_id as int);
        }
        match proposal.maybe_parent_round_id {
            Some(parent_round_id) => {
                // The rounds that the proposal builds on come first.
                outcomes = self.chain_outcomes(parent_round_id, floor);
            },
            None => {},
        }
        let value = match proposal.maybe_block {
            Some(value) => value,
            None => {
                return outcomes;
            },
        };
        let proposer = self.validators[self.leader(round_id).0 as usize].id;
        let terminal_block_data = if self.accepted_switch_block(round_id) {
            Some(TerminalBlockData { rewards: self.rewards(), inactive_validators: Vec::new() })
        } else {
            None
        };
        let finalized_block = FinalizedBlock {
            value,
            timestamp: proposal.timestamp,
            relative_height,
            equivocators: Vec::new(),
            terminal_block_data,
            proposer,
        };
        let ghost below = effects(outcomes@);
        assert(finalized_block@ == self.finalized_block(round_id, relative_height, proposal, value));
        proof {
            lemma_calm_push(outcomes@, ProtocolOutcome::FinalizedBlock(finalized_block));
        }
        outcomes.push(ProtocolOutcome::FinalizedBlock(finalized_block));
        assert(effects(outcomes@) =~= below.push(
            Effect::FinalizedBlock(
                self.finalized_block(round_id, relative_height, proposal, value),
            ),
        ));
        outcomes
    }

    /// Finalizes the round if it is committed and holds an accepted proposal, and
    /// before it the rounds that its proposal builds on unless they are finalized,
    /// and announces each finalized block. The rounds up to this one are finalized
    /// from then on.
    pub fn finalize_round(&mut self, round_id: RoundId) -> (outcomes: Vec<ProtocolOutcome>)
        requires
            old(self).wf(),
        ensures
            final(self).wf(),
            old(self).extends(final(self)),
            old(self).grows(final(self)),
            *final(self) == (SimpleConsensus {
                first_non_finalized_round_id: final(self).first_non_finalized_round_id,
                ..*old(self)
            }),
            final(self).first_non_finalized_round_id == if old(self).can_finalize(
                round_id as int,
            ) {
                (round_id + 1) as u32
            } else {
                old(self).first_non_finalized_round_id
            },
            effects(outcomes@) == if old(self).can_finalize(round_id as int) {
                old(self).chain_blocks(
                    round_id as int,
                    old(self).first_non_finalized_round_id as int,
                )
            } else {
                Seq::<Effect>::empty()
            },
            old(self).adds_only(final(self), Set::empty()),
            old(self).same_skipped(final(self)),
            old(self).settles(final(self)),
            old(self).keeps_waiting(final(self)),
            calm(outcomes@),
    {
        proof {
            lemma_extends_refl(old(self));
            lemma_keeps_waiting(old(self), old(self));
            lemma_adds_nothing(old(self), old(self));
            lemma_same_skipped(old(self), old(self));
            lemma_settles(old(self), old(self));
            lemma_calm_empty();
        }
        let committed = match self.round(round_id) {
            Some(round) => match round.outcome.quorum_votes {
                Some(vote) => vote,
                None => false,
            },
            None => false,
        };
        if !committed || round_id < self.first_non_finalized_round_id || self.accepted_proposal(
            round_id,
        ).is_none() {
            let outcomes: Vec<ProtocolOutcome> = Vec::new();
            assert(effects(outcomes@) =~= Seq::empty());
            return outcomes;
        }
        let outcomes = self.chain_outcomes(round_id, self.first_non_finalized_round_id);
        assert(round_id < u32::MAX);
        self.first_non_finalized_round_id = round_id + 1;
        proof {
            assert(old(self).extends(self));
            assert(self.wf_finalized());
            assert(self.finalized_through(round_id as int));
            lemma_extends_wf(old(self), self);
            lemma_adds_nothing(old(self), self);
            lemma_same_skipped(old(self), self);
            lemma_settles(old(self), self);
            lemma_keeps_waiting(old(self), self);
        }
        outcomes
    }
}

} // verus!

//! The verdict on a block that was sent for validation.

use vstd::prelude::*;
use crate::consensus::context::Context;
use crate::consensus::protocol::{copy_block, same_block};
use crate::consensus::state::{PendingValidation, SimpleConsensus};
use crate::consensus::types::{
    calm, extend_outcomes, lemma_calm_empty, Content, NodeId, Proposal, ProposedBlock,
    ProposedBlockView, ProtocolOutcome, RoundId, Signature, Timestamp,
};
use crate::consensus::wellformed::{
    lemma_adds_nothing, lemma_extends_trans, lemma_extends_wf, lemma_grows_trans,
    lemma_same_skipped, lemma_settles, parent_is_earlier,
};

verus! {

/// A proposal that awaits validation, as a mathematical value.
pub struct PendingView {
    pub proposed_block: ProposedBlockView,
    pub round_id: RoundId,
    pub maybe_parent_round_id: Option<RoundId>,
    pub sender: NodeId,
    pub signature: Signature,
}

impl View for PendingValidation {
    type V = PendingView;

    open spec fn view(&self) -> PendingView {
        PendingView {
            proposed_block: self.proposed_block@,
            round_id: self.round_id,
            maybe_parent_round_id: self.maybe_parent_round_id,
            sender: self.sender,
            signature: self.signature,
        }
    }
}

/// Those of the first `k` proposals that await the validation of another block than
/// `block`, in their order.
pub open spec fn others_upto(list: Seq<PendingValidation>, block: ProposedBlockView, k: int) -> Seq<
    PendingView,
>
    decreases k,
{
    if k <= 0 {
        Seq::empty()
    } else if list[k - 1].proposed_block@ =~~= block {
        others_upto(list, block, k - 1)
    } else {
        others_upto(list, block, k - 1).push(list[k - 1]@)
    }
}

/// The views of the proposals in a list.
pub open spec fn pending_views(list: Seq<PendingValidation>) -> Seq<PendingView> {
    list.map_values(|pending: PendingValidation| pending@)
}

/// The proposal that awaited the validation of the block.
pub open spec fn validated_proposal(block: ProposedBlockView, pending: PendingView) -> Proposal {
    Proposal {
        timestamp: block.context.timestamp,
        maybe_block: Some(block.value),
        maybe_parent_round_id: pending.maybe_parent_round_id,
    }
}

impl<C: Context> SimpleConsensus<C> {
    /// Takes the proposals that await the validation of the block out of the list,
    /// and returns the round, the parent round and the signature of each, in the
    /// order of their arrival.
    fn take_pending(&mut self, block: &ProposedBlock) -> (taken: Vec<
        (RoundId, Option<RoundId>, Signature),
    >)
        requires
            old(self).wf(),
        ensures
            final(self).wf(),
            old(self).extends(final(self)),
            old(self).grows(final(self)),
            *final(self) == (SimpleConsensus {
                proposals_waiting_for_validation: final(self).proposals_waiting_for_validation,
                ..*old(self)
            }),
            pending_views(final(self).proposals_waiting_for_validation@) == others_upto(
                old(self).proposals_waiting_for_validation@,
                block@,
                old(self).proposals_waiting_for_validation.len() as int,
            ),
            forall|k: int|
                0 <= k < taken.len() ==> (#[trigger] taken[k]).0 < u32::MAX && parent_is_earlier(
                    taken[k].1,
                    taken[k].0 as int,
                ),
            forall|i: int|
                0 <= i < old(self).proposals_waiting_for_validation.len()
                    && (#[trigger] old(self).proposals_waiting_for_validation[i]).proposed_block@ =~~= block@
                    ==> exists|k: int|
                    0 <= k < taken.len() && #[trigger] taken[k] == (
                        old(self).proposals_waiting_for_validation[i].round_id,
                        old(self).proposals_waiting_for_validation[i].maybe_parent_round_id,
                        old(self).proposals_waiting_for_validation[i].signature,
                    ),
    {
        let mut taken: Vec<(RoundId, Option<RoundId>, Signature)> = Vec::new();
        let mut kept: Vec<PendingValidation> = Vec::new();
        let mut i: usize = 0;
        assert(pending_views(kept@) =~= others_upto(
            self.proposals_waiting_for_validation@,
            block@,
            0,
        ));
        while i < self.proposals_waiting_for_validation.len()
            invariant
                i <= self.proposals_waiting_for_validation.len(),
                *self == *old(self),
                self.wf(),
                pending_views(kept@) == others_upto(
                    self.proposals_waiting_for_validation@,
                    block@,
                    i as int,
                ),
                forall|k: int|
                    0 <= k < kept.len() ==> (#[trigger] kept[k]).round_id < u32::MAX
                        && parent_is_earlier(kept[k].maybe_parent_round_id, kept[k].round_id as int),
                forall|k: int|
                    0 <= k < taken.len() ==> (#[trigger] taken[k]).0 < u32::MAX
                        && parent_is_earlier(taken[k].1, taken[k].0 as int),
                forall|j: int|
                    0 <= j < i && (
                    #[trigger] self.proposals_waiting_for_validation[j]).proposed_block@ =~~= block@
                        ==> exists|k: int|
                        0 <= k < taken.len() && #[trigger] taken[k] == (
                            self.proposals_waiting_for_validation[j].round_id,
                            self.proposals_waiting_for_validation[j].maybe_parent_round_id,
                            self.proposals_waiting_for_validation[j].signature,
                        ),
            decreases self.proposals_waiting_for_validation.len() - i,
        {
            let entry = &self.proposals_waiting_for_validation[i];
            let ghost earlier_kept = kept@;
            let ghost earlier_taken = taken@;
            if same_block(&entry.proposed_block, block) {
                taken.push((entry.round_id, entry.maybe_parent_round_id, entry.signature));
                proof {
                    assert forall|j: int|
                        0 <= j < i + 1 && (
                        #[trigger] self.proposals_waiting_for_validation[j]).proposed_block@ =~~= block@ implies exists|
                        k: int,
                    |
                        0 <= k < taken.len() && #[trigger] taken[k] == (
                            self.proposals_waiting_for_validation[j].round_id,
                            self.proposals_waiting_for_validation[j].maybe_parent_round_id,
                            self.proposals_waiting_for_validation[j].signature,
                        ) by {
                        if j < i {
                            let k = choose|k: int|
                                0 <= k < earlier_taken.len() && #[trigger] earlier_taken[k] == (
                                    self.proposals_waiting_for_validation[j].round_id,
                                    self.proposals_waiting_for_validation[j].maybe_parent_round_id,
                                    self.proposals_waiting_for_validation[j].signature,
                                );
                            assert(taken[k] == earlier_taken[k]);
                        } else {
                            assert(taken[earlier_taken.len() as int] == (
                                entry.round_id,
                                entry.maybe_parent_round_id,
                                entry.signature,
                            ));
                        }
                    }
                }
            } else {
                kept.push(
                    PendingValidation {
                        proposed_block: copy_block(&entry.proposed_block),
                        round_id: entry.round_id,
                        maybe_parent_round_id: entry.maybe_parent_round_id,
                        sender: entry.sender,
                        signature: entry.signature,
                    },
                );
                proof {
                    assert(pending_views(kept@) =~= pending_views(earlier_kept).push(entry@));
                }
            }
            i += 1;
        }
        self.proposals_waiting_for_validation = kept;
        proof {
            assert(old(self).extends(self));
            assert(old(self).grows(self));
            lemma_extends_wf(old(self), self);
        }
        taken
    }

    /// Takes up the proposals that awaited the validation of the block, if the block
    /// is valid, and drops them, if it is not.
    pub fn resolve_validity(&mut self, proposed_block: ProposedBlock, valid: bool, now: Timestamp) -> (outcomes:
        Vec<ProtocolOutcome>)
        requires
            old(self).wf(),
        ensures
            final(self).wf(),
            old(self).extends(final(self)),
            old(self).grows(final(self)),
            old(self).same_control(final(self)),
            old(self).adds_only(final(self), old(self).own()),
            old(self).same_skipped(final(self)),
            old(self).settles(final(self)),
            calm(outcomes@),
            !valid ==> {
                &&& outcomes.len() == 0
                &&& *final(self) == (SimpleConsensus {
                    proposals_waiting_for_validation: final(self).proposals_waiting_for_validation,
                    ..*old(self)
                })
                &&& pending_views(final(self).proposals_waiting_for_validation@) == others_upto(
                    old(self).proposals_waiting_for_validation@,
                    proposed_block@,
                    old(self).proposals_waiting_for_validation.len() as int,
                )
            },
            valid ==> forall|i: int|
                0 <= i < old(self).proposals_waiting_for_validation.len()
                    && (#[trigger] old(self).proposals_waiting_for_validation[i]).proposed_block@ =~~= proposed_block@
                    ==> final(self).holds(
                    old(self).proposals_waiting_for_validation[i].round_id as int,
                    Content::Proposal(
                        validated_proposal(
                            proposed_block@,
                            old(self).proposals_waiting_for_validation[i]@,
                        ),
                    ),
                    old(self).spec_leader(old(self).proposals_waiting_for_validation[i].round_id),
                ),
    {
        let taken = self.take_pending(&proposed_block);
        let mut outcomes: Vec<ProtocolOutcome> = Vec::new();
        proof {
            lemma_calm_empty();
            lemma_adds_nothing(old(self), self);
            lemma_same_skipped(old(self), self);
            lemma_settles(old(self), self);
        }
        if !valid {
            // The proposals are dropped. Their senders are not disconnected from: the
            // block may be held invalid for no fault of theirs.
            return outcomes;
        }
        let ghost emptied = *self;
        let mut k: usize = 0;
        while k < taken.len()
            invariant
                k <= taken.len(),
                self.wf(),
                old(self).extends(self),
                old(self).grows(self),
                old(self).same_control(self),
                emptied.grows(self),
                emptied.wf(),
                emptied.same_era(old(self)),
                old(self).adds_only(self, old(self).own()),
                old(self).same_skipped(self),
                old(self).settles(self),
                calm(outcomes@),
                forall|j: int|
                    0 <= j < taken.len() ==> (#[trigger] taken[j]).0 < u32::MAX
                        && parent_is_earlier(taken[j].1, taken[j].0 as int),
                forall|j: int|
                    0 <= j < k ==> self.holds(
                        (#[trigger] taken[j]).0 as int,
                        Content::Proposal(
                            Proposal {
                                timestamp: proposed_block.context.timestamp,
                                maybe_block: Some(proposed_block.value),
                                maybe_parent_round_id: taken[j].1,
                            },
                        ),
                        self.spec_leader(taken[j].0),
                    ),
            decreases taken.len() - k,
        {
            let (round_id, maybe_parent_round_id, signature) = taken[k];
            let proposal = Proposal {
                timestamp: proposed_block.context.timestamp,
                maybe_block: Some(proposed_block.value),
                maybe_parent_round_id,
            };
            let ghost entry = *self;
            let handled = self.handle_content(
                round_id,
                Content::Proposal(proposal),
                self.leader(round_id),
                signature,
                now,
            );
            extend_outcomes(&mut outcomes, handled);
            proof {
                lemma_extends_trans(old(self), &entry, self);
                lemma_grows_trans(old(self), &entry, self);
                lemma_grows_trans(&emptied, &entry, self);
                assert forall|j: int| 0 <= j < k + 1 implies self.holds(
                    (#[trigger] taken[j]).0 as int,
                    Content::Proposal(
                        Proposal {
                            timestamp: proposed_block.context.timestamp,
                            maybe_block: Some(proposed_block.value),
                            maybe_parent_round_id: taken[j].1,
                        },
                    ),
                    self.spec_leader(taken[j].0),
                ) by {
                    if j < k {
                        entry.leader_sequence.lemma_leader_in_range(taken[j].0 as u64);
                        entry.lemma_grows_holds(
                            self,
                            taken[j].0 as int,
                            Content::Proposal(
                                Proposal {
                                    timestamp: proposed_block.context.timestamp,
                                    maybe_block: Some(proposed_block.value),
                                    maybe_parent_round_id: taken[j].1,
                                },
                            ),
                            entry.spec_leader(taken[j].0),
                        );
                    }
                }
            }
            k += 1;
        }
        outcomes
    }
}

} // verus!

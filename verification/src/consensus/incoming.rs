//! Messages from peers: authentication, authorization, and dispatch.

use vstd::prelude::*;
use crate::consensus::context::Context;
use crate::consensus::state::{SimpleConsensus, WaitingProposal};
use crate::consensus::types::{
    calm, effects, extend_outcomes, lemma_calm_after, BlockContextView, Content, Effect, Message,
    MessageError, NodeId, Proposal, ProposedBlockView, ProtocolOutcome, RoundId, Signature,
    Timestamp, ValidatorIndex, MAX_FUTURE_ROUNDS,
};
use crate::consensus::wellformed::{
    is_direct_at, lemma_adds_nothing, lemma_extends_refl, lemma_extends_trans, lemma_extends_wf,
    lemma_grows_keeps, lemma_grows_refl, lemma_keeps_rounds, lemma_settles, parent_is_earlier,
};
use crate::consensus::wire::{signed_hash, spec_deserialize, spec_signed_hash};

verus! {

/// What is done with a signed message.
pub enum Verdict {
    /// The message is invalid: the sender is told so and disconnected from.
    Reject(MessageError),
    /// The message is ignored.
    Drop,
    /// The message is processed.
    Process,
}

/// The round up to which messages are accepted when `current` is the current round.
pub open spec fn spec_horizon(current: RoundId) -> RoundId {
    if current + MAX_FUTURE_ROUNDS > u32::MAX {
        u32::MAX
    } else {
        (current + MAX_FUTURE_ROUNDS) as u32
    }
}

impl<C: Context> SimpleConsensus<C> {
    /// What is done with a signed message.
    ///
    /// A message is rejected if it names no validator, and ignored if the validator
    /// is banned, or faulty unless the content is a proposal, if the round lies too
    /// far ahead or is the last there is, or if the round holds the content
    /// already. Then the signature is checked. A proposal is ignored if its
    /// timestamp lies too far ahead, and rejected if its sender does not lead the
    /// round or if it does not build on an earlier round.
    pub open spec fn verdict(
        &self,
        round_id: RoundId,
        content: Content,
        validator_idx: ValidatorIndex,
        signature: Signature,
        now: Timestamp,
    ) -> Verdict {
        if validator_idx.0 >= self.weights.len() {
            Verdict::Reject(MessageError::InvalidValidatorIndex)
        } else if match self.faults[validator_idx.0 as int] {
            Some(fault) => fault.is_banned() || !content.is_proposal(),
            None => false,
        } {
            Verdict::Drop
        } else if round_id > spec_horizon(self.spec_current_round()) || round_id == u32::MAX {
            Verdict::Drop
        } else if self.holds(round_id as int, content, validator_idx) {
            Verdict::Drop
        } else if !C::spec_verify_signature(
            spec_signed_hash::<C>(round_id, self.instance_id, content, validator_idx),
            self.validators[validator_idx.0 as int].id,
            signature,
        ) {
            Verdict::Reject(MessageError::InvalidSignature)
        } else {
            match content {
                Content::Proposal(proposal) => {
                    if proposal.timestamp.0 > now.plus(self.config.pending_vertex_timeout).0 {
                        Verdict::Drop
                    } else if validator_idx != self.spec_leader(round_id) {
                        Verdict::Reject(MessageError::WrongLeader)
                    } else if !parent_is_earlier(proposal.maybe_parent_round_id, round_id as int) {
                        Verdict::Reject(MessageError::InvalidParent)
                    } else {
                        Verdict::Process
                    }
                },
                _ => Verdict::Process,
            }
        }
    }

    /// Whether the proposal waits for the proposal of its parent round.
    pub open spec fn is_waiting(list: Seq<WaitingProposal>, waiting: WaitingProposal) -> bool {
        exists|i: int| 0 <= i < list.len() && #[trigger] list[i] == waiting
    }

    /// Whether `after` and `outcomes` are what processing the proposal of the leader
    /// of a round in the state `self` may come to.
    ///
    /// If the proposal it builds on is not accepted, it is made to wait; if it is
    /// older than that one, it is dropped; if its block has to be validated, it is
    /// made to await validation, and the validation is asked for unless it has
    /// been; else it is put on record, unless the round holds it.
    pub open spec fn proposal_processed(
        &self,
        after: &SimpleConsensus<C>,
        outcomes: Seq<ProtocolOutcome>,
        round_id: RoundId,
        proposal: Proposal,
        validator_idx: ValidatorIndex,
        signature: Signature,
        sender: NodeId,
        now: Timestamp,
    ) -> bool {
        let content = Content::Proposal(proposal);
        if proposal.maybe_parent_round_id is Some && self.spec_ancestor_values(
            proposal.maybe_parent_round_id.unwrap() as int,
        ) is None {
            let waiting = WaitingProposal {
                parent_round_id: proposal.maybe_parent_round_id.unwrap(),
                proposal,
                round_id,
                sender,
                signature,
            };
            &&& outcomes.len() == 0
            &&& *after == (SimpleConsensus {
                proposals_waiting_for_parent: after.proposals_waiting_for_parent,
                ..*self
            })
            &&& Self::is_waiting(after.proposals_waiting_for_parent@, waiting)
            &&& after.proposals_waiting_for_parent@
                == if Self::is_waiting(self.proposals_waiting_for_parent@, waiting) {
                self.proposals_waiting_for_parent@
            } else {
                self.proposals_waiting_for_parent@.push(waiting)
            }
        } else if self.older_than_parent(proposal) {
            outcomes.len() == 0 && *after == *self
        } else if Self::must_validate(proposal) {
            let ancestor_values = match proposal.maybe_parent_round_id {
                Some(parent) => self.spec_ancestor_values(parent as int).unwrap(),
                None => Seq::empty(),
            };
            let block = ProposedBlockView {
                value: proposal.maybe_block.unwrap(),
                context: BlockContextView {
                    timestamp: proposal.timestamp,
                    ancestor_values,
                },
            };
            &&& *after == (SimpleConsensus {
                proposals_waiting_for_validation: after.proposals_waiting_for_validation,
                ..*self
            })
            &&& outcomes.len() <= 1
            &&& outcomes.len() == 1 ==> outcomes[0]@ == Effect::ValidateConsensusValue {
                sender,
                proposed_block: block,
            } && after.proposals_waiting_for_validation.len()
                == self.proposals_waiting_for_validation.len() + 1
            &&& outcomes.len() == 0 ==> after.proposals_waiting_for_validation
                == self.proposals_waiting_for_validation
        } else {
            &&& self.grows(after)
            &&& after.holds(round_id as int, content, validator_idx)
            &&& !self.holds(round_id as int, content, validator_idx) ==> after.progress_detected
                && self.concluded(
                after,
                outcomes,
                round_id as int,
                content,
                validator_idx,
                signature,
                now,
            )
        }
    }

    /// Whether `after` and `outcomes` are what handling the signed message in the
    /// state `self` may come to.
    ///
    /// A message that is rejected or dropped leaves the state as it is. An echo or a
    /// vote that contradicts what the round holds from the validator makes the
    /// validator faulty; otherwise it is put on record, and the state grows. A
    /// proposal beside another in its round makes the leader faulty, and is then
    /// processed all the same. Otherwise, if
    /// the proposal it builds on is not accepted, it is made to wait; if it is older
    /// than that one, it is dropped; if its block has to be validated, it is made to
    /// await validation, and the validation is asked for unless it has been; else
    /// it is put on record.
    pub open spec fn signed_message_handled(
        &self,
        after: &SimpleConsensus<C>,
        outcomes: Seq<ProtocolOutcome>,
        msg: Seq<u8>,
        round_id: RoundId,
        content: Content,
        validator_idx: ValidatorIndex,
        signature: Signature,
        sender: NodeId,
        now: Timestamp,
    ) -> bool {
        match self.verdict(round_id, content, validator_idx, signature, now) {
            Verdict::Reject(error) => *after == *self && effects(outcomes) == seq![
                Effect::InvalidIncomingMessage(msg, sender, error),
            ],
            Verdict::Drop => *after == *self && outcomes.len() == 0,
            Verdict::Process => match content {
                Content::Proposal(proposal) => {
                    if self.proposals_at(round_id as int).len() > 0 {
                        &&& is_direct_at(after.faults@, validator_idx.0 as int)
                        &&& !is_direct_at(self.faults@, validator_idx.0 as int)
                            ==> self.evidence_given(
                            after,
                            outcomes,
                            round_id,
                            content,
                            validator_idx,
                            signature,
                        )
                        &&& exists|faulted: SimpleConsensus<C>, reported: int|
                            {
                                &&& 0 <= reported <= outcomes.len()
                                &&& if is_direct_at(self.faults@, validator_idx.0 as int) {
                                    faulted == *self && reported == 0
                                } else {
                                    self.evidence_given(
                                        &faulted,
                                        outcomes.take(reported),
                                        round_id,
                                        content,
                                        validator_idx,
                                        signature,
                                    )
                                }
                                &&& #[trigger] faulted.proposal_processed(
                                    after,
                                    outcomes.skip(reported),
                                    round_id,
                                    proposal,
                                    validator_idx,
                                    signature,
                                    sender,
                                    now,
                                )
                            }
                    } else {
                        self.proposal_processed(
                            after,
                            outcomes,
                            round_id,
                            proposal,
                            validator_idx,
                            signature,
                            sender,
                            now,
                        )
                    }
                },
                _ => {
                    if self.equivocates(round_id as int, content, validator_idx) {
                        self.evidence_given(
                            after,
                            outcomes,
                            round_id,
                            content,
                            validator_idx,
                            signature,
                        )
                    } else {
                        &&& self.grows(after)
                        &&& after.holds(round_id as int, content, validator_idx)
                        &&& after.progress_detected
                        &&& self.concluded(
                            after,
                            outcomes,
                            round_id as int,
                            content,
                            validator_idx,
                            signature,
                            now,
                        )
                    }
                },
            },
        }
    }

    /// The round up to which messages are accepted.
    fn horizon(&self) -> (round_id: RoundId)
        requires
            self.wf_basic(),
        ensures
            round_id == spec_horizon(self.spec_current_round()),
    {
        self.current_round().saturating_add(MAX_FUTURE_ROUNDS)
    }

    /// Makes the proposal wait for the proposal of its parent round, unless it waits
    /// already.
    fn wait_for_parent(&mut self, waiting: WaitingProposal)
        requires
            old(self).wf(),
            waiting.parent_round_id < waiting.round_id < u32::MAX,
            waiting.proposal.maybe_parent_round_id == Some(waiting.parent_round_id),
        ensures
            final(self).wf(),
            old(self).extends(final(self)),
            *final(self) == (SimpleConsensus {
                proposals_waiting_for_parent: final(self).proposals_waiting_for_parent,
                ..*old(self)
            }),
            Self::is_waiting(final(self).proposals_waiting_for_parent@, waiting),
            final(self).proposals_waiting_for_parent@ == if Self::is_waiting(
                old(self).proposals_waiting_for_parent@,
                waiting,
            ) {
                old(self).proposals_waiting_for_parent@
            } else {
                old(self).proposals_waiting_for_parent@.push(waiting)
            },
    {
        let mut i: usize = 0;
        while i < self.proposals_waiting_for_parent.len()
            invariant
                i <= self.proposals_waiting_for_parent.len(),
                *self == *old(self),
                self.wf(),
                forall|k: int| 0 <= k < i ==> #[trigger] self.proposals_waiting_for_parent[k] != waiting,
            decreases self.proposals_waiting_for_parent.len() - i,
        {
            if self.proposals_waiting_for_parent[i] == waiting {
                proof {
                    lemma_extends_refl(old(self));
                }
                return ;
            }
            i += 1;
        }
        self.proposals_waiting_for_parent.push(waiting);
        proof {
            assert(old(self).extends(self));
            lemma_extends_wf(old(self), self);
            assert(self.proposals_waiting_for_parent[self.proposals_waiting_for_parent.len() - 1]
                == waiting);
        }
    }

    /// The first proposal that the round holds, if it holds one.
    fn first_proposal(&self, round_id: RoundId) -> (res: Option<(Proposal, Signature)>)
        ensures
            res is Some == (self.proposals_at(round_id as int).len() > 0),
            res matches Some((proposal, signature)) ==> {
                &&& proposal == self.proposals_at(round_id as int)[0].proposal
                &&& signature == self.proposals_at(round_id as int)[0].signature
            },
    {
        match self.round(round_id) {
            Some(round) => if round.proposals.len() > 0 {
                Some((round.proposals[0].proposal, round.proposals[0].signature))
            } else {
                None
            },
            None => None,
        }
    }

    /// Handles a signed message of a peer: it is authenticated and authorized, and
    /// then processed.
    pub fn handle_signed_message(
        &mut self,
        msg: Vec<u8>,
        round_id: RoundId,
        content: Content,
        validator_idx: ValidatorIndex,
        signature: Signature,
        sender: NodeId,
        now: Timestamp,
    ) -> (outcomes: Vec<ProtocolOutcome>)
        requires
            old(self).wf(),
        ensures
            final(self).wf(),
            old(self).extends(final(self)),
            old(self).settles(final(self)),
            old(self).signed_message_handled(
                final(self),
                outcomes@,
                msg@,
                round_id,
                content,
                validator_idx,
                signature,
                sender,
                now,
            ),
    {
        proof {
            lemma_extends_refl(old(self));
            lemma_grows_refl(old(self));
            lemma_settles(old(self), old(self));
        }
        if validator_idx.0 as usize >= self.weights.len() {
            return invalid_message(msg, sender, MessageError::InvalidValidatorIndex);
        }
        let validator_id = self.validators[validator_idx.0 as usize].id;
        match self.faults[validator_idx.0 as usize] {
            Some(fault) => {
                if fault.is_banned() || !content.is_proposal() {
                    // Messages from faulty validators are ignored.
                    return Vec::new();
                }
            },
            None => {},
        }
        if round_id > self.horizon() || round_id == u32::MAX {
            // The message is from a round too far ahead.
            return Vec::new();
        }
        if self.contains(round_id, &content, validator_idx) {
            // The message is a duplicate.
            return Vec::new();
        }
        let hash = signed_hash::<C>(round_id, self.instance_id, content, validator_idx);
        if !C::verify_signature(hash, validator_id, signature) {
            return invalid_message(msg, sender, MessageError::InvalidSignature);
        }
        match content {
            Content::Proposal(proposal) => {
                if proposal.timestamp.0 > now.plus(self.config.pending_vertex_timeout).0 {
                    // The timestamp of the proposal lies too far ahead.
                    return Vec::new();
                }
                if validator_idx != self.leader(round_id) {
                    return invalid_message(msg, sender, MessageError::WrongLeader);
                }
                let parent_round_id = match proposal.maybe_parent_round_id {
                    Some(parent_round_id) => {
                        if parent_round_id >= round_id {
                            return invalid_message(msg, sender, MessageError::InvalidParent);
                        }
                        Some(parent_round_id)
                    },
                    None => None,
                };
                let mut outcomes: Vec<ProtocolOutcome> = Vec::new();
                match self.first_proposal(round_id) {
                    Some((other_proposal, other_signature)) => {
                        // The leader has signed two proposals in one round. The
                        // proposal is processed all the same: it may have been
                        // accepted before the other validators saw the fault.
                        let faulted = self.handle_fault(
                            round_id,
                            validator_idx,
                            Content::Proposal(proposal),
                            signature,
                            Content::Proposal(other_proposal),
                            other_signature,
                            now,
                        );
                        extend_outcomes(&mut outcomes, faulted);
                    },
                    None => {},
                }
                let ghost faulted = *self;
                let ghost reported = outcomes@;
                let ancestor_values = match parent_round_id {
                    Some(parent_round_id) => match self.ancestor_values(parent_round_id) {
                        Some(ancestor_values) => ancestor_values,
                        None => {
                            self.wait_for_parent(
                                WaitingProposal {
                                    parent_round_id,
                                    proposal,
                                    round_id,
                                    sender,
                                    signature,
                                },
                            );
                            proof {
                                lemma_extends_trans(old(self), &faulted, self);
                                self.lemma_fault_stays(&faulted, validator_idx);
                                assert(self.faults@ == faulted.faults@);
                                lemma_adds_nothing(&faulted, self);
                                lemma_keeps_rounds(&faulted, self);
                                lemma_settles(&faulted, self);
                                assert forall|r: int|
                                    old(self).fault_concluded(
                                        &faulted,
                                        r,
                                        validator_idx.0 as int,
                                    ) implies #[trigger] old(self).fault_concluded(
                                    self,
                                    r,
                                    validator_idx.0 as int,
                                ) by {
                                    old(self).lemma_fault_concluded_still(
                                        &faulted,
                                        self,
                                        r,
                                        validator_idx.0 as int,
                                    );
                                }
                                let k = reported.len() as int;
                                assert(outcomes@.take(k) =~= reported);
                                assert(outcomes@.skip(k) =~= Seq::<ProtocolOutcome>::empty());
                                assert(faulted.proposal_processed(
                                    self,
                                    outcomes@.skip(k),
                                    round_id,
                                    proposal,
                                    validator_idx,
                                    signature,
                                    sender,
                                    now,
                                ));
                            }
                            return outcomes;
                        },
                    },
                    None => Vec::new(),
                };
                let validated = self.validate_proposal(
                    round_id,
                    proposal,
                    ancestor_values,
                    sender,
                    signature,
                    now,
                );
                let ghost earlier = outcomes@;
                let ghost validated_seq = validated@;
                extend_outcomes(&mut outcomes, validated);
                proof {
                    lemma_grows_keeps(&faulted, self);
                    assert forall|r: int|
                        old(self).fault_concluded(
                            &faulted,
                            r,
                            validator_idx.0 as int,
                        ) implies #[trigger] old(self).fault_concluded(
                        self,
                        r,
                        validator_idx.0 as int,
                    ) by {
                        old(self).lemma_fault_concluded_still(
                            &faulted,
                            self,
                            r,
                            validator_idx.0 as int,
                        );
                    }
                    let evidence = old(self).evidence_length(validator_idx);
                    if evidence <= earlier.len() && calm(earlier.skip(evidence)) {
                        lemma_calm_after(earlier, validated_seq, evidence);
                    }
                    lemma_extends_trans(old(self), &faulted, self);
                    self.lemma_fault_stays(&faulted, validator_idx);
                    assert(self.faults@ == faulted.faults@);
                    assert(forall|i: int|
                        0 <= i < reported.len() ==> effects(outcomes@)[i] == effects(reported)[i]);
                    let k = reported.len() as int;
                    assert(outcomes@.take(k) =~= reported);
                    assert(outcomes@.skip(k) =~= validated_seq);
                    if validated_seq.len() == 1 {
                        assert(effects(validated_seq)[0] == validated_seq[0]@);
                    }
                    assert(faulted.proposal_processed(
                        self,
                        outcomes@.skip(k),
                        round_id,
                        proposal,
                        validator_idx,
                        signature,
                        sender,
                        now,
                    ));
                    if earlier.len() == 0 {
                        assert(outcomes@ =~= validated_seq);
                        assert(effects(earlier) =~= Seq::empty());
                        assert(effects(outcomes@) =~= effects(validated_seq));
                        if outcomes.len() == 1 {
                            assert(effects(outcomes@)[0] == outcomes[0]@);
                            assert(effects(validated_seq)[0] == validated_seq[0]@);
                        }
                    }
                }
                outcomes
            },
            _ => self.handle_content(round_id, content, validator_idx, signature, now),
        }
    }

    /// Direct evidence against a validator stays as the state extends.
    pub proof fn lemma_fault_stays(&self, before: &SimpleConsensus<C>, validator_idx: ValidatorIndex)
        requires
            before.extends(self),
            validator_idx.0 < before.faults.len(),
        ensures
            is_direct_at(before.faults@, validator_idx.0 as int) ==> is_direct_at(
                self.faults@,
                validator_idx.0 as int,
            ),
    {
    }

    /// Whether `after` and `outcomes` are what handling the bytes of a message in the
    /// state `self` may come to.
    ///
    /// Bytes that encode no message, and a message of another instance, are rejected
    /// and leave the state as it is. A summary is answered with what the sender
    /// lacks, and leaves the state as it is. A signed message is handled as such.
    pub open spec fn message_handled(
        &self,
        after: &SimpleConsensus<C>,
        outcomes: Seq<ProtocolOutcome>,
        sender: NodeId,
        msg: Seq<u8>,
        now: Timestamp,
    ) -> bool {
        match spec_deserialize(msg) {
            None => *after == *self && effects(outcomes) == seq![
                Effect::InvalidIncomingMessage(msg, sender, MessageError::Malformed),
            ],
            Some(message) => if message.instance_id() != self.instance_id {
                *after == *self && effects(outcomes) == seq![
                    Effect::InvalidIncomingMessage(msg, sender, MessageError::InvalidInstanceId),
                ]
            } else {
                match message {
                    Message::SyncState {
                        round_id,
                        proposal_hash,
                        proposal,
                        first_validator_idx,
                        echos,
                        true_votes,
                        false_votes,
                        faulty,
                        instance_id,
                    } => *after == *self && effects(outcomes) == self.spec_handle_sync_state(
                        round_id,
                        proposal_hash,
                        proposal,
                        first_validator_idx,
                        echos,
                        true_votes,
                        false_votes,
                        faulty,
                        sender,
                    ),
                    Message::Signed { round_id, instance_id, content, validator_idx, signature } => {
                        self.signed_message_handled(
                            after,
                            outcomes,
                            msg,
                            round_id,
                            content,
                            validator_idx,
                            signature,
                            sender,
                            now,
                        )
                    },
                }
            },
        }
    }

    /// Handles the bytes that a peer has sent.
    pub fn handle_message(&mut self, sender: NodeId, msg: Vec<u8>, now: Timestamp) -> (outcomes:
        Vec<ProtocolOutcome>)
        requires
            old(self).wf(),
        ensures
            final(self).wf(),
            old(self).extends(final(self)),
            old(self).settles(final(self)),
            old(self).message_handled(final(self), outcomes@, sender, msg@, now),
    {
        proof {
            lemma_extends_refl(old(self));
            lemma_settles(old(self), old(self));
        }
        match Message::deserialize(&msg) {
            None => invalid_message(msg, sender, MessageError::Malformed),
            Some(message) => {
                if message.instance_id() != self.instance_id {
                    // The message belongs to another instance.
                    return invalid_message(msg, sender, MessageError::InvalidInstanceId);
                }
                match message {
                    Message::SyncState {
                        round_id,
                        proposal_hash,
                        proposal,
                        first_validator_idx,
                        echos,
                        true_votes,
                        false_votes,
                        faulty,
                        instance_id: _,
                    } => self.handle_sync_state(
                        round_id,
                        proposal_hash,
                        proposal,
                        first_validator_idx,
                        echos,
                        true_votes,
                        false_votes,
                        faulty,
                        sender,
                    ),
                    Message::Signed {
                        round_id,
                        instance_id: _,
                        content,
                        validator_idx,
                        signature,
                    } => self.handle_signed_message(
                        msg,
                        round_id,
                        content,
                        validator_idx,
                        signature,
                        sender,
                        now,
                    ),
                }
            },
        }
    }
}

/// The outcome of rejecting a message.
pub fn invalid_message(msg: Vec<u8>, sender: NodeId, error: MessageError) -> (outcomes: Vec<
    ProtocolOutcome,
>)
    ensures
        effects(outcomes@) == seq![Effect::InvalidIncomingMessage(msg@, sender, error)],
{
    let mut outcomes: Vec<ProtocolOutcome> = Vec::new();
    outcomes.push(ProtocolOutcome::InvalidIncomingMessage(msg, sender, error));
    assert(effects(outcomes@) =~= seq![Effect::InvalidIncomingMessage(msg@, sender, error)]);
    outcomes
}

} // verus!

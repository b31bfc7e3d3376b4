//! The operations of the protocol that its caller invokes, besides the handling of
//! messages: timers, proposing, validity verdicts, and the life of a validator.

use vstd::prelude::*;
use crate::consensus::context::{Context, ValidatorSecret};
use crate::consensus::state::{Fault, SimpleConsensus};
use crate::consensus::types::{
    effects, extend_outcomes, BlockContext, BlockContextView, ConsensusValue, Content, Effect,
    InstanceId, NodeId, Proposal, ProposedBlock, ProtocolOutcome, RoundId, TimeDiff, TimerId,
    Timestamp, ValidatorId, ValidatorIndex, TIMER_ID_LOG_PARTICIPATION, TIMER_ID_PROPOSAL_TIMEOUT,
    TIMER_ID_ROUND, TIMER_ID_SYNC_PEER,
};
use crate::consensus::wellformed::{
    is_direct_at, lemma_extends_refl, lemma_extends_trans, lemma_extends_wf,
    lemma_faults_grow_quorums, lemma_grows_refl, lemma_grows_trans, parent_is_earlier,
};
use crate::consensus::wire::{spec_serialize, spec_signed_hash};

verus! {

impl<C: Context> SimpleConsensus<C> {
    /// The position of the validator with the given identity: the first, if there
    /// are several.
    pub open spec fn spec_get_index(&self, id: ValidatorId) -> Option<ValidatorIndex> {
        if exists|i: int| 0 <= i < self.validators.len() && self.validators[i].id == id {
            let first = choose|i: int|
                0 <= i < self.validators.len() && self.validators[i].id == id && forall|j: int|
                    0 <= j < i ==> self.validators[j].id != id;
            Some(ValidatorIndex(first as u32))
        } else {
            None
        }
    }

    /// Finds the validator with the given identity.
    pub fn get_index(&self, id: ValidatorId) -> (res: Option<ValidatorIndex>)
        requires
            self.wf_basic(),
        ensures
            res == self.spec_get_index(id),
            res matches Some(index) ==> index.0 < self.validators.len()
                && self.validators[index.0 as int].id == id,
    {
        let mut i: usize = 0;
        while i < self.validators.len()
            invariant
                i <= self.validators.len() <= u32::MAX,
                forall|j: int| 0 <= j < i ==> self.validators[j].id != id,
            decreases self.validators.len() - i,
        {
            if self.validators[i].id == id {
                proof {
                    let first = choose|k: int|
                        0 <= k < self.validators.len() && self.validators[k].id == id
                            && forall|j: int| 0 <= j < k ==> self.validators[j].id != id;
                    assert(first == i) by {
                        if first < i {
                            assert(self.validators[first].id != id);
                        } else if i < first {
                            assert(self.validators[i as int].id != id);
                        }
                    }
                }
                return Some(ValidatorIndex(i as u32));
            }
            i += 1;
        }
        None
    }

    /// The last round before `round_id` in which a proposal is accepted that the
    /// round holds, if there is one.
    pub open spec fn last_accepted_before(&self, round_id: int) -> Option<RoundId>
        decreases round_id,
    {
        if round_id <= 0 {
            None
        } else if self.accepted_proposal_at(round_id - 1) is Some {
            Some((round_id - 1) as u32)
        } else {
            self.last_accepted_before(round_id - 1)
        }
    }

    /// Finds the last round before `round_id` with an accepted proposal.
    fn find_last_accepted_before(&self, round_id: RoundId) -> (res: Option<(RoundId, Proposal)>)
        requires
            self.wf_basic(),
        ensures
            match res {
                Some((parent, proposal)) => self.last_accepted_before(round_id as int) == Some(
                    parent,
                ) && parent < round_id && self.accepted_proposal_at(parent as int) is Some
                    && self.accepted_proposal_at(parent as int).unwrap().1 == proposal,
                None => self.last_accepted_before(round_id as int) is None,
            },
    {
        let mut k = round_id;
        while k > 0
            invariant
                k <= round_id,
                self.wf_basic(),
                self.last_accepted_before(round_id as int) == self.last_accepted_before(k as int),
            decreases k,
        {
            match self.accepted_proposal(k - 1) {
                Some((_, proposal)) => {
                    return Some((k - 1, proposal));
                },
                None => {},
            }
            k -= 1;
        }
        None
    }

    /// Whether the local validator is to propose in the round: it leads the round,
    /// it has asked for no block yet, and the round can be started.
    pub open spec fn is_our_turn(&self, round_id: RoundId) -> bool {
        &&& self.active_validator is Some
        &&& self.active_validator.unwrap().0 == self.spec_leader(round_id)
        &&& self.pending_proposal_round_ids is None
        &&& round_id < u32::MAX
    }

    /// The context in which the local validator is to propose in the round, with the
    /// parent round of the proposal to be; none if the round holds a proposal, or
    /// if the last accepted proposal ends the era or follows its end.
    pub open spec fn proposal_context(&self, round_id: RoundId, now: Timestamp) -> Option<
        (Option<RoundId>, Timestamp, Seq<ConsensusValue>),
    > {
        if self.proposals_at(round_id as int).len() > 0 {
            None
        } else {
            match self.last_accepted_before(round_id as int) {
                Some(parent) => {
                    if self.spec_accepted_switch_block(parent as int)
                        || self.spec_accepted_dummy_proposal(parent as int)
                        || self.spec_ancestor_values(parent as int) is None {
                        None
                    } else {
                        Some(
                            (
                                Some(parent),
                                self.accepted_proposal_at(parent as int).unwrap().1.timestamp.max(
                                    now,
                                ),
                                self.spec_ancestor_values(parent as int).unwrap(),
                            ),
                        )
                    }
                },
                None => Some((None, now, Seq::empty())),
            }
        }
    }

    /// Starting a round changes nothing in the chain of accepted proposals.
    pub proof fn lemma_started_chain(&self, after: &SimpleConsensus<C>, round_id: int)
        requires
            self.wf_basic(),
            after.wf_basic(),
            self.started(after, round_id),
        ensures
            forall|r: int| #[trigger] after.accepted_proposal_at(r) == self.accepted_proposal_at(r),
            forall|r: int| #[trigger]
                after.spec_accepted_switch_block(r) == self.spec_accepted_switch_block(r),
            forall|r: int| #[trigger]
                after.spec_accepted_dummy_proposal(r) == self.spec_accepted_dummy_proposal(r),
            forall|r: int| #[trigger]
                after.last_accepted_before(r) == self.last_accepted_before(r),
            forall|r: int| #[trigger]
                after.spec_ancestor_values(r) == self.spec_ancestor_values(r),
            after.proposals_at(round_id) == self.proposals_at(round_id),
    {
        assert forall|r: int| #[trigger]
            after.accepted_proposal_at(r) == self.accepted_proposal_at(r) by {
            if r != round_id {
                assert(after.round_at(r) == self.round_at(r));
            }
        }
        assert forall|r: int| #[trigger]
            after.last_accepted_before(r) == self.last_accepted_before(r) by {
            after.lemma_same_last_accepted(self, r);
        }
        assert forall|r: int| #[trigger]
            after.spec_ancestor_values(r) == self.spec_ancestor_values(r) by {
            after.lemma_same_ancestors(self, r);
        }
        if self.round_at(round_id) is None {
            assert(after.proposals_at(round_id) =~= self.proposals_at(round_id));
        }
    }

    /// States with the same accepted proposals have the same last accepted
    /// proposal before any round.
    pub proof fn lemma_same_last_accepted(&self, before: &SimpleConsensus<C>, r: int)
        requires
            forall|q: int| #[trigger] self.accepted_proposal_at(q) == before.accepted_proposal_at(q),
        ensures
            self.last_accepted_before(r) == before.last_accepted_before(r),
        decreases r,
    {
        if r > 0 {
            self.lemma_same_last_accepted(before, r - 1);
        }
    }

    /// States with the same accepted proposals have the same ancestors.
    pub proof fn lemma_same_ancestors(&self, before: &SimpleConsensus<C>, r: int)
        requires
            forall|q: int| #[trigger] self.accepted_proposal_at(q) == before.accepted_proposal_at(q),
        ensures
            self.spec_ancestor_values(r) == before.spec_ancestor_values(r),
        decreases r,
    {
        match self.accepted_proposal_at(r) {
            Some((_, proposal)) => match proposal.maybe_parent_round_id {
                Some(parent) => {
                    if 0 <= parent < r {
                        self.lemma_same_ancestors(before, parent as int);
                    }
                },
                None => {},
            },
            None => {},
        }
    }

    /// Works out what the local validator is to build on in the round.
    fn find_proposal_context(&self, round_id: RoundId, now: Timestamp) -> (res: Option<
        (Option<RoundId>, Timestamp, Vec<ConsensusValue>),
    >)
        requires
            self.wf(),
        ensures
            match self.proposal_context(round_id, now) {
                Some((maybe_parent, timestamp, ancestor_values)) => res matches Some(found)
                    && found.0 == maybe_parent && found.1 == timestamp && found.2@
                    == ancestor_values && parent_is_earlier(maybe_parent, round_id as int),
                None => res is None,
            },
    {
        let has_proposals = match self.round(round_id) {
            Some(round) => round.proposals.len() > 0,
            None => false,
        };
        if has_proposals {
            return None;
        }
        match self.find_last_accepted_before(round_id) {
            Some((parent_round_id, parent)) => {
                if self.accepted_switch_block(parent_round_id) || self.accepted_dummy_proposal(
                    parent_round_id,
                ) {
                    // The era has ended.
                    return None;
                }
                match self.ancestor_values(parent_round_id) {
                    Some(ancestor_values) => Some(
                        (Some(parent_round_id), parent.timestamp.max(now), ancestor_values),
                    ),
                    None => None,
                }
            },
            None => Some((None, now, Vec::new())),
        }
    }

    /// Sets the timeout of the round that starts, unless the last block of the era
    /// is finalized.
    fn set_round_timeout(&mut self, now: Timestamp) -> (outcomes: Vec<ProtocolOutcome>)
        requires
            old(self).wf(),
        ensures
            final(self).wf(),
            old(self).extends(final(self)),
            old(self).grows(final(self)),
            *final(self) == (SimpleConsensus {
                current_timeout: final(self).current_timeout,
                ..*old(self)
            }),
            final(self).current_timeout == if old(self).spec_finalized_switch_block() {
                old(self).current_timeout
            } else {
                now.plus(old(self).proposal_timeout)
            },
            effects(outcomes@) == if old(self).spec_finalized_switch_block() {
                Seq::<Effect>::empty()
            } else {
                seq![
                    Effect::ScheduleTimer(
                        now.plus(old(self).proposal_timeout),
                        TIMER_ID_PROPOSAL_TIMEOUT,
                    ),
                ]
            },
    {
        let mut outcomes: Vec<ProtocolOutcome> = Vec::new();
        assert(effects(outcomes@) =~= Seq::empty());
        if !self.finalized_switch_block() {
            self.current_timeout = now.plus(self.proposal_timeout);
            outcomes.push(
                ProtocolOutcome::ScheduleTimer(self.current_timeout, TIMER_ID_PROPOSAL_TIMEOUT),
            );
            assert(effects(outcomes@) =~= seq![
                Effect::ScheduleTimer(self.current_timeout, TIMER_ID_PROPOSAL_TIMEOUT),
            ]);
        }
        proof {
            assert(old(self).extends(self));
            assert(old(self).grows(self));
            lemma_extends_wf(old(self), self);
        }
        outcomes
    }

    /// Asks for a block to propose in the round, if the local validator is to
    /// propose in it and there is something to build on.
    fn request_block(&mut self, round_id: RoundId, now: Timestamp) -> (outcomes: Vec<
        ProtocolOutcome,
    >)
        requires
            old(self).wf(),
        ensures
            final(self).wf(),
            old(self).extends(final(self)),
            old(self).grows(final(self)),
            !old(self).is_our_turn(round_id) ==> *final(self) == *old(self) && outcomes.len() == 0,
            old(self).is_our_turn(round_id) ==> {
                &&& old(self).started(
                    &(SimpleConsensus {
                        pending_proposal_round_ids: old(self).pending_proposal_round_ids,
                        ..*final(self)
                    }),
                    round_id as int,
                )
                &&& match old(self).proposal_context(round_id, now) {
                    Some((maybe_parent, timestamp, ancestor_values)) => {
                        &&& final(self).pending_proposal_round_ids == Some((round_id, maybe_parent))
                        &&& effects(outcomes@) == seq![
                            Effect::CreateNewBlock(
                                BlockContextView {
                                    timestamp,
                                    ancestor_values,
                                },
                            ),
                        ]
                    },
                    None => {
                        &&& final(self).pending_proposal_round_ids is None
                        &&& outcomes.len() == 0
                    },
                }
            },
    {
        proof {
            lemma_extends_refl(old(self));
            lemma_grows_refl(old(self));
        }
        let ours = match &self.active_validator {
            Some((our_idx, _)) => *our_idx == self.leader(round_id),
            None => false,
        };
        if !ours || self.pending_proposal_round_ids.is_some() || round_id == u32::MAX {
            return Vec::new();
        }
        self.start_round(round_id);
        proof {
            old(self).lemma_started_chain(self, round_id as int);
        }
        let ghost started = *self;
        let (maybe_parent_round_id, timestamp, ancestor_values) = match self.find_proposal_context(
            round_id,
            now,
        ) {
            Some(context) => context,
            None => {
                return Vec::new();
            },
        };
        self.pending_proposal_round_ids = Some((round_id, maybe_parent_round_id));
        proof {
            assert(started.extends(self));
            assert(started.grows(self));
            lemma_extends_wf(&started, self);
            lemma_extends_trans(old(self), &started, self);
            lemma_grows_trans(old(self), &started, self);
        }
        let block_context = BlockContext { timestamp, ancestor_values };
        let mut outcomes: Vec<ProtocolOutcome> = Vec::new();
        outcomes.push(ProtocolOutcome::CreateNewBlock(block_context));
        assert(effects(outcomes@) =~= seq![Effect::CreateNewBlock(block_context@)]);
        outcomes
    }

    /// Whether `after` and `outcomes` are what the timer that starts a round comes to
    /// when it fires at `now`: the timeout of the round is set, unless the era has
    /// ended, and a block is asked for if the local validator leads the current
    /// round, has asked for none, and the round holds no proposal.
    pub open spec fn round_timer_handled(
        &self,
        after: &SimpleConsensus<C>,
        outcomes: Seq<ProtocolOutcome>,
        now: Timestamp,
    ) -> bool {
        &&& after.current_timeout == if self.spec_finalized_switch_block() {
            self.current_timeout
        } else {
            now.plus(self.proposal_timeout)
        }
        &&& ({
            let round_id = self.spec_current_round();
            let timer = if self.spec_finalized_switch_block() {
                Seq::<Effect>::empty()
            } else {
                seq![
                    Effect::ScheduleTimer(
                        now.plus(self.proposal_timeout),
                        TIMER_ID_PROPOSAL_TIMEOUT,
                    ),
                ]
            };
            if self.is_our_turn(round_id) {
                &&& self.started(
                    &(SimpleConsensus {
                        current_timeout: self.current_timeout,
                        pending_proposal_round_ids: self.pending_proposal_round_ids,
                        ..*after
                    }),
                    round_id as int,
                )
                &&& match self.proposal_context(round_id, now) {
                    Some((maybe_parent, timestamp, ancestor_values)) => {
                        &&& after.pending_proposal_round_ids == Some(
                            (round_id, maybe_parent),
                        )
                        &&& effects(outcomes) == timer.push(
                            Effect::CreateNewBlock(
                                BlockContextView {
                                    timestamp,
                                    ancestor_values,
                                },
                            ),
                        )
                    },
                    None => {
                        &&& after.pending_proposal_round_ids is None
                        &&& effects(outcomes) == timer
                    },
                }
            } else {
                &&& *after == (SimpleConsensus {
                    current_timeout: after.current_timeout,
                    ..*self
                })
                &&& effects(outcomes) == timer
            }
        })
    }

    /// Handles the timer that starts a round: the timeout of the round is set,
    /// unless the era has ended, and a block is asked for if the local validator
    /// leads the current round, has asked for none, and the round holds no proposal.
    pub fn handle_round_timer(&mut self, now: Timestamp) -> (outcomes: Vec<ProtocolOutcome>)
        requires
            old(self).wf(),
        ensures
            final(self).wf(),
            old(self).extends(final(self)),
            old(self).grows(final(self)),
            old(self).round_timer_handled(final(self), outcomes@, now),
    {
        let mut outcomes = self.set_round_timeout(now);
        let ghost timed = *self;
        let ghost timer = effects(outcomes@);
        let current_round = self.current_round();
        proof {
            timed.lemma_timeout_reads(old(self), current_round, now);
        }
        let requested = self.request_block(current_round, now);
        let ghost asked = effects(requested@);
        extend_outcomes(&mut outcomes, requested);
        proof {
            lemma_extends_trans(old(self), &timed, self);
            lemma_grows_trans(old(self), &timed, self);
            assert(effects(outcomes@) =~= timer + asked);
            if asked.len() == 0 {
                assert(timer + asked =~= timer);
            } else if asked.len() == 1 {
                assert(timer + asked =~= timer.push(asked[0]));
            }
            if old(self).is_our_turn(current_round) {
                let first = SimpleConsensus {
                    pending_proposal_round_ids: timed.pending_proposal_round_ids,
                    ..*self
                };
                let second = SimpleConsensus {
                    current_timeout: old(self).current_timeout,
                    pending_proposal_round_ids: old(self).pending_proposal_round_ids,
                    ..*self
                };
                assert(timed.started(&first, current_round as int));
                assert(second == (SimpleConsensus {
                    current_timeout: old(self).current_timeout,
                    ..first
                }));
                assert forall|q: int| q != current_round implies #[trigger] second.round_at(q)
                    == old(self).round_at(q) by {
                    assert(first.round_at(q) == timed.round_at(q));
                }
                assert(old(self).same_but_round(&second, current_round as int));
                assert(old(self).started(&second, current_round as int));
            }
        }
        outcomes
    }

    /// The timeout of the current round bears on nothing that is read off the
    /// rounds.
    pub proof fn lemma_timeout_reads(&self, before: &SimpleConsensus<C>, round_id: RoundId, now: Timestamp)
        requires
            *self == (SimpleConsensus { current_timeout: self.current_timeout, ..*before }),
        ensures
            self.spec_current_round() == before.spec_current_round(),
            self.is_our_turn(round_id) == before.is_our_turn(round_id),
            self.proposal_context(round_id, now) == before.proposal_context(round_id, now),
    {
        self.lemma_same_rounds_reads(before);
        assert forall|q: int| #[trigger] self.accepted_proposal_at(q) == before.accepted_proposal_at(q) by {}
        self.lemma_same_last_accepted(before, round_id as int);
        match self.last_accepted_before(round_id as int) {
            Some(parent) => {
                self.lemma_same_ancestors(before, parent as int);
            },
            None => {},
        }
    }

    /// States with the same rounds have the same current round.
    pub proof fn lemma_same_rounds_reads(&self, before: &SimpleConsensus<C>)
        requires
            self.rounds == before.rounds,
        ensures
            self.spec_current_round() == before.spec_current_round(),
    {
        self.lemma_same_after_last(before, self.rounds.len() as int);
        self.lemma_same_first_unskippable(
            before,
            self.after_last_accepted(self.rounds.len() as int),
        );
    }

    /// States with the same rounds have the same last round with an accepted
    /// proposal.
    pub proof fn lemma_same_after_last(&self, before: &SimpleConsensus<C>, k: int)
        requires
            self.rounds == before.rounds,
        ensures
            self.after_last_accepted(k) == before.after_last_accepted(k),
        decreases k,
    {
        if k > 0 {
            self.lemma_same_after_last(before, k - 1);
        }
    }

    /// States with the same rounds have the same skippable rounds.
    pub proof fn lemma_same_first_unskippable(&self, before: &SimpleConsensus<C>, k: int)
        requires
            self.rounds == before.rounds,
        ensures
            self.first_unskippable(k) == before.first_unskippable(k),
        decreases self.rounds.len() - k,
    {
        if !(k >= self.rounds.len() || !self.spec_is_skippable_round(k)) {
            self.lemma_same_first_unskippable(before, k + 1);
        }
    }

    /// Whether the local validator is to vote to skip the round: the round can be
    /// started and has timed out, and the validator has not voted in it.
    pub open spec fn is_timed_out(&self, round_id: RoundId, now: Timestamp) -> bool {
        &&& self.active_validator is Some
        &&& round_id < u32::MAX
        &&& now.0 >= self.current_timeout.0
        &&& self.votes_at(round_id as int, true)[self.active_validator.unwrap().0.0 as int] is None
        &&& self.votes_at(round_id as int, false)[self.active_validator.unwrap().0.0 as int] is None
    }

    /// Whether `after` and `outcomes` are what the timer of the proposal timeout comes
    /// to when it fires at `now`: the current round is started, and if it has timed
    /// out and the local validator has not voted in it, the validator votes to skip
    /// it.
    pub open spec fn proposal_timeout_handled(
        &self,
        after: &SimpleConsensus<C>,
        outcomes: Seq<ProtocolOutcome>,
        now: Timestamp,
    ) -> bool {
        let round_id = self.spec_current_round();
        if self.is_timed_out(round_id, now) {
            let (our_idx, secret) = self.active_validator.unwrap();
            let signature = secret.spec_sign(
                spec_signed_hash::<C>(
                    round_id,
                    self.instance_id,
                    Content::Vote(false),
                    our_idx,
                ),
            );
            &&& after.holds(round_id as int, Content::Vote(false), our_idx)
            &&& outcomes.len() >= 1
            &&& effects(outcomes).last() == Effect::CreatedGossipMessage(
                spec_serialize(
                    self.signed_message(
                        round_id,
                        Content::Vote(false),
                        our_idx,
                        signature,
                    ),
                ),
            )
        } else {
            &&& outcomes.len() == 0
            &&& if round_id < u32::MAX {
                self.started(after, round_id as int)
            } else {
                *after == *self
            }
        }
    }

    /// Handles the timer of the proposal timeout: the current round is started, and
    /// if it has timed out and the local validator has not voted in it, the
    /// validator votes to skip it.
    pub fn handle_proposal_timeout(&mut self, now: Timestamp) -> (outcomes: Vec<ProtocolOutcome>)
        requires
            old(self).wf(),
        ensures
            final(self).wf(),
            old(self).extends(final(self)),
            old(self).grows(final(self)),
            old(self).proposal_timeout_handled(final(self), outcomes@, now),
    {
        proof {
            lemma_extends_refl(old(self));
            lemma_grows_refl(old(self));
        }
        let round_id = self.current_round();
        if round_id == u32::MAX {
            return Vec::new();
        }
        self.start_round(round_id);
        proof {
            old(self).lemma_started(self, round_id as int);
        }
        let ghost started = *self;
        let due = match &self.active_validator {
            Some((our_idx, _)) => now.0 >= self.current_timeout.0 && match self.round(round_id) {
                Some(round) => {
                    assert(self.rounds[round_id as int] is Some);
                    !round.has_voted(*our_idx)
                },
                None => false,
            },
            None => false,
        };
        if due {
            let outcomes = self.create_message(round_id, Content::Vote(false), now);
            proof {
                lemma_extends_trans(old(self), &started, self);
                lemma_grows_trans(old(self), &started, self);
            }
            return outcomes;
        }
        Vec::new()
    }

    /// Whether `outcomes` are what the timer for syncing with a random peer comes to
    /// when it fires at `now`: unless the era has ended, a random peer is sent a
    /// summary, and the timer is set again if an interval is configured.
    pub open spec fn sync_peer_timer_handled(&self, outcomes: Seq<ProtocolOutcome>, now: Timestamp) -> bool {
        &&& self.evidence_only || self.spec_finalized_switch_block() ==> outcomes.len() == 0
        &&& !(self.evidence_only || self.spec_finalized_switch_block()) ==> {
            &&& outcomes.len() == if self.config.request_state_interval is Some {
                2int
            } else {
                1int
            }
            &&& exists|first: ValidatorIndex, round_id: RoundId|
                {
                    &&& first.0 < self.weights.len()
                    &&& self.first_non_finalized_round_id <= round_id
                        <= self.spec_current_round() || round_id == self.spec_current_round()
                    &&& outcomes[0]@ == Effect::CreatedMessageToRandomPeer(
                        spec_serialize(#[trigger] self.spec_sync_state(first, round_id)),
                    )
                }
            &&& self.config.request_state_interval matches Some(interval) ==> outcomes[1]@
                == Effect::ScheduleTimer(now.plus(interval), TIMER_ID_SYNC_PEER)
        }
    }

    /// Handles the timer for syncing with a random peer: unless the era has ended, a
    /// random peer is sent a summary, and the timer is set again.
    pub fn handle_sync_peer_timer(&self, now: Timestamp) -> (outcomes: Vec<ProtocolOutcome>)
        requires
            self.wf_basic(),
        ensures
            self.sync_peer_timer_handled(outcomes@, now),
    {
        if self.evidence_only || self.finalized_switch_block() {
            // The era has ended: no further progress is expected.
            return Vec::new();
        }
        let mut outcomes = self.sync_request();
        match self.config.request_state_interval {
            Some(interval) => {
                outcomes.push(ProtocolOutcome::ScheduleTimer(now.plus(interval), TIMER_ID_SYNC_PEER));
            },
            None => {},
        }
        outcomes
    }

    /// Whether `outcomes` are what the timer for reporting the participation comes to
    /// when it fires at `now`: it is set again, unless the era has ended or no
    /// interval is configured.
    pub open spec fn log_participation_timer_handled(
        &self,
        outcomes: Seq<ProtocolOutcome>,
        now: Timestamp,
    ) -> bool {
        effects(outcomes) == match self.config.log_participation_interval {
            Some(interval) => if !self.evidence_only && !self.spec_finalized_switch_block() {
                seq![Effect::ScheduleTimer(now.plus(interval), TIMER_ID_LOG_PARTICIPATION)]
            } else {
                Seq::<Effect>::empty()
            },
            None => Seq::<Effect>::empty(),
        }
    }

    /// Handles the timer for reporting the participation of the validators: it is
    /// set again, unless the era has ended or no interval is configured.
    pub fn handle_log_participation_timer(&self, now: Timestamp) -> (outcomes: Vec<
        ProtocolOutcome,
    >)
        requires
            self.wf_basic(),
        ensures
            self.log_participation_timer_handled(outcomes@, now),
    {
        let mut outcomes: Vec<ProtocolOutcome> = Vec::new();
        assert(effects(outcomes@) =~= Seq::empty());
        match self.config.log_participation_interval {
            Some(interval) => {
                if !self.evidence_only && !self.finalized_switch_block() {
                    outcomes.push(
                        ProtocolOutcome::ScheduleTimer(
                            now.plus(interval),
                            TIMER_ID_LOG_PARTICIPATION,
                        ),
                    );
                    assert(effects(outcomes@) =~= seq![
                        Effect::ScheduleTimer(now.plus(interval), TIMER_ID_LOG_PARTICIPATION),
                    ]);
                }
            },
            None => {},
        }
        outcomes
    }

    /// Whether `after` and `outcomes` are what the timer comes to when it fires at
    /// `now`. A timer that the protocol does not know has no effect.
    pub open spec fn timer_handled(
        &self,
        after: &SimpleConsensus<C>,
        outcomes: Seq<ProtocolOutcome>,
        now: Timestamp,
        timer_id: TimerId,
    ) -> bool {
        if timer_id == TIMER_ID_ROUND {
            self.round_timer_handled(after, outcomes, now)
        } else if timer_id == TIMER_ID_SYNC_PEER {
            *after == *self && self.sync_peer_timer_handled(outcomes, now)
        } else if timer_id == TIMER_ID_PROPOSAL_TIMEOUT {
            self.proposal_timeout_handled(after, outcomes, now)
        } else if timer_id == TIMER_ID_LOG_PARTICIPATION {
            *after == *self && self.log_participation_timer_handled(outcomes, now)
        } else {
            *after == *self && outcomes.len() == 0
        }
    }

    /// Handles the firing of a timer. A timer that the protocol does not know has no
    /// effect.
    pub fn handle_timer(&mut self, now: Timestamp, timer_id: TimerId) -> (outcomes: Vec<
        ProtocolOutcome,
    >)
        requires
            old(self).wf(),
        ensures
            final(self).wf(),
            old(self).extends(final(self)),
            old(self).grows(final(self)),
            old(self).timer_handled(final(self), outcomes@, now, timer_id),
    {
        proof {
            lemma_extends_refl(old(self));
            lemma_grows_refl(old(self));
        }
        if timer_id == TIMER_ID_ROUND {
            self.handle_round_timer(now)
        } else if timer_id == TIMER_ID_SYNC_PEER {
            self.handle_sync_peer_timer(now)
        } else if timer_id == TIMER_ID_PROPOSAL_TIMEOUT {
            self.handle_proposal_timeout(now)
        } else if timer_id == TIMER_ID_LOG_PARTICIPATION {
            self.handle_log_participation_timer(now)
        } else {
            Vec::new()
        }
    }

    /// Asks a random peer for what this node lacks, and has the participation of
    /// the validators reported after the configured interval.
    pub fn handle_is_current(&self, now: Timestamp) -> (outcomes: Vec<ProtocolOutcome>)
        requires
            self.wf_basic(),
        ensures
            outcomes.len() == if self.config.log_participation_interval is Some {
                2int
            } else {
                1int
            },
            exists|first: ValidatorIndex, round_id: RoundId|
                {
                    &&& first.0 < self.weights.len()
                    &&& self.first_non_finalized_round_id <= round_id <= self.spec_current_round()
                        || round_id == self.spec_current_round()
                    &&& outcomes[0]@ == Effect::CreatedMessageToRandomPeer(
                        spec_serialize(#[trigger] self.spec_sync_state(first, round_id)),
                    )
                },
            self.config.log_participation_interval matches Some(interval) ==> outcomes[1]@
                == Effect::ScheduleTimer(
                now.max(self.params.start_timestamp).plus(interval),
                TIMER_ID_LOG_PARTICIPATION,
            ),
    {
        let mut outcomes = self.sync_request();
        match self.config.log_participation_interval {
            Some(interval) => {
                outcomes.push(
                    ProtocolOutcome::ScheduleTimer(
                        now.max(self.params.start_timestamp).plus(interval),
                        TIMER_ID_LOG_PARTICIPATION,
                    ),
                );
            },
            None => {},
        }
        outcomes
    }

    /// Handles an action. The protocol asks for none, so that none has an effect.
    pub fn handle_action(&mut self, action_id: u8, now: Timestamp) -> (outcomes: Vec<
        ProtocolOutcome,
    >)
        ensures
            outcomes.len() == 0,
            *final(self) == *old(self),
    {
        Vec::new()
    }

    /// Whether the block that was asked for can be proposed in the round: the round
    /// has been started and holds no proposal, and the local validator leads it.
    pub open spec fn can_propose_in(&self, round_id: RoundId) -> bool {
        &&& self.round_at(round_id as int) is Some
        &&& self.proposals_at(round_id as int).len() == 0
        &&& self.active_validator is Some
        &&& self.active_validator.unwrap().0 == self.spec_leader(round_id)
    }

    /// Proposes the block that the proposer has built on request: the local
    /// validator signs the proposal, and it is sent to all peers. Without a request,
    /// or if the round holds a proposal by now, nothing is proposed.
    pub fn propose(&mut self, proposed_block: ProposedBlock, now: Timestamp) -> (outcomes: Vec<
        ProtocolOutcome,
    >)
        requires
            old(self).wf(),
        ensures
            final(self).wf(),
            old(self).extends(final(self)),
            old(self).grows(final(self)),
            final(self).pending_proposal_round_ids is None,
            match old(self).pending_proposal_round_ids {
                Some((round_id, maybe_parent_round_id)) => {
                    if old(self).can_propose_in(round_id) {
                        let (our_idx, secret) = old(self).active_validator.unwrap();
                        let content = Content::Proposal(
                            Proposal {
                                timestamp: proposed_block.context.timestamp,
                                maybe_block: Some(proposed_block.value),
                                maybe_parent_round_id,
                            },
                        );
                        let signature = secret.spec_sign(
                            spec_signed_hash::<C>(round_id, old(self).instance_id, content, our_idx),
                        );
                        &&& final(self).holds(round_id as int, content, our_idx)
                        &&& outcomes.len() >= 1
                        &&& effects(outcomes@).last() == Effect::CreatedGossipMessage(
                            spec_serialize(
                                old(self).signed_message(round_id, content, our_idx, signature),
                            ),
                        )
                    } else {
                        &&& outcomes.len() == 0
                        &&& *final(self) == (SimpleConsensus {
                            pending_proposal_round_ids: None,
                            ..*old(self)
                        })
                    }
                },
                None => outcomes.len() == 0 && *final(self) == *old(self),
            },
    {
        proof {
            lemma_extends_refl(old(self));
            lemma_grows_refl(old(self));
        }
        let (proposal_round_id, maybe_parent_round_id) = match self.pending_proposal_round_ids {
            Some(pending) => pending,
            None => {
                // No block was asked for.
                return Vec::new();
            },
        };
        self.pending_proposal_round_ids = None;
        proof {
            assert(old(self).extends(self));
            assert(old(self).grows(self));
            lemma_extends_wf(old(self), self);
        }
        let ghost taken = *self;
        let empty = match self.round(proposal_round_id) {
            Some(round) => round.proposals.len() == 0,
            None => false,
        };
        let ours = match &self.active_validator {
            Some((our_idx, _)) => *our_idx == self.leader(proposal_round_id),
            None => false,
        };
        if empty && ours {
            let content = Content::Proposal(
                Proposal {
                    timestamp: proposed_block.context.timestamp,
                    maybe_block: Some(proposed_block.value),
                    maybe_parent_round_id,
                },
            );
            let outcomes = self.create_message(proposal_round_id, content, now);
            proof {
                lemma_extends_trans(old(self), &taken, self);
                lemma_grows_trans(old(self), &taken, self);
            }
            outcomes
        } else {
            // The round holds a proposal already.
            Vec::new()
        }
    }

    /// If the identity is that of a validator of the era, this node acts as that
    /// validator from now on, and the first round is started.
    pub fn activate_validator(&mut self, our_id: ValidatorId, secret: C::ValidatorSecret, now: Timestamp) -> (outcomes:
        Vec<ProtocolOutcome>)
        requires
            old(self).wf(),
        ensures
            final(self).wf(),
            old(self).extends(final(self)),
            old(self).grows(final(self)),
            match old(self).spec_get_index(our_id) {
                Some(our_idx) => {
                    &&& *final(self) == (SimpleConsensus {
                        active_validator: Some((our_idx, secret)),
                        ..*old(self)
                    })
                    &&& effects(outcomes@) == seq![
                        Effect::ScheduleTimer(
                            now.max(old(self).params.start_timestamp),
                            TIMER_ID_ROUND,
                        ),
                    ]
                },
                None => outcomes.len() == 0 && *final(self) == *old(self),
            },
    {
        proof {
            lemma_extends_refl(old(self));
            lemma_grows_refl(old(self));
        }
        match self.get_index(our_id) {
            Some(our_idx) => {
                self.active_validator = Some((our_idx, secret));
                proof {
                    assert(old(self).extends(self));
                    assert(old(self).grows(self));
                    lemma_extends_wf(old(self), self);
                }
                let mut outcomes: Vec<ProtocolOutcome> = Vec::new();
                outcomes.push(
                    ProtocolOutcome::ScheduleTimer(
                        now.max(self.params.start_timestamp),
                        TIMER_ID_ROUND,
                    ),
                );
                assert(effects(outcomes@) =~= seq![
                    Effect::ScheduleTimer(now.max(old(self).params.start_timestamp), TIMER_ID_ROUND),
                ]);
                outcomes
            },
            None => {
                // This node is no validator in this era.
                Vec::new()
            },
        }
    }

    /// This node acts as no validator from now on.
    pub fn deactivate_validator(&mut self)
        requires
            old(self).wf(),
        ensures
            final(self).wf(),
            *final(self) == (SimpleConsensus { active_validator: None, ..*old(self) }),
    {
        self.active_validator = None;
        proof {
            assert(old(self).extends(self));
            lemma_extends_wf(old(self), self);
        }
    }

    /// Keeps the era for its evidence only: the rounds and the proposals that wait
    /// are dropped.
    pub fn set_evidence_only(&mut self)
        requires
            old(self).wf(),
        ensures
            final(self).wf(),
            final(self).evidence_only,
            final(self).rounds.len() == 0,
            final(self).proposals_waiting_for_parent.len() == 0,
            final(self).proposals_waiting_for_validation.len() == 0,
            *final(self) == (SimpleConsensus {
                evidence_only: true,
                rounds: final(self).rounds,
                proposals_waiting_for_parent: final(self).proposals_waiting_for_parent,
                proposals_waiting_for_validation: final(self).proposals_waiting_for_validation,
                ..*old(self)
            }),
    {
        self.evidence_only = true;
        self.rounds.clear();
        self.proposals_waiting_for_parent.clear();
        self.proposals_waiting_for_validation.clear();
    }

    /// Returns whether this era holds direct evidence against the validator.
    pub fn has_evidence(&self, vid: ValidatorId) -> (res: bool)
        requires
            self.wf_basic(),
        ensures
            res == match self.spec_get_index(vid) {
                Some(index) => is_direct_at(self.faults@, index.0 as int),
                None => false,
            },
    {
        match self.get_index(vid) {
            Some(index) => match self.faults[index.0 as usize] {
                Some(fault) => fault.is_direct(),
                None => false,
            },
            None => false,
        }
    }

    /// Counts the validator as faulty by evidence that another era holds, unless it
    /// is counted as faulty already.
    pub fn mark_faulty(&mut self, vid: ValidatorId)
        requires
            old(self).wf(),
        ensures
            final(self).wf(),
            old(self).extends(final(self)),
            *final(self) == (SimpleConsensus { faults: final(self).faults, ..*old(self) }),
            final(self).faults@ == match old(self).spec_get_index(vid) {
                Some(index) => if old(self).faults[index.0 as int] is None {
                    old(self).faults@.update(index.0 as int, Some(Fault::Indirect))
                } else {
                    old(self).faults@
                },
                None => old(self).faults@,
            },
    {
        proof {
            lemma_extends_refl(old(self));
        }
        match self.get_index(vid) {
            Some(index) => {
                if self.faults[index.0 as usize].is_none() {
                    self.faults[index.0 as usize] = Some(Fault::Indirect);
                    proof {
                        assert(old(self).extends(self));
                        lemma_faults_grow_quorums(old(self), self);
                        lemma_extends_wf(old(self), self);
                    }
                }
            },
            None => {},
        }
    }

    /// Creates the summary to send to the peer.
    fn targeted_sync_request(&self, peer: NodeId) -> (outcomes: Vec<ProtocolOutcome>)
        requires
            self.wf_basic(),
        ensures
            outcomes.len() == 1,
            exists|first: ValidatorIndex, round_id: RoundId|
                {
                    &&& first.0 < self.weights.len()
                    &&& self.first_non_finalized_round_id <= round_id <= self.spec_current_round()
                        || round_id == self.spec_current_round()
                    &&& outcomes[0]@ == Effect::CreatedTargetedMessage(
                        spec_serialize(#[trigger] self.spec_sync_state(first, round_id)),
                        peer,
                    )
                },
    {
        let payload = self.create_sync_state_message().serialize();
        let mut outcomes: Vec<ProtocolOutcome> = Vec::new();
        outcomes.push(ProtocolOutcome::CreatedTargetedMessage(payload, peer));
        outcomes
    }

    /// Asks the peer for the evidence against the validator, by sending it a summary
    /// that makes it send what this node lacks.
    pub fn request_evidence(&self, peer: NodeId, vid: ValidatorId) -> (outcomes: Vec<
        ProtocolOutcome,
    >)
        requires
            self.wf_basic(),
        ensures
            self.spec_get_index(vid) is None ==> outcomes.len() == 0,
            self.spec_get_index(vid) is Some ==> outcomes.len() == 1 && exists|
                first: ValidatorIndex,
                round_id: RoundId,
            |
                {
                    &&& first.0 < self.weights.len()
                    &&& self.first_non_finalized_round_id <= round_id <= self.spec_current_round()
                        || round_id == self.spec_current_round()
                    &&& outcomes[0]@ == Effect::CreatedTargetedMessage(
                        spec_serialize(#[trigger] self.spec_sync_state(first, round_id)),
                        peer,
                    )
                },
    {
        let known = self.get_index(vid).is_some();
        if known {
            self.targeted_sync_request(peer)
        } else {
            // The validator is unknown.
            Vec::new()
        }
    }

    /// Pausing has no effect on this protocol.
    pub fn set_paused(&mut self, paused: bool)
        ensures
            *final(self) == *old(self),
    {
    }

    /// The identities of the validators among the first `k` against which this era
    /// holds direct evidence, in the order of the validators.
    pub open spec fn evidence_upto(&self, k: int) -> Seq<ValidatorId>
        decreases k,
    {
        if k <= 0 {
            Seq::empty()
        } else if is_direct_at(self.faults@, k - 1) {
            self.evidence_upto(k - 1).push(self.validators[k - 1].id)
        } else {
            self.evidence_upto(k - 1)
        }
    }

    /// Returns the identities of the validators against which this era holds direct
    /// evidence.
    pub fn validators_with_evidence(&self) -> (ids: Vec<ValidatorId>)
        requires
            self.wf_basic(),
        ensures
            ids@ == self.evidence_upto(self.faults.len() as int),
    {
        let mut ids: Vec<ValidatorId> = Vec::new();
        let mut i: usize = 0;
        while i < self.faults.len()
            invariant
                i <= self.faults.len(),
                self.validators.len() == self.faults.len(),
                ids@ == self.evidence_upto(i as int),
            decreases self.faults.len() - i,
        {
            match self.faults[i] {
                Some(Fault::Direct(_, _)) => {
                    ids.push(self.validators[i].id);
                },
                _ => {},
            }
            i += 1;
        }
        ids
    }

    /// Returns whether this node acts as a validator.
    pub fn is_active(&self) -> (res: bool)
        ensures
            res == self.active_validator is Some,
    {
        self.active_validator.is_some()
    }

    /// Returns the instance that this state belongs to.
    pub fn instance_id(&self) -> (instance_id: InstanceId)
        ensures
            instance_id == self.instance_id,
    {
        self.instance_id
    }

    /// Returns the length of the next round: the shortest there is.
    pub fn next_round_length(&self) -> (length: Option<TimeDiff>)
        ensures
            length == Some(self.params.min_round_length),
    {
        Some(self.params.min_round_length)
    }
}

} // verus!

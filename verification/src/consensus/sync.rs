//! Reconciliation with a peer by summaries of constant size.
//!
//! A summary tells, for one round and a window of at most 128 validators, whose
//! signatures the sender has. The receiver answers with the signatures in the window
//! that it has and the sender lacks.

use vstd::prelude::*;
use crate::consensus::bitfield::{
    has_bit, iter_validator_bit_field, lemma_bit_field_bits, lemma_bit_members, lemma_missing_bits,
    present, spec_bit_field, spec_bit_members, validator_bit_field, window_member,
};
use crate::consensus::context::Context;
use crate::consensus::random::{random_below, random_between};
use crate::consensus::round::Round;
use crate::consensus::state::{Fault, SimpleConsensus};
use crate::consensus::types::{
    effects, Content, Digest, Effect, Message, NodeId, ProtocolOutcome, RoundId, Signature,
    ValidatorIndex, Weight,
};
use crate::consensus::weights::weight_of;
use crate::consensus::wire::spec_serialize;

verus! {

/// The validators in the window at `first` for which `map` holds a value and whose
/// bit is not set in `theirs`, in the order of the window.
pub open spec fn spec_missing<T>(map: Seq<Option<T>>, first: int, theirs: u128) -> Seq<
    ValidatorIndex,
> {
    spec_bit_members(
        spec_bit_field(present(map), first, map.len() as int) & !theirs,
        first,
        map.len() as int,
    )
}

/// What a peer lacks is what is delivered, and nothing else: a validator is among
/// the missing exactly if it lies in the window, the map holds a value for it, and
/// the bit of the peer for its place in the window is not set.
pub proof fn lemma_missing_is_exact<T>(map: Seq<Option<T>>, first: int, theirs: u128)
    requires
        0 <= first < map.len() <= u32::MAX,
    ensures
        forall|v: ValidatorIndex|
            #![trigger spec_missing(map, first, theirs).contains(v)]
            spec_missing(map, first, theirs).contains(v) <==> exists|i: int|
                0 <= i < 128 && i < map.len() && v.0 == #[trigger] window_member(
                    first,
                    map.len() as int,
                    i,
                ) && map[v.0 as int] is Some && !has_bit(theirs, i),
        forall|k: int|
            0 <= k < spec_missing(map, first, theirs).len() ==> (#[trigger] spec_missing(
                map,
                first,
                theirs,
            )[k]).0 < map.len() && map[spec_missing(map, first, theirs)[k].0 as int] is Some,
{
    let count = map.len() as int;
    let ours = spec_bit_field(present(map), first, count);
    let missing = ours & !theirs;
    lemma_bit_field_bits(present(map), first, count, 128);
    lemma_missing_bits(ours, theirs);
    lemma_bit_members(missing, first, count, 128);
    let members = spec_missing(map, first, theirs);
    assert forall|v: ValidatorIndex| #![trigger members.contains(v)] members.contains(v)
        <==> exists|i: int|
        0 <= i < 128 && i < count && v.0 == #[trigger] window_member(first, count, i)
            && map[v.0 as int] is Some && !has_bit(theirs, i) by {
        if members.contains(v) {
            let i = choose|i: int|
                0 <= i < 128 && #[trigger] has_bit(missing, i) && v.0 == window_member(
                    first,
                    count,
                    i,
                );
            assert(has_bit(ours, i) && !has_bit(theirs, i));
            assert(present(map).contains(window_member(first, count, i)));
        }
        if exists|i: int|
            0 <= i < 128 && i < count && v.0 == #[trigger] window_member(first, count, i)
                && map[v.0 as int] is Some && !has_bit(theirs, i) {
            let i = choose|i: int|
                0 <= i < 128 && i < count && v.0 == #[trigger] window_member(first, count, i)
                    && map[v.0 as int] is Some && !has_bit(theirs, i);
            assert(present(map).contains(window_member(first, count, i)));
            assert(has_bit(ours, i));
            assert(has_bit(missing, i));
        }
    }
    assert forall|k: int| 0 <= k < members.len() implies (#[trigger] members[k]).0 < map.len()
        && map[members[k].0 as int] is Some by {
        assert(members.contains(members[k]));
    }
}

impl<C: Context> SimpleConsensus<C> {
    /// The effect of sending a peer a content with the signature of a validator.
    pub open spec fn signed_effect(
        &self,
        round_id: RoundId,
        content: Content,
        validator_idx: ValidatorIndex,
        signature: Signature,
        peer: NodeId,
    ) -> Effect {
        Effect::CreatedTargetedMessage(
            spec_serialize(
                Message::Signed {
                    round_id,
                    instance_id: self.instance_id,
                    content,
                    validator_idx,
                    signature,
                },
            ),
            peer,
        )
    }

    /// The effects of sending a peer the content with the signature of each of the
    /// first `k` validators in `members` for which `map` holds a signature.
    pub open spec fn signed_effects(
        &self,
        round_id: RoundId,
        content: Content,
        members: Seq<ValidatorIndex>,
        map: Seq<Option<Signature>>,
        peer: NodeId,
        k: int,
    ) -> Seq<Effect>
        decreases k,
    {
        if k <= 0 {
            Seq::empty()
        } else {
            let earlier = self.signed_effects(round_id, content, members, map, peer, k - 1);
            let v = members[k - 1];
            if v.0 < map.len() && map[v.0 as int] is Some {
                earlier.push(
                    self.signed_effect(round_id, content, v, map[v.0 as int].unwrap(), peer),
                )
            } else {
                earlier
            }
        }
    }

    /// The effects of sending a peer what is held against each of the first `k`
    /// validators in `members`: the two messages of direct evidence, or the request
    /// to send the evidence that another era holds. Against a banned validator
    /// nothing is held.
    pub open spec fn fault_effects(&self, members: Seq<ValidatorIndex>, peer: NodeId, k: int) -> Seq<
        Effect,
    >
        decreases k,
    {
        if k <= 0 {
            Seq::empty()
        } else {
            let earlier = self.fault_effects(members, peer, k - 1);
            let v = members[k - 1];
            if v.0 < self.faults.len() {
                match self.faults[v.0 as int] {
                    Some(Fault::Direct(msg0, msg1)) => earlier.push(
                        Effect::CreatedTargetedMessage(spec_serialize(msg0), peer),
                    ).push(Effect::CreatedTargetedMessage(spec_serialize(msg1), peer)),
                    Some(Fault::Indirect) => earlier.push(
                        Effect::SendEvidence(peer, self.validators[v.0 as int].id),
                    ),
                    _ => earlier,
                }
            } else {
                earlier
            }
        }
    }

    /// The answer to the summary of a peer: the effects of sending it what it lacks.
    ///
    /// If the peer names a hash, it is sent the echoes of that hash that it lacks,
    /// and the proposal unless it has it. If it names none and a quorum has echoed a
    /// hash here, it is sent the echoes of that hash that it lacks. Then come the
    /// votes to commit and the votes to skip that it lacks, and last what is held
    /// against the faulty validators that it does not know. Nothing is sent if the
    /// round has not been started or if the window does not start at a validator.
    pub open spec fn spec_handle_sync_state(
        &self,
        round_id: RoundId,
        proposal_hash: Option<Digest>,
        has_proposal: bool,
        first_validator_idx: ValidatorIndex,
        echos: u128,
        true_votes: u128,
        false_votes: u128,
        faulty: u128,
        sender: NodeId,
    ) -> Seq<Effect> {
        let first = first_validator_idx.0 as int;
        match self.round_at(round_id as int) {
            None => Seq::empty(),
            Some(round) => if first_validator_idx.0 >= self.weights.len() {
                Seq::empty()
            } else {
                let echo_part = match proposal_hash {
                    Some(hash) => {
                        let map = round.echo_signatures(hash);
                        let missing = spec_missing(map, first, echos);
                        let echoes = if round.has_echos(hash) {
                            self.signed_effects(
                                round_id,
                                Content::Echo(hash),
                                missing,
                                map,
                                sender,
                                missing.len() as int,
                            )
                        } else {
                            Seq::empty()
                        };
                        if !has_proposal && round.has_proposal(hash) {
                            let stored = round.proposal(hash).unwrap();
                            echoes.push(
                                self.signed_effect(
                                    round_id,
                                    Content::Proposal(stored.proposal),
                                    self.spec_leader(round_id),
                                    stored.signature,
                                    sender,
                                ),
                            )
                        } else {
                            echoes
                        }
                    },
                    None => match round.outcome.quorum_echos {
                        Some(hash) => {
                            let map = round.echo_signatures(hash);
                            let missing = spec_missing(map, first, echos);
                            if round.has_echos(hash) {
                                self.signed_effects(
                                    round_id,
                                    Content::Echo(hash),
                                    missing,
                                    map,
                                    sender,
                                    missing.len() as int,
                                )
                            } else {
                                Seq::empty()
                            }
                        },
                        None => Seq::empty(),
                    },
                };
                let missing_true = spec_missing(round.votes_true@, first, true_votes);
                let missing_false = spec_missing(round.votes_false@, first, false_votes);
                let missing_faulty = spec_missing(self.faults@, first, faulty);
                echo_part + self.signed_effects(
                    round_id,
                    Content::Vote(true),
                    missing_true,
                    round.votes_true@,
                    sender,
                    missing_true.len() as int,
                ) + self.signed_effects(
                    round_id,
                    Content::Vote(false),
                    missing_false,
                    round.votes_false@,
                    sender,
                    missing_false.len() as int,
                ) + self.fault_effects(missing_faulty, sender, missing_faulty.len() as int)
            },
        }
    }

    /// Adds to `outcomes` the effects of sending the peer the content with the
    /// signature of each validator in `members` for which `map` holds one.
    fn push_signed(
        &self,
        outcomes: &mut Vec<ProtocolOutcome>,
        round_id: RoundId,
        content: Content,
        members: &Vec<ValidatorIndex>,
        map: &Vec<Option<Signature>>,
        peer: NodeId,
    )
        ensures
            effects(final(outcomes)@) == effects(old(outcomes)@) + self.signed_effects(
                round_id,
                content,
                members@,
                map@,
                peer,
                members.len() as int,
            ),
    {
        let mut k: usize = 0;
        assert(effects(outcomes@) =~= effects(old(outcomes)@) + self.signed_effects(
            round_id,
            content,
            members@,
            map@,
            peer,
            0,
        ));
        while k < members.len()
            invariant
                k <= members.len(),
                effects(outcomes@) == effects(old(outcomes)@) + self.signed_effects(
                    round_id,
                    content,
                    members@,
                    map@,
                    peer,
                    k as int,
                ),
            decreases members.len() - k,
        {
            let v = members[k];
            let ghost earlier = effects(outcomes@);
            if (v.0 as usize) < map.len() {
                match map[v.0 as usize] {
                    Some(signature) => {
                        let message = Message::Signed {
                            round_id,
                            instance_id: self.instance_id,
                            content,
                            validator_idx: v,
                            signature,
                        };
                        outcomes.push(
                            ProtocolOutcome::CreatedTargetedMessage(message.serialize(), peer),
                        );
                        assert(effects(outcomes@) =~= earlier.push(
                            self.signed_effect(round_id, content, v, signature, peer),
                        ));
                    },
                    None => {},
                }
            }
            k += 1;
            assert(effects(outcomes@) =~= effects(old(outcomes)@) + self.signed_effects(
                round_id,
                content,
                members@,
                map@,
                peer,
                k as int,
            ));
        }
    }

    /// Adds to `outcomes` the effects of sending the peer what is held against each
    /// validator in `members`.
    fn push_faults(&self, outcomes: &mut Vec<ProtocolOutcome>, members: &Vec<ValidatorIndex>, peer: NodeId)
        requires
            self.validators.len() == self.faults.len(),
        ensures
            effects(final(outcomes)@) == effects(old(outcomes)@) + self.fault_effects(
                members@,
                peer,
                members.len() as int,
            ),
    {
        let mut k: usize = 0;
        assert(effects(outcomes@) =~= effects(old(outcomes)@) + self.fault_effects(
            members@,
            peer,
            0,
        ));
        while k < members.len()
            invariant
                k <= members.len(),
                self.validators.len() == self.faults.len(),
                effects(outcomes@) == effects(old(outcomes)@) + self.fault_effects(
                    members@,
                    peer,
                    k as int,
                ),
            decreases members.len() - k,
        {
            let v = members[k];
            let ghost earlier = effects(outcomes@);
            if (v.0 as usize) < self.faults.len() {
                match self.faults[v.0 as usize] {
                    Some(Fault::Direct(msg0, msg1)) => {
                        outcomes.push(
                            ProtocolOutcome::CreatedTargetedMessage(msg0.serialize(), peer),
                        );
                        outcomes.push(
                            ProtocolOutcome::CreatedTargetedMessage(msg1.serialize(), peer),
                        );
                        assert(effects(outcomes@) =~= earlier.push(
                            Effect::CreatedTargetedMessage(spec_serialize(msg0), peer),
                        ).push(Effect::CreatedTargetedMessage(spec_serialize(msg1), peer)));
                    },
                    Some(Fault::Indirect) => {
                        outcomes.push(
                            ProtocolOutcome::SendEvidence(peer, self.validators[v.0 as usize].id),
                        );
                        assert(effects(outcomes@) =~= earlier.push(
                            Effect::SendEvidence(peer, self.validators[v.0 as int].id),
                        ));
                    },
                    // The peer disagrees about a banned validator: there is
                    // nothing to send.
                    _ => {},
                }
            }
            k += 1;
            assert(effects(outcomes@) =~= effects(old(outcomes)@) + self.fault_effects(
                members@,
                peer,
                k as int,
            ));
        }
    }

    /// The validators in the window at `first` for which `map` holds a value and
    /// whose bit is not set in `theirs`.
    fn missing<T>(first: ValidatorIndex, map: &Vec<Option<T>>, theirs: u128) -> (members: Vec<
        ValidatorIndex,
    >)
        requires
            first.0 < map.len() <= u32::MAX,
        ensures
            members@ == spec_missing(map@, first.0 as int, theirs),
    {
        let ours = validator_bit_field(first, map);
        iter_validator_bit_field(first, map.len() as u32, ours & !theirs)
    }

    /// Answers the summary of a peer with what the peer lacks: the difference between
    /// what is known here and what the summary tells, within the window of the
    /// summary.
    pub fn handle_sync_state(
        &self,
        round_id: RoundId,
        proposal_hash: Option<Digest>,
        has_proposal: bool,
        first_validator_idx: ValidatorIndex,
        echos: u128,
        true_votes: u128,
        false_votes: u128,
        faulty: u128,
        sender: NodeId,
    ) -> (outcomes: Vec<ProtocolOutcome>)
        requires
            self.wf_basic(),
        ensures
            effects(outcomes@) == self.spec_handle_sync_state(
                round_id,
                proposal_hash,
                has_proposal,
                first_validator_idx,
                echos,
                true_votes,
                false_votes,
                faulty,
                sender,
            ),
    {
        let mut outcomes: Vec<ProtocolOutcome> = Vec::new();
        let round = match self.round(round_id) {
            Some(round) => round,
            None => {
                assert(effects(outcomes@) =~= Seq::empty());
                return outcomes;
            },
        };
        assert(self.rounds[round_id as int] is Some);
        if first_validator_idx.0 as usize >= self.weights.len() {
            assert(effects(outcomes@) =~= Seq::empty());
            return outcomes;
        }
        assert(effects(outcomes@) =~= Seq::empty());
        match proposal_hash {
            Some(hash) => {
                match round.echo_map(hash) {
                    Some(map) => {
                        let missing = Self::missing(first_validator_idx, map, echos);
                        self.push_signed(
                            &mut outcomes,
                            round_id,
                            Content::Echo(hash),
                            &missing,
                            map,
                            sender,
                        );
                    },
                    None => {},
                }
                if !has_proposal {
                    match round.find_proposal(hash) {
                        Some(i) => {
                            proof {
                                round.lemma_proposal_position(self.count(), i as int);
                            }
                            let ghost earlier = effects(outcomes@);
                            let stored = round.proposals[i];
                            let message = Message::Signed {
                                round_id,
                                instance_id: self.instance_id,
                                content: Content::Proposal(stored.proposal),
                                validator_idx: self.leader(round_id),
                                signature: stored.signature,
                            };
                            outcomes.push(
                                ProtocolOutcome::CreatedTargetedMessage(message.serialize(), sender),
                            );
                            assert(effects(outcomes@) =~= earlier.push(
                                self.signed_effect(
                                    round_id,
                                    Content::Proposal(stored.proposal),
                                    self.spec_leader(round_id),
                                    stored.signature,
                                    sender,
                                ),
                            ));
                        },
                        None => {},
                    }
                }
            },
            None => match round.outcome.quorum_echos {
                Some(hash) => match round.echo_map(hash) {
                    Some(map) => {
                        let missing = Self::missing(first_validator_idx, map, echos);
                        self.push_signed(
                            &mut outcomes,
                            round_id,
                            Content::Echo(hash),
                            &missing,
                            map,
                            sender,
                        );
                    },
                    None => {},
                },
                None => {},
            },
        }
        let ghost echo_part = effects(outcomes@);
        let missing_true = Self::missing(first_validator_idx, &round.votes_true, true_votes);
        self.push_signed(
            &mut outcomes,
            round_id,
            Content::Vote(true),
            &missing_true,
            &round.votes_true,
            sender,
        );
        let missing_false = Self::missing(first_validator_idx, &round.votes_false, false_votes);
        self.push_signed(
            &mut outcomes,
            round_id,
            Content::Vote(false),
            &missing_false,
            &round.votes_false,
            sender,
        );
        let missing_faulty = Self::missing(first_validator_idx, &self.faults, faulty);
        self.push_faults(&mut outcomes, &missing_faulty, sender);
        outcomes
    }

}

/// The position of the echo set of greatest weight among the first `k` of a round,
/// the first such if there are several; none among none.
pub open spec fn heaviest_upto(
    weights: Seq<Weight>,
    round: Round,
    k: int,
) -> Option<int>
    decreases k,
{
    if k <= 0 {
        None
    } else {
        match heaviest_upto(weights, round, k - 1) {
            None => Some(k - 1),
            Some(best) => if weight_of(weights, present(round.echos[k - 1].signatures@))
                > weight_of(weights, present(round.echos[best].signatures@)) {
                Some(k - 1)
            } else {
                Some(best)
            },
        }
    }
}

impl<C: Context> SimpleConsensus<C> {
    /// The hash to speak of in a summary of the round: the one that a quorum has
    /// echoed, or else the one whose echoes weigh most.
    pub open spec fn dominant_echo(&self, round: Round) -> Option<Digest> {
        match round.outcome.quorum_echos {
            Some(hash) => Some(hash),
            None => match heaviest_upto(self.weights@, round, round.echos.len() as int) {
                Some(best) => Some(round.echos[best].hash),
                None => None,
            },
        }
    }

    /// The summary of the round for the window that starts at the validator.
    pub open spec fn spec_sync_state(
        &self,
        first_validator_idx: ValidatorIndex,
        round_id: RoundId,
    ) -> Message {
        let first = first_validator_idx.0 as int;
        let count = self.weights.len() as int;
        let faulty = spec_bit_field(present(self.faults@), first, count);
        match self.round_at(round_id as int) {
            None => Message::SyncState {
                round_id,
                proposal_hash: None,
                proposal: false,
                first_validator_idx,
                echos: 0,
                true_votes: 0,
                false_votes: 0,
                faulty,
                instance_id: self.instance_id,
            },
            Some(round) => {
                let proposal_hash = self.dominant_echo(round);
                Message::SyncState {
                    round_id,
                    proposal_hash,
                    proposal: match proposal_hash {
                        Some(hash) => round.has_proposal(hash),
                        None => false,
                    },
                    first_validator_idx,
                    echos: match proposal_hash {
                        Some(hash) => if round.has_echos(hash) {
                            spec_bit_field(present(round.echo_signatures(hash)), first, count)
                        } else {
                            0
                        },
                        None => 0,
                    },
                    true_votes: spec_bit_field(present(round.votes_true@), first, count),
                    false_votes: spec_bit_field(present(round.votes_false@), first, count),
                    faulty,
                    instance_id: self.instance_id,
                }
            },
        }
    }

    /// Finds the hash whose echoes weigh most in the round.
    fn heaviest_echo(&self, round: &Round) -> (res: Option<Digest>)
        requires
            self.wf_basic(),
            round.wf(self.count()),
        ensures
            res == match heaviest_upto(self.weights@, *round, round.echos.len() as int) {
                Some(best) => Some(round.echos[best].hash),
                None => None,
            },
    {
        let mut best: Option<(usize, u64)> = None;
        let mut k: usize = 0;
        while k < round.echos.len()
            invariant
                k <= round.echos.len(),
                self.wf_basic(),
                round.wf(self.count()),
                match best {
                    Some((position, weight)) => heaviest_upto(self.weights@, *round, k as int)
                        == Some(position as int) && position < k && weight == weight_of(
                        self.weights@,
                        present(round.echos[position as int].signatures@),
                    ),
                    None => heaviest_upto(self.weights@, *round, k as int) is None,
                },
            decreases round.echos.len() - k,
        {
            let weight = self.sum_weights(&round.echos[k].signatures);
            best = match best {
                None => Some((k, weight)),
                Some((position, heaviest)) => if weight > heaviest {
                    Some((k, weight))
                } else {
                    Some((position, heaviest))
                },
            };
            k += 1;
        }
        match best {
            Some((position, _)) => Some(round.echos[position].hash),
            None => None,
        }
    }

    /// Returns the summary of the round for the window that starts at the validator.
    pub fn sync_state(&self, first_validator_idx: ValidatorIndex, round_id: RoundId) -> (message:
        Message)
        requires
            self.wf_basic(),
            first_validator_idx.0 < self.weights.len(),
        ensures
            message == self.spec_sync_state(first_validator_idx, round_id),
    {
        let faulty = validator_bit_field(first_validator_idx, &self.faults);
        let round = match self.round(round_id) {
            Some(round) => round,
            None => {
                return Message::new_empty_round_sync_state(
                    round_id,
                    first_validator_idx,
                    faulty,
                    self.instance_id,
                );
            },
        };
        assert(self.rounds[round_id as int] is Some);
        let true_votes = validator_bit_field(first_validator_idx, &round.votes_true);
        let false_votes = validator_bit_field(first_validator_idx, &round.votes_false);
        let proposal_hash = match round.outcome.quorum_echos {
            Some(hash) => Some(hash),
            None => self.heaviest_echo(round),
        };
        let mut echos: u128 = 0;
        let mut proposal = false;
        match proposal_hash {
            Some(hash) => {
                match round.echo_map(hash) {
                    Some(map) => {
                        echos = validator_bit_field(first_validator_idx, map);
                    },
                    None => {},
                }
                proposal = round.find_proposal(hash).is_some();
            },
            None => {},
        }
        Message::SyncState {
            round_id,
            proposal_hash,
            proposal,
            first_validator_idx,
            echos,
            true_votes,
            false_votes,
            faulty,
            instance_id: self.instance_id,
        }
    }

    /// Creates the summary of a round chosen at random among those from the first
    /// that is not finalized to the current one, for a window that starts at a
    /// validator chosen at random.
    pub fn create_sync_state_message(&self) -> (message: Message)
        requires
            self.wf_basic(),
        ensures
            exists|first: ValidatorIndex, round_id: RoundId|
                {
                    &&& first.0 < self.weights.len()
                    &&& self.first_non_finalized_round_id <= round_id <= self.spec_current_round()
                        || round_id == self.spec_current_round()
                    &&& message == #[trigger] self.spec_sync_state(first, round_id)
                },
    {
        let first_validator_idx = ValidatorIndex(random_below(self.weights.len() as u32));
        let current_round = self.current_round();
        let round_id = match random_between(self.first_non_finalized_round_id, current_round) {
            Some(round_id) => round_id,
            None => current_round,
        };
        self.sync_state(first_validator_idx, round_id)
    }

    /// Creates the request to a random peer to send what this node lacks.
    pub fn sync_request(&self) -> (outcomes: Vec<ProtocolOutcome>)
        requires
            self.wf_basic(),
        ensures
            outcomes.len() == 1,
            exists|first: ValidatorIndex, round_id: RoundId|
                {
                    &&& first.0 < self.weights.len()
                    &&& self.first_non_finalized_round_id <= round_id <= self.spec_current_round()
                        || round_id == self.spec_current_round()
                    &&& outcomes[0]@ == Effect::CreatedMessageToRandomPeer(
                        spec_serialize(#[trigger] self.spec_sync_state(first, round_id)),
                    )
                },
    {
        let payload = self.create_sync_state_message().serialize();
        let mut outcomes: Vec<ProtocolOutcome> = Vec::new();
        outcomes.push(ProtocolOutcome::CreatedMessageToRandomPeer(payload));
        outcomes
    }
}

} // verus!

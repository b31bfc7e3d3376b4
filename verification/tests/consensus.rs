use bft_core::consensus::bitfield::{iter_validator_bit_field, validator_bit_field};
use bft_core::consensus::context::{Context, ValidatorSecret};
use bft_core::consensus::leader::LeaderSequence;
use bft_core::consensus::participation::{sort_participants, ParticipationStatus};
use bft_core::consensus::state::{Config, Fault, Params, SimpleConsensus, Validator};
use bft_core::consensus::types::{
    BlockContext, Content, FinalizedBlock, Message, MessageError, Proposal, ProposedBlock,
    ProtocolOutcome, TimeDiff, Timestamp, ValidatorIndex, TIMER_ID_LOG_PARTICIPATION,
    TIMER_ID_PROPOSAL_TIMEOUT, TIMER_ID_ROUND, TIMER_ID_SYNC_PEER,
};
use bft_core::consensus::wire::signed_hash;

const INSTANCE: u64 = 7;
const PEER: u64 = 99;
const NOW: Timestamp = Timestamp(1_000);

struct TestContext;

struct TestSecret(u64);

fn secret_of(validator_id: u64) -> u64 {
    validator_id.wrapping_mul(0x9e37_79b9_7f4a_7c15).wrapping_add(1)
}

impl ValidatorSecret for TestSecret {
    fn sign(&self, hash: u64) -> u64 {
        hash.rotate_left(17) ^ self.0
    }
}

impl Context for TestContext {
    type ValidatorSecret = TestSecret;

    fn hash(data: &Vec<u8>) -> u64 {
        let mut hash: u64 = 0xcbf2_9ce4_8422_2325;
        for byte in data {
            hash ^= u64::from(*byte);
            hash = hash.wrapping_mul(0x100_0000_01b3);
        }
        hash
    }

    fn verify_signature(hash: u64, validator: u64, signature: u64) -> bool {
        signature == hash.rotate_left(17) ^ secret_of(validator)
    }

    fn needs_validation(value: u64) -> bool {
        value % 2 == 1
    }
}

type State = SimpleConsensus<TestContext>;

fn validator_id(index: u32) -> u64 {
    100 + u64::from(index)
}

fn validators(weights: &[u64]) -> Vec<Validator> {
    weights
        .iter()
        .enumerate()
        .map(|(index, weight)| Validator {
            id: validator_id(index as u32),
            weight: *weight,
            banned: false,
            can_propose: true,
        })
        .collect()
}

fn params() -> Params {
    Params {
        start_timestamp: Timestamp(500),
        end_timestamp: Timestamp(1_000_000),
        end_height: 1_000,
        min_round_length: TimeDiff(64),
    }
}

fn config() -> Config {
    Config {
        pending_vertex_timeout: TimeDiff(10_000),
        request_state_interval: Some(TimeDiff(2_000)),
        log_participation_interval: Some(TimeDiff(3_000)),
    }
}

fn new_state(weights: &[u64], fraction: (u64, u64)) -> State {
    let (state, outcomes) = State::new_boxed(
        INSTANCE,
        validators(weights),
        fraction,
        params(),
        config(),
        None,
        11,
        NOW,
    )
    .expect("the setup is valid");
    assert_eq!(
        outcomes,
        vec![ProtocolOutcome::ScheduleTimer(Timestamp(1_020), TIMER_ID_SYNC_PEER)]
    );
    *state
}

fn signature(round_id: u32, content: Content, index: u32) -> u64 {
    let hash = signed_hash::<TestContext>(round_id, INSTANCE, content, ValidatorIndex(index));
    TestSecret(secret_of(validator_id(index))).sign(hash)
}

fn signed(round_id: u32, content: Content, index: u32) -> Message {
    Message::Signed {
        round_id,
        instance_id: INSTANCE,
        content,
        validator_idx: ValidatorIndex(index),
        signature: signature(round_id, content, index),
    }
}

fn deliver(state: &mut State, round_id: u32, content: Content, index: u32) -> Vec<ProtocolOutcome> {
    let finalized_before = state.first_non_finalized_round_id;
    let outcomes = state.handle_message(PEER, signed(round_id, content, index).serialize(), NOW);
    // Finalization never goes back.
    assert!(state.first_non_finalized_round_id >= finalized_before);
    outcomes
}

fn gossip(round_id: u32, content: Content, index: u32) -> ProtocolOutcome {
    ProtocolOutcome::CreatedGossipMessage(signed(round_id, content, index).serialize())
}

fn proposal(block: Option<u64>, parent: Option<u32>) -> Proposal {
    Proposal { timestamp: Timestamp(900), maybe_block: block, maybe_parent_round_id: parent }
}

fn others(state: &State, round_id: u32) -> Vec<u32> {
    let leader = state.leader(round_id).0;
    (0..state.weights.len() as u32).filter(|index| *index != leader).collect()
}

fn skip_round(state: &mut State, round_id: u32, voters: &[u32]) {
    for voter in voters {
        deliver(state, round_id, Content::Vote(false), *voter);
    }
    assert!(state.is_skippable_round(round_id));
}

#[test]
fn happy_path_finalization() {
    // Three validators of equal weight and a fault tolerance of a third: the
    // quorum threshold is two, so that a quorum takes all three.
    let mut state = new_state(&[1, 1, 1], (1, 3));
    assert_eq!(state.ftt, 1);
    assert_eq!(state.quorum_threshold(), 2);
    let leader = state.leader(0).0;
    let rest = others(&state, 0);
    let (us, other) = (rest[0], rest[1]);
    assert_eq!(
        state.activate_validator(validator_id(us), TestSecret(secret_of(validator_id(us))), NOW),
        vec![ProtocolOutcome::ScheduleTimer(NOW, TIMER_ID_ROUND)]
    );
    assert!(state.is_active());

    // The leader proposes block 42 without a parent; we echo it.
    let block = proposal(Some(42), None);
    let hash = block.hash::<TestContext>();
    let outcomes = deliver(&mut state, 0, Content::Proposal(block), leader);
    assert_eq!(outcomes, vec![gossip(0, Content::Echo(hash), us)]);
    assert!(state.progress_detected);

    // With the echoes of all three the proposal is accepted at height zero, the
    // next round is started, and we vote to commit.
    assert_eq!(deliver(&mut state, 0, Content::Echo(hash), leader), vec![]);
    assert!(!state.has_accepted_proposal(0));
    let outcomes = deliver(&mut state, 0, Content::Echo(hash), other);
    assert_eq!(
        outcomes,
        vec![
            ProtocolOutcome::ScheduleTimer(NOW, TIMER_ID_ROUND),
            gossip(0, Content::Vote(true), us),
        ]
    );
    assert_eq!(state.quorum_echos(0), Some(hash));
    assert_eq!(state.accepted_proposal(0), Some((0, block)));
    assert_eq!(state.first_non_finalized_round_id, 0);
    assert_eq!(state.current_round(), 1);

    // With the votes of all three the round is committed and the block finalized.
    assert_eq!(deliver(&mut state, 0, Content::Vote(true), leader), vec![]);
    assert_eq!(state.quorum_votes(0), None);
    let outcomes = deliver(&mut state, 0, Content::Vote(true), other);
    assert_eq!(
        outcomes,
        vec![ProtocolOutcome::FinalizedBlock(FinalizedBlock {
            value: 42,
            timestamp: Timestamp(900),
            relative_height: 0,
            equivocators: vec![],
            terminal_block_data: None,
            proposer: validator_id(leader),
        })]
    );
    assert_eq!(state.quorum_votes(0), Some(true));
    assert_eq!(state.first_non_finalized_round_id, 1);
}

#[test]
fn a_committed_round_is_finalized_with_those_it_builds_on() {
    // Without fault tolerance two of three validators are a quorum.
    let mut state = new_state(&[1, 1, 1], (0, 1));
    let first = proposal(Some(8), None);
    let leader = state.leader(0).0;
    assert_eq!(deliver(&mut state, 0, Content::Proposal(first), leader), vec![]);
    let hash = first.hash::<TestContext>();
    assert_eq!(deliver(&mut state, 0, Content::Echo(hash), 0), vec![]);
    assert_eq!(
        deliver(&mut state, 0, Content::Echo(hash), 1),
        vec![ProtocolOutcome::ScheduleTimer(NOW, TIMER_ID_ROUND)]
    );
    assert_eq!(state.accepted_proposal(0), Some((0, first)));

    // Round one is committed before its proposal is known.
    assert_eq!(deliver(&mut state, 1, Content::Vote(true), 0), vec![]);
    assert_eq!(deliver(&mut state, 1, Content::Vote(true), 1), vec![]);
    assert_eq!(state.quorum_votes(1), Some(true));
    assert_eq!(state.first_non_finalized_round_id, 0);

    // Once the proposal is accepted, both blocks are finalized, the earlier first.
    let second = proposal(Some(10), Some(0));
    let next_leader = state.leader(1).0;
    assert_eq!(deliver(&mut state, 1, Content::Proposal(second), next_leader), vec![]);
    let hash = second.hash::<TestContext>();
    assert_eq!(deliver(&mut state, 1, Content::Echo(hash), 0), vec![]);
    let block = |value: u64, height: u64, proposer: u32| {
        ProtocolOutcome::FinalizedBlock(FinalizedBlock {
            value,
            timestamp: Timestamp(900),
            relative_height: height,
            equivocators: vec![],
            terminal_block_data: None,
            proposer: validator_id(proposer),
        })
    };
    assert_eq!(
        deliver(&mut state, 1, Content::Echo(hash), 1),
        vec![
            ProtocolOutcome::ScheduleTimer(NOW, TIMER_ID_ROUND),
            block(8, 0, leader),
            block(10, 1, next_leader),
        ]
    );
    assert_eq!(state.accepted_proposal(1), Some((1, second)));
    assert_eq!(state.first_non_finalized_round_id, 2);
}

#[test]
fn round_skip() {
    // Without fault tolerance two of three validators are a quorum.
    let mut state = new_state(&[1, 1, 1], (0, 1));
    assert_eq!(state.ftt, 0);
    assert_eq!(state.quorum_threshold(), 1);
    let rest = others(&state, 0);
    let (us, other) = (rest[0], rest[1]);
    state.activate_validator(validator_id(us), TestSecret(secret_of(validator_id(us))), NOW);

    // The round starts; its leader stays silent.
    let outcomes = state.handle_timer(NOW, TIMER_ID_ROUND);
    assert_eq!(
        outcomes,
        vec![ProtocolOutcome::ScheduleTimer(Timestamp(1_064), TIMER_ID_PROPOSAL_TIMEOUT)]
    );
    assert_eq!(state.current_timeout, Timestamp(1_064));

    // Before the timeout nothing happens; at the timeout we vote to skip.
    assert_eq!(state.handle_timer(Timestamp(1_063), TIMER_ID_PROPOSAL_TIMEOUT), vec![]);
    let outcomes = state.handle_timer(Timestamp(1_064), TIMER_ID_PROPOSAL_TIMEOUT);
    assert_eq!(outcomes, vec![gossip(0, Content::Vote(false), us)]);
    assert!(!state.is_skippable_round(0));
    assert_eq!(state.handle_timer(Timestamp(1_065), TIMER_ID_PROPOSAL_TIMEOUT), vec![]);

    // The vote of the other validator makes the round skippable: round one starts.
    let outcomes = deliver(&mut state, 0, Content::Vote(false), other);
    assert_eq!(outcomes, vec![ProtocolOutcome::ScheduleTimer(NOW, TIMER_ID_ROUND)]);
    assert_eq!(state.quorum_votes(0), Some(false));
    assert!(state.is_skippable_round(0));
    assert_eq!(state.current_round(), 1);
    assert_eq!(state.first_non_finalized_round_id, 0);
}

#[test]
fn equivocation_cascade() {
    // Four validators of equal weight and a fault tolerance of a quarter: the
    // quorum threshold is two, so that a quorum takes three.
    let mut state = new_state(&[1, 1, 1, 1], (1, 4));
    assert_eq!(state.ftt, 1);
    assert_eq!(state.quorum_threshold(), 2);
    for round_id in 0..3 {
        skip_round(&mut state, round_id, &[1, 2, 3]);
    }
    // In round three a proposal is accepted, and two validators vote to commit.
    let leader = state.leader(3).0;
    let block = proposal(Some(8), None);
    let hash = block.hash::<TestContext>();
    assert_eq!(deliver(&mut state, 3, Content::Proposal(block), leader), vec![]);
    for echoer in [1, 2] {
        assert_eq!(deliver(&mut state, 3, Content::Echo(hash), echoer), vec![]);
    }
    assert_eq!(
        deliver(&mut state, 3, Content::Echo(hash), 3),
        vec![ProtocolOutcome::ScheduleTimer(NOW, TIMER_ID_ROUND)]
    );
    assert_eq!(state.accepted_proposal(3), Some((0, block)));
    for voter in [1, 2] {
        assert_eq!(deliver(&mut state, 3, Content::Vote(true), voter), vec![]);
    }
    assert_eq!(state.quorum_votes(3), None);
    assert_eq!(state.first_non_finalized_round_id, 0);
    // A round that is not committed is not finalized.
    assert_eq!(state.finalize_round(3), vec![]);
    assert_eq!(state.first_non_finalized_round_id, 0);

    // Validator zero echoes two hashes in round five.
    assert_eq!(deliver(&mut state, 5, Content::Echo(1), 0), vec![]);
    let outcomes = deliver(&mut state, 5, Content::Echo(2), 0);
    assert_eq!(
        outcomes,
        vec![
            gossip(5, Content::Echo(2), 0),
            gossip(5, Content::Echo(1), 0),
            ProtocolOutcome::NewEvidence(validator_id(0)),
            ProtocolOutcome::FinalizedBlock(FinalizedBlock {
                value: 8,
                timestamp: Timestamp(900),
                relative_height: 0,
                equivocators: vec![],
                terminal_block_data: None,
                proposer: validator_id(leader),
            }),
        ]
    );
    assert_eq!(
        state.faults[0],
        Some(Fault::Direct(signed(5, Content::Echo(2), 0), signed(5, Content::Echo(1), 0)))
    );
    assert!(state.has_evidence(validator_id(0)));
    assert_eq!(state.validators_with_evidence(), vec![validator_id(0)]);
    // The echoes of the faulty validator are gone; its weight counts all the same.
    // What the others have signed is kept.
    assert!(!state.contains(5, &Content::Echo(1), ValidatorIndex(0)));
    assert!(state.contains(3, &Content::Vote(true), ValidatorIndex(1)));
    assert!(state.contains(3, &Content::Echo(hash), ValidatorIndex(3)));
    assert!(!outcomes.contains(&ProtocolOutcome::FttExceeded));
    assert_eq!(state.faulty_weight(), 1);
    assert_eq!(state.quorum_votes(3), Some(true));
    assert_eq!(state.first_non_finalized_round_id, 4);
    // Further messages of the faulty validator are ignored.
    assert_eq!(deliver(&mut state, 5, Content::Vote(true), 0), vec![]);
    assert!(!state.contains(5, &Content::Vote(true), ValidatorIndex(0)));
}

#[test]
fn fault_tolerance_exceeded() {
    let mut state = new_state(&[1, 1, 1, 1], (1, 4));
    deliver(&mut state, 0, Content::Vote(true), 0);
    let outcomes = deliver(&mut state, 0, Content::Vote(false), 0);
    assert_eq!(outcomes.len(), 3);
    deliver(&mut state, 0, Content::Vote(true), 1);
    let outcomes = deliver(&mut state, 0, Content::Vote(false), 1);
    assert_eq!(outcomes[2], ProtocolOutcome::NewEvidence(validator_id(1)));
    assert_eq!(outcomes[3], ProtocolOutcome::FttExceeded);
    assert_eq!(state.faulty_weight(), 2);
}

#[test]
fn contradicting_votes_are_evidence() {
    let mut state = new_state(&[1, 1, 1, 1], (1, 4));
    assert_eq!(deliver(&mut state, 2, Content::Vote(true), 3), vec![]);
    assert_eq!(
        deliver(&mut state, 2, Content::Vote(false), 3),
        vec![
            gossip(2, Content::Vote(false), 3),
            gossip(2, Content::Vote(true), 3),
            ProtocolOutcome::NewEvidence(validator_id(3)),
        ]
    );
    assert_eq!(
        state.faults[3],
        Some(Fault::Direct(signed(2, Content::Vote(false), 3), signed(2, Content::Vote(true), 3)))
    );
    assert!(state.progress_detected);
    assert!(!state.contains(2, &Content::Vote(true), ValidatorIndex(3)));
    assert!(!state.contains(2, &Content::Vote(false), ValidatorIndex(3)));
}

#[test]
fn two_proposals_of_the_leader_are_evidence() {
    let mut state = new_state(&[1, 1, 1, 1], (1, 4));
    let leader = state.leader(0).0;
    let first = proposal(Some(8), None);
    let second = proposal(Some(12), None);
    assert_eq!(deliver(&mut state, 0, Content::Proposal(first), leader), vec![]);
    assert_eq!(
        deliver(&mut state, 0, Content::Proposal(second), leader),
        vec![
            gossip(0, Content::Proposal(second), leader),
            gossip(0, Content::Proposal(first), leader),
            ProtocolOutcome::NewEvidence(validator_id(leader)),
        ]
    );
    assert_eq!(
        state.faults[leader as usize],
        Some(Fault::Direct(
            signed(0, Content::Proposal(second), leader),
            signed(0, Content::Proposal(first), leader)
        ))
    );
    // The second proposal is on record all the same.
    assert!(state.contains(0, &Content::Proposal(first), ValidatorIndex(leader)));
    assert!(state.contains(0, &Content::Proposal(second), ValidatorIndex(leader)));
    // A third is no news.
    let third = proposal(Some(10), None);
    assert_eq!(deliver(&mut state, 0, Content::Proposal(third), leader), vec![]);
    assert!(state.contains(0, &Content::Proposal(third), ValidatorIndex(leader)));
}

#[test]
fn summaries_are_drawn_within_bounds() {
    let mut state = new_state(&[1, 1, 1], (0, 1));
    skip_round(&mut state, 0, &[0, 1]);
    skip_round(&mut state, 1, &[0, 1]);
    assert_eq!(state.first_non_finalized_round_id, 0);
    assert_eq!(state.current_round(), 2);
    let mut windows = [false; 3];
    let mut rounds = [false; 3];
    for _ in 0..200 {
        match state.create_sync_state_message() {
            Message::SyncState { round_id, first_validator_idx, instance_id, .. } => {
                assert!(round_id <= 2);
                assert!(first_validator_idx.0 < 3);
                assert_eq!(instance_id, INSTANCE);
                assert_eq!(
                    state.create_sync_state_message().instance_id(),
                    state.sync_state(first_validator_idx, round_id).instance_id()
                );
                windows[first_validator_idx.0 as usize] = true;
                rounds[round_id as usize] = true;
            }
            _ => panic!("expected a summary"),
        }
    }
    assert_eq!(windows, [true; 3]);
    assert_eq!(rounds, [true; 3]);
}

#[test]
fn quorums_are_strict() {
    let state = new_state(&[3, 4, 5, 6], (1, 3));
    // The total is 18 and the fault tolerance 6: the threshold is 9 + 3.
    assert_eq!(state.total_weight(), 18);
    assert_eq!(state.ftt, 6);
    assert_eq!(state.quorum_threshold(), 12);
    let votes = |indexes: &[usize]| {
        let mut map = vec![None; 4];
        for index in indexes {
            map[*index] = Some(0u64);
        }
        map
    };
    assert!(!state.is_quorum(&votes(&[0, 1, 2])));
    assert!(state.is_quorum(&votes(&[0, 1, 3])));
    assert!(state.is_quorum(&votes(&[1, 2, 3])));
    assert!(!state.is_quorum(&votes(&[2, 3])));
    assert_eq!(state.sum_weights(&votes(&[0, 3])), 9);

    // Both odd: the threshold is rounded up.
    let odd = new_state(&[1, 1, 1], (1, 3));
    assert_eq!(odd.quorum_threshold(), 2);
    let even = new_state(&[2, 2], (1, 2));
    assert_eq!(even.ftt, 2);
    assert_eq!(even.quorum_threshold(), 3);
}

#[test]
fn two_quorums_share_more_than_the_fault_tolerance() {
    let weights = [3u64, 4, 5, 6, 7];
    let state = new_state(&weights, (1, 3));
    assert_eq!(state.ftt, 8);
    let map = |set: u32| -> Vec<Option<u64>> {
        (0..5).map(|index| if set & (1 << index) != 0 { Some(0) } else { None }).collect()
    };
    let weight = |set: u32| -> u64 {
        (0..5).filter(|index| set & (1 << index) != 0).map(|index| weights[index]).sum()
    };
    let mut quorums = 0;
    for first in 0..32u32 {
        for second in 0..32u32 {
            if state.is_quorum(&map(first)) && state.is_quorum(&map(second)) {
                quorums += 1;
                assert!(weight(first & second) > state.ftt);
            }
        }
    }
    assert!(quorums > 0);
}

#[test]
fn one_hash_has_a_quorum_unless_the_fault_tolerance_is_exceeded() {
    let mut state = new_state(&[1, 1, 1, 1], (1, 4));
    for index in [0, 1, 2] {
        deliver(&mut state, 0, Content::Echo(1), index);
    }
    assert_eq!(state.quorum_echos(0), Some(1));
    deliver(&mut state, 0, Content::Echo(2), 3);
    assert!(!state.is_quorum_of_echos(0, 2));
    // One faulty validator is within the fault tolerance: the other hash has no quorum.
    let outcomes = deliver(&mut state, 0, Content::Echo(2), 0);
    assert_eq!(outcomes.len(), 3);
    assert!(state.faulty_weight() <= state.ftt);
    assert!(state.is_quorum_of_echos(0, 1));
    assert!(!state.is_quorum_of_echos(0, 2));
    // A second one exceeds it, and only then both hashes have a quorum.
    let outcomes = deliver(&mut state, 0, Content::Echo(2), 1);
    assert_eq!(outcomes[3], ProtocolOutcome::FttExceeded);
    assert!(state.faulty_weight() > state.ftt);
    assert!(state.is_quorum_of_echos(0, 1));
    assert!(state.is_quorum_of_echos(0, 2));
    assert_eq!(state.quorum_echos(0), Some(1));
}

#[test]
fn faulty_validators_count_towards_every_quorum() {
    let mut state = new_state(&[1, 1, 1, 1], (1, 4));
    state.mark_faulty(validator_id(3));
    assert_eq!(state.faults[3], Some(Fault::Indirect));
    assert!(!state.has_evidence(validator_id(3)));
    assert!(!state.is_quorum(&vec![Some(0), None, None, None]));
    assert!(state.is_quorum(&vec![Some(0), Some(0), None, None]));
    assert!(state.is_quorum(&vec![Some(0), Some(0), None, Some(0)]));
    // An unknown validator is not marked.
    state.mark_faulty(1);
    assert_eq!(state.faulty_weight(), 1);
}

#[test]
fn invalid_messages_are_rejected() {
    let mut state = new_state(&[1, 1, 1], (1, 3));
    let reject = |state: &mut State, bytes: Vec<u8>, error: MessageError| {
        let outcomes = state.handle_message(PEER, bytes.clone(), NOW);
        assert_eq!(outcomes, vec![ProtocolOutcome::InvalidIncomingMessage(bytes, PEER, error)]);
        assert!(state.rounds.is_empty());
    };
    reject(&mut state, vec![1, 2, 3], MessageError::Malformed);

    let vote = Content::Vote(true);
    let wrong_instance = Message::Signed {
        round_id: 0,
        instance_id: INSTANCE + 1,
        content: vote,
        validator_idx: ValidatorIndex(0),
        signature: signature(0, vote, 0),
    };
    reject(&mut state, wrong_instance.serialize(), MessageError::InvalidInstanceId);

    let no_validator = Message::Signed {
        round_id: 0,
        instance_id: INSTANCE,
        content: vote,
        validator_idx: ValidatorIndex(3),
        signature: 0,
    };
    reject(&mut state, no_validator.serialize(), MessageError::InvalidValidatorIndex);

    let forged = Message::Signed {
        round_id: 0,
        instance_id: INSTANCE,
        content: vote,
        validator_idx: ValidatorIndex(0),
        signature: signature(0, vote, 1),
    };
    reject(&mut state, forged.serialize(), MessageError::InvalidSignature);

    let not_leader = others(&state, 0)[0];
    let block = Content::Proposal(proposal(Some(2), None));
    reject(&mut state, signed(0, block, not_leader).serialize(), MessageError::WrongLeader);

    let leader = state.leader(1).0;
    let late_parent = Content::Proposal(proposal(Some(2), Some(1)));
    reject(&mut state, signed(1, late_parent, leader).serialize(), MessageError::InvalidParent);

    // A summary that carries a signature encodes no message.
    let summary = Message::new_empty_round_sync_state(0, ValidatorIndex(0), 0, INSTANCE);
    let mut bytes = summary.serialize();
    assert_eq!(Message::deserialize(&bytes), Some(summary));
    let last = bytes.len() - 1;
    bytes[last] = 1;
    reject(&mut state, bytes, MessageError::Malformed);
}

#[test]
fn rejections_in_words() {
    assert_eq!(MessageError::Malformed.message(), "malformed message");
    assert_eq!(MessageError::InvalidInstanceId.message(), "invalid instance ID");
    assert_eq!(MessageError::InvalidValidatorIndex.message(), "invalid validator index");
    assert_eq!(MessageError::InvalidSignature.message(), "invalid signature");
    assert_eq!(MessageError::WrongLeader.message(), "wrong leader");
    assert_eq!(
        MessageError::InvalidParent.message(),
        "invalid proposal: parent is not from an earlier round"
    );
}

#[test]
fn messages_are_dropped_in_silence() {
    let mut state = new_state(&[1, 1, 1], (1, 3));
    // Round ten is accepted, round eleven lies too far ahead.
    assert_eq!(deliver(&mut state, 11, Content::Vote(true), 0), vec![]);
    assert!(state.round(11).is_none());
    assert_eq!(deliver(&mut state, 10, Content::Vote(true), 0), vec![]);
    assert!(state.contains(10, &Content::Vote(true), ValidatorIndex(0)));
    // A duplicate changes nothing.
    assert_eq!(deliver(&mut state, 10, Content::Vote(true), 0), vec![]);
    // A proposal whose timestamp lies too far ahead is dropped.
    let leader = state.leader(0).0;
    let far = Proposal {
        timestamp: Timestamp(11_001),
        maybe_block: Some(2),
        maybe_parent_round_id: None,
    };
    assert_eq!(deliver(&mut state, 0, Content::Proposal(far), leader), vec![]);
    assert!(state.round(0).is_none());
    let near = Proposal { timestamp: Timestamp(11_000), ..far };
    assert_eq!(deliver(&mut state, 0, Content::Proposal(near), leader), vec![]);
    assert!(state.contains(0, &Content::Proposal(near), ValidatorIndex(leader)));
}

#[test]
fn banned_validators_are_ignored() {
    let mut list = validators(&[1, 1, 1, 1]);
    list[2].banned = true;
    list[2].can_propose = false;
    let (state, _) =
        State::new_boxed(INSTANCE, list, (1, 4), params(), config(), Some(TimeDiff(5)), 3, NOW)
            .expect("the setup is valid");
    let mut state = *state;
    assert_eq!(state.proposal_timeout, TimeDiff(5));
    assert_eq!(state.faults[2], Some(Fault::Banned));
    assert_eq!(deliver(&mut state, 0, Content::Vote(true), 2), vec![]);
    assert!(state.round(0).is_none());
    for round_id in 0..50 {
        assert_ne!(state.leader(round_id), ValidatorIndex(2));
    }
}

#[test]
fn setups_that_are_not_valid() {
    let make = |list: Vec<Validator>, fraction: (u64, u64)| {
        State::new_boxed(INSTANCE, list, fraction, params(), config(), None, 0, NOW).is_some()
    };
    assert!(make(validators(&[1]), (1, 3)));
    assert!(!make(validators(&[]), (1, 3)));
    assert!(!make(validators(&[1, 2]), (1, 0)));
    assert!(!make(validators(&[1, 2]), (4, 3)));
    assert!(!make(validators(&[u64::MAX, 1]), (1, 3)));
    assert!(!make(validators(&[0, 0]), (1, 3)));
    let mut nobody = validators(&[1, 1]);
    nobody[0].can_propose = false;
    nobody[1].can_propose = false;
    assert!(!make(nobody, (1, 3)));
}

#[test]
fn leaders_follow_the_weights() {
    let sequence = LeaderSequence::new(5, &vec![0, 3, 0, 1], &vec![true, true, true, false])
        .expect("there is a proposer");
    assert_eq!(sequence.cumulative, vec![0, 3, 3, 3]);
    for slot in 0..100 {
        assert_eq!(sequence.leader(slot), ValidatorIndex(1));
    }
    let sequence = LeaderSequence::new(5, &vec![1, 1], &vec![true, true]).expect("two proposers");
    let first = (0..64).filter(|slot| sequence.leader(*slot) == ValidatorIndex(0)).count();
    assert!(first > 0 && first < 64);
    assert_eq!(sequence.leader(9), sequence.leader(9));
    assert!(LeaderSequence::new(5, &vec![1], &vec![true, true]).is_none());
}

#[test]
fn proposals_wait_for_their_parent() {
    let mut state = new_state(&[1, 1, 1], (0, 1));
    let parent = proposal(Some(2), None);
    let parent_hash = parent.hash::<TestContext>();
    let child = proposal(Some(4), Some(0));
    let child_hash = child.hash::<TestContext>();
    let leader0 = state.leader(0).0;
    let leader1 = state.leader(1).0;

    // The child arrives first and waits.
    assert_eq!(deliver(&mut state, 1, Content::Proposal(child), leader1), vec![]);
    assert_eq!(state.proposals_waiting_for_parent.len(), 1);
    assert!(!state.contains(1, &Content::Proposal(child), ValidatorIndex(leader1)));
    assert_eq!(deliver(&mut state, 1, Content::Proposal(child), leader1), vec![]);
    assert_eq!(state.proposals_waiting_for_parent.len(), 1);
    for echoer in [0, 1] {
        deliver(&mut state, 1, Content::Echo(child_hash), echoer);
    }
    assert_eq!(state.quorum_echos(1), Some(child_hash));
    assert!(!state.has_accepted_proposal(1));

    // Once the parent is accepted, the child is taken up and accepted as well.
    deliver(&mut state, 0, Content::Proposal(parent), leader0);
    deliver(&mut state, 0, Content::Echo(parent_hash), 0);
    let outcomes = deliver(&mut state, 0, Content::Echo(parent_hash), 1);
    assert_eq!(
        outcomes,
        vec![
            ProtocolOutcome::ScheduleTimer(NOW, TIMER_ID_ROUND),
            ProtocolOutcome::ScheduleTimer(NOW, TIMER_ID_ROUND),
        ]
    );
    assert!(state.proposals_waiting_for_parent.is_empty());
    assert_eq!(state.accepted_proposal(0), Some((0, parent)));
    assert_eq!(state.accepted_proposal(1), Some((1, child)));
    assert_eq!(state.ancestor_values(1), Some(vec![4, 2]));
    assert_eq!(state.ancestor_values(0), Some(vec![2]));
    assert_eq!(state.ancestor_values(2), None);

    // Committing the child finalizes the parent first.
    deliver(&mut state, 1, Content::Vote(true), 0);
    let outcomes = deliver(&mut state, 1, Content::Vote(true), 2);
    let heights: Vec<(u64, u64)> = outcomes
        .iter()
        .map(|outcome| match outcome {
            ProtocolOutcome::FinalizedBlock(block) => (block.value, block.relative_height),
            _ => panic!("expected a finalized block"),
        })
        .collect();
    assert_eq!(heights, vec![(2, 0), (4, 1)]);
    assert_eq!(state.first_non_finalized_round_id, 2);
    assert!(state.accepted_dummy_proposal(0) == false);
}

#[test]
fn blocks_are_validated_on_request() {
    let mut state = new_state(&[1, 1, 1], (0, 1));
    let leader = state.leader(0).0;
    // Odd values need validation.
    let block = proposal(Some(5), None);
    let proposed = ProposedBlock {
        value: 5,
        context: BlockContext { timestamp: Timestamp(900), ancestor_values: vec![] },
    };
    let outcomes = deliver(&mut state, 0, Content::Proposal(block), leader);
    assert_eq!(
        outcomes,
        vec![ProtocolOutcome::ValidateConsensusValue {
            sender: PEER,
            proposed_block: proposed.clone(),
        }]
    );
    assert!(!state.contains(0, &Content::Proposal(block), ValidatorIndex(leader)));
    // The same proposal from the same peer asks for nothing more.
    assert_eq!(deliver(&mut state, 0, Content::Proposal(block), leader), vec![]);
    assert_eq!(state.proposals_waiting_for_validation.len(), 1);

    let other = ProposedBlock { value: 7, ..proposed.clone() };
    assert_eq!(state.resolve_validity(other, true, NOW), vec![]);
    assert_eq!(state.proposals_waiting_for_validation.len(), 1);
    assert_eq!(state.resolve_validity(proposed.clone(), true, NOW), vec![]);
    assert!(state.proposals_waiting_for_validation.is_empty());
    assert!(state.contains(0, &Content::Proposal(block), ValidatorIndex(leader)));

    // An invalid block is dropped.
    let mut state = new_state(&[1, 1, 1], (0, 1));
    deliver(&mut state, 0, Content::Proposal(block), leader);
    assert_eq!(state.resolve_validity(proposed, false, NOW), vec![]);
    assert!(state.proposals_waiting_for_validation.is_empty());
    assert!(!state.contains(0, &Content::Proposal(block), ValidatorIndex(leader)));
}

#[test]
fn the_leader_proposes() {
    let mut state = new_state(&[1, 1, 1], (0, 1));
    let us = state.leader(0).0;
    state.activate_validator(validator_id(us), TestSecret(secret_of(validator_id(us))), NOW);
    let outcomes = state.handle_timer(NOW, TIMER_ID_ROUND);
    assert_eq!(
        outcomes,
        vec![
            ProtocolOutcome::ScheduleTimer(Timestamp(1_064), TIMER_ID_PROPOSAL_TIMEOUT),
            ProtocolOutcome::CreateNewBlock(BlockContext {
                timestamp: NOW,
                ancestor_values: vec![],
            }),
        ]
    );
    assert_eq!(state.pending_proposal_round_ids, Some((0, None)));
    // A second firing asks for no second block.
    assert_eq!(state.handle_timer(NOW, TIMER_ID_ROUND).len(), 1);

    let proposed = ProposedBlock {
        value: 6,
        context: BlockContext { timestamp: NOW, ancestor_values: vec![] },
    };
    let block = Proposal { timestamp: NOW, maybe_block: Some(6), maybe_parent_round_id: None };
    let outcomes = state.propose(proposed.clone(), NOW);
    assert_eq!(
        outcomes,
        vec![
            gossip(0, Content::Echo(block.hash::<TestContext>()), us),
            gossip(0, Content::Proposal(block), us),
        ]
    );
    assert_eq!(state.pending_proposal_round_ids, None);
    assert!(state.contains(0, &Content::Proposal(block), ValidatorIndex(us)));
    // Without a request nothing is proposed.
    assert_eq!(state.propose(proposed, NOW), vec![]);

    state.deactivate_validator();
    assert!(!state.is_active());
    assert_eq!(state.activate_validator(5, TestSecret(0), NOW), vec![]);
    assert!(!state.is_active());
}

#[test]
fn timers() {
    let mut state = new_state(&[1, 1], (0, 1));
    assert_eq!(
        state.handle_timer(NOW, TIMER_ID_LOG_PARTICIPATION),
        vec![ProtocolOutcome::ScheduleTimer(Timestamp(4_000), TIMER_ID_LOG_PARTICIPATION)]
    );
    let outcomes = state.handle_timer(NOW, TIMER_ID_SYNC_PEER);
    assert_eq!(outcomes.len(), 2);
    assert_eq!(outcomes[1], ProtocolOutcome::ScheduleTimer(Timestamp(3_000), TIMER_ID_SYNC_PEER));
    match &outcomes[0] {
        ProtocolOutcome::CreatedMessageToRandomPeer(bytes) => match Message::deserialize(bytes) {
            Some(Message::SyncState { round_id, first_validator_idx, instance_id, .. }) => {
                assert_eq!(round_id, 0);
                assert!(first_validator_idx.0 < 2);
                assert_eq!(instance_id, INSTANCE);
            }
            _ => panic!("expected a summary"),
        },
        _ => panic!("expected a message to a random peer"),
    }
    assert_eq!(state.handle_timer(NOW, 4), vec![]);
    assert_eq!(state.handle_action(0, NOW), vec![]);
    let outcomes = state.handle_is_current(Timestamp(100));
    assert_eq!(
        outcomes[1],
        ProtocolOutcome::ScheduleTimer(Timestamp(3_500), TIMER_ID_LOG_PARTICIPATION)
    );
    assert_eq!(state.next_round_length(), Some(TimeDiff(64)));
    assert_eq!(state.instance_id(), INSTANCE);
    state.set_paused(true);

    state.set_evidence_only();
    assert!(state.evidence_only);
    assert_eq!(state.handle_timer(NOW, TIMER_ID_SYNC_PEER), vec![]);
    assert_eq!(state.handle_timer(NOW, TIMER_ID_LOG_PARTICIPATION), vec![]);
    assert_eq!(state.request_evidence(PEER, 5), vec![]);
    assert_eq!(state.request_evidence(PEER, validator_id(1)).len(), 1);
}

#[test]
fn bit_fields_wrap_around() {
    // With 500 validators and a window at 450 the bits stand for 450 to 499 and 0 to 77.
    let mut map: Vec<Option<u64>> = vec![None; 500];
    for index in [449usize, 450, 499, 0, 77, 78] {
        map[index] = Some(1);
    }
    let field = validator_bit_field(ValidatorIndex(450), &map);
    assert_eq!(field, 1 | 1 << 49 | 1 << 50 | 1 << 127);
    let members = iter_validator_bit_field(ValidatorIndex(450), 500, field);
    assert_eq!(
        members,
        vec![ValidatorIndex(450), ValidatorIndex(499), ValidatorIndex(0), ValidatorIndex(77)]
    );
    // With fewer validators than bits the higher bits stay zero.
    let few: Vec<Option<u64>> = vec![Some(1), None, Some(1)];
    assert_eq!(validator_bit_field(ValidatorIndex(2), &few), 0b011);
    assert_eq!(
        iter_validator_bit_field(ValidatorIndex(2), 3, 0b011),
        vec![ValidatorIndex(2), ValidatorIndex(0)]
    );
    assert_eq!(iter_validator_bit_field(ValidatorIndex(0), 3, 0), vec![]);
}

#[test]
fn summaries_are_answered_with_what_is_missing() {
    let mut ahead = new_state(&[1, 1, 1, 1], (1, 4));
    let mut behind = new_state(&[1, 1, 1, 1], (1, 4));
    let leader = ahead.leader(0).0;
    let block = proposal(Some(2), None);
    let hash = block.hash::<TestContext>();
    deliver(&mut ahead, 0, Content::Proposal(block), leader);
    for index in [0, 1, 2] {
        deliver(&mut ahead, 0, Content::Echo(hash), index);
    }
    for index in [1, 3] {
        deliver(&mut ahead, 0, Content::Vote(true), index);
    }
    deliver(&mut ahead, 0, Content::Vote(false), 2);
    // Validator zero votes both ways: its echo is dropped with its votes.
    deliver(&mut ahead, 1, Content::Vote(false), 0);
    deliver(&mut ahead, 1, Content::Vote(true), 0);
    assert!(!ahead.contains(0, &Content::Echo(hash), ValidatorIndex(0)));
    // The one behind has an echo and a vote.
    deliver(&mut behind, 0, Content::Echo(hash), 1);
    deliver(&mut behind, 0, Content::Vote(true), 3);

    let summary = behind.sync_state(ValidatorIndex(1), 0);
    assert_eq!(
        summary,
        Message::SyncState {
            round_id: 0,
            proposal_hash: Some(hash),
            proposal: false,
            first_validator_idx: ValidatorIndex(1),
            echos: 0b0001,
            true_votes: 0b0100,
            false_votes: 0,
            faulty: 0,
            instance_id: INSTANCE,
        }
    );
    let answer = ahead.handle_message(PEER, summary.serialize(), NOW);
    let targeted = |message: Message| ProtocolOutcome::CreatedTargetedMessage(message.serialize(), PEER);
    let evidence = match ahead.faults[0] {
        Some(Fault::Direct(first, second)) => (first, second),
        _ => panic!("validator zero has voted both ways"),
    };
    assert_eq!(
        answer,
        vec![
            targeted(signed(0, Content::Echo(hash), 2)),
            targeted(signed(0, Content::Proposal(block), leader)),
            targeted(signed(0, Content::Vote(true), 1)),
            targeted(signed(0, Content::Vote(false), 2)),
            targeted(evidence.0),
            targeted(evidence.1),
        ]
    );
    // The answer brings the one behind up to date.
    for outcome in answer {
        match outcome {
            ProtocolOutcome::CreatedTargetedMessage(bytes, _) => {
                behind.handle_message(PEER, bytes, NOW);
            }
            _ => panic!("expected a targeted message"),
        }
    }
    assert_eq!(behind.sync_state(ValidatorIndex(0), 0), ahead.sync_state(ValidatorIndex(0), 0));
    assert_eq!(behind.accepted_proposal(0), Some((0, block)));
    assert!(behind.has_evidence(validator_id(0)));
    // To a peer that knows as much nothing is sent.
    let summary = behind.sync_state(ValidatorIndex(3), 0);
    assert_eq!(ahead.handle_message(PEER, summary.serialize(), NOW), vec![]);
    // A summary of a round that was not started, or with a window that starts at no
    // validator, is not answered.
    let unknown = Message::new_empty_round_sync_state(9, ValidatorIndex(0), 0, INSTANCE);
    assert_eq!(ahead.handle_message(PEER, unknown.serialize(), NOW), vec![]);
    let no_window = Message::new_empty_round_sync_state(0, ValidatorIndex(4), 0, INSTANCE);
    assert_eq!(ahead.handle_message(PEER, no_window.serialize(), NOW), vec![]);
}

#[test]
fn a_summary_without_a_hash_is_answered_within_the_window() {
    let mut state = new_state(&[1, 1, 1, 1], (1, 4));
    let leader = state.leader(0).0;
    let block = proposal(Some(2), None);
    let hash = block.hash::<TestContext>();
    deliver(&mut state, 0, Content::Proposal(block), leader);
    for index in [0, 1, 2] {
        deliver(&mut state, 0, Content::Echo(hash), index);
    }
    assert_eq!(state.quorum_echos(0), Some(hash));
    let targeted = |message: Message| ProtocolOutcome::CreatedTargetedMessage(message.serialize(), PEER);
    // The peer names no hash and has the echo of validator one, the first of its
    // window: it is sent the echoes of the others, in the order of the window.
    let summary = Message::SyncState {
        round_id: 0,
        proposal_hash: None,
        proposal: false,
        first_validator_idx: ValidatorIndex(1),
        echos: 0b0001,
        true_votes: 0,
        false_votes: 0,
        faulty: 0,
        instance_id: INSTANCE,
    };
    assert_eq!(
        state.handle_message(PEER, summary.serialize(), NOW),
        vec![
            targeted(signed(0, Content::Echo(hash), 2)),
            targeted(signed(0, Content::Echo(hash), 0)),
        ]
    );
    // A peer that has them all is sent nothing.
    let summary = Message::SyncState {
        round_id: 0,
        proposal_hash: None,
        proposal: false,
        first_validator_idx: ValidatorIndex(0),
        echos: 0b0111,
        true_votes: 0,
        false_votes: 0,
        faulty: 0,
        instance_id: INSTANCE,
    };
    assert_eq!(state.handle_message(PEER, summary.serialize(), NOW), vec![]);
}

#[test]
fn evidence_held_elsewhere_is_asked_for() {
    let mut state = new_state(&[1, 1, 1], (1, 3));
    deliver(&mut state, 0, Content::Vote(true), 1);
    state.mark_faulty(validator_id(2));
    let summary = Message::new_empty_round_sync_state(0, ValidatorIndex(0), 0, INSTANCE);
    assert_eq!(
        state.handle_message(PEER, summary.serialize(), NOW),
        vec![
            ProtocolOutcome::CreatedTargetedMessage(
                signed(0, Content::Vote(true), 1).serialize(),
                PEER
            ),
            ProtocolOutcome::SendEvidence(PEER, validator_id(2)),
        ]
    );
}

#[test]
fn messages_survive_the_wire() {
    let messages = [
        signed(3, Content::Proposal(proposal(Some(9), Some(2))), 1),
        signed(4, Content::Proposal(proposal(None, None)), 0),
        signed(5, Content::Echo(u64::MAX), 2),
        signed(6, Content::Vote(false), 0),
        Message::SyncState {
            round_id: 8,
            proposal_hash: Some(3),
            proposal: true,
            first_validator_idx: ValidatorIndex(2),
            echos: 1 << 127,
            true_votes: 5,
            false_votes: 2,
            faulty: 1,
            instance_id: INSTANCE,
        },
    ];
    for message in messages {
        let bytes = message.serialize();
        assert!(!bytes.is_empty());
        assert_eq!(Message::deserialize(&bytes), Some(message));
        assert_eq!(message.instance_id(), INSTANCE);
    }
    assert_ne!(
        signed(6, Content::Vote(false), 0).serialize(),
        signed(6, Content::Vote(true), 0).serialize()
    );
    assert_eq!(Message::deserialize(&vec![]), None);
    assert!(Content::Proposal(proposal(None, None)).is_proposal());
    assert!(!Content::Echo(1).is_proposal());
}

#[test]
fn dummy_proposals_finalize_no_block() {
    let mut state = new_state(&[1, 1, 1], (0, 1));
    let leader = state.leader(0).0;
    let dummy = proposal(None, None);
    let hash = dummy.hash::<TestContext>();
    deliver(&mut state, 0, Content::Proposal(dummy), leader);
    deliver(&mut state, 0, Content::Echo(hash), 0);
    deliver(&mut state, 0, Content::Echo(hash), 1);
    assert!(state.accepted_dummy_proposal(0));
    assert!(!state.accepted_switch_block(0));
    deliver(&mut state, 0, Content::Vote(true), 0);
    assert_eq!(deliver(&mut state, 0, Content::Vote(true), 1), vec![]);
    assert_eq!(state.first_non_finalized_round_id, 1);
    assert!(!state.finalized_switch_block());
    assert_eq!(state.finalize_round(0), vec![]);
}

#[test]
fn the_last_block_of_the_era() {
    let mut list_params = params();
    list_params.end_height = 1;
    list_params.end_timestamp = Timestamp(900);
    let (state, _) = State::new_boxed(
        INSTANCE,
        validators(&[2, 3]),
        (0, 1),
        list_params,
        config(),
        None,
        1,
        NOW,
    )
    .expect("the setup is valid");
    let mut state = *state;
    let leader = state.leader(0).0;
    let block = proposal(Some(2), None);
    let hash = block.hash::<TestContext>();
    deliver(&mut state, 0, Content::Proposal(block), leader);
    deliver(&mut state, 0, Content::Echo(hash), 1);
    assert!(state.accepted_switch_block(0));
    let outcomes = deliver(&mut state, 0, Content::Vote(true), 1);
    assert_eq!(
        outcomes,
        vec![ProtocolOutcome::FinalizedBlock(FinalizedBlock {
            value: 2,
            timestamp: Timestamp(900),
            relative_height: 0,
            equivocators: vec![],
            terminal_block_data: Some(bft_core::consensus::types::TerminalBlockData {
                rewards: vec![(validator_id(0), 2), (validator_id(1), 3)],
                inactive_validators: vec![],
            }),
            proposer: validator_id(leader),
        })]
    );
    assert!(state.finalized_switch_block());
    // The era has ended: no timeout is set, and nothing is synced.
    assert_eq!(state.handle_timer(NOW, TIMER_ID_ROUND), vec![]);
    assert_eq!(state.handle_timer(NOW, TIMER_ID_SYNC_PEER), vec![]);
}

#[test]
fn participation_report() {
    let mut state = new_state(&[10, 20, 30, 40], (1, 4));
    // Validator one is seen in round zero, which is long ago once round three is current.
    deliver(&mut state, 0, Content::Vote(false), 1);
    for round_id in 0..3 {
        skip_round(&mut state, round_id, &[0, 2, 3]);
    }
    // Validator three votes both ways; its weight is above the fault tolerance.
    let outcomes = deliver(&mut state, 2, Content::Vote(true), 3);
    assert_eq!(outcomes.len(), 4);
    assert_eq!(outcomes[3], ProtocolOutcome::FttExceeded);
    assert_eq!(deliver(&mut state, 2, Content::Vote(false), 3), vec![]);
    assert_eq!(state.current_round(), 3);
    assert_eq!(
        ParticipationStatus::for_index(ValidatorIndex(3), &state),
        Some(ParticipationStatus::Equivocated)
    );
    assert_eq!(ParticipationStatus::for_index(ValidatorIndex(0), &state), None);
    let report = state.participation();
    assert_eq!(report.instance_id, INSTANCE);
    assert_eq!(
        report.faulty_validators,
        vec![(ValidatorIndex(3), validator_id(3), ParticipationStatus::Equivocated)]
    );
    assert_eq!(report.faulty_stake_percent, 40);
    assert_eq!(
        ParticipationStatus::for_index(ValidatorIndex(1), &state),
        Some(ParticipationStatus::LastSeenInRound(0))
    );
    assert_eq!(
        report.inactive_validators,
        vec![(ValidatorIndex(1), validator_id(1), ParticipationStatus::LastSeenInRound(0))]
    );
    assert_eq!(report.inactive_stake_percent, 20);

    let fresh = new_state(&[1, 2], (1, 3));
    let report = fresh.participation();
    assert_eq!(report.inactive_stake_percent, 100);
    assert_eq!(
        report.inactive_validators,
        vec![
            (ValidatorIndex(0), validator_id(0), ParticipationStatus::Inactive),
            (ValidatorIndex(1), validator_id(1), ParticipationStatus::Inactive),
        ]
    );
}

#[test]
fn participants_are_sorted_by_status() {
    let entry = |index: u32, status| (ValidatorIndex(index), validator_id(index), status);
    let sorted = sort_participants(vec![
        entry(0, ParticipationStatus::LastSeenInRound(3)),
        entry(1, ParticipationStatus::Inactive),
        entry(2, ParticipationStatus::LastSeenInRound(7)),
        entry(3, ParticipationStatus::Equivocated),
        entry(4, ParticipationStatus::Inactive),
        entry(5, ParticipationStatus::EquivocatedInOtherEra),
    ]);
    let order: Vec<u32> = sorted.iter().map(|entry| entry.0 .0).collect();
    assert_eq!(order, vec![3, 5, 1, 4, 2, 0]);
}

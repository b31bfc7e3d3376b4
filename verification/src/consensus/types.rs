//! The values that the protocol exchanges and emits.

use vstd::prelude::*;

verus! {

/// Identifies a round of the protocol. Rounds are counted from zero.
pub type RoundId = u32;

/// The digest of a serialized value.
pub type Digest = u64;

/// A signature over a digest.
pub type Signature = u64;

/// The public identity of a validator.
pub type ValidatorId = u64;

/// Identifies one instance of the protocol, that is one era.
pub type InstanceId = u64;

/// A value that the protocol decides on: a handle to a block.
pub type ConsensusValue = u64;

/// Identifies a peer of this node.
pub type NodeId = u64;

/// The voting weight of a validator.
pub type Weight = u64;

/// The position of a validator in the validator set of the era.
#[derive(Copy, Clone, Debug, PartialEq, Eq, Structural)]
pub struct ValidatorIndex(pub u32);

/// A moment in time, in milliseconds since the epoch.
#[derive(Copy, Clone, Debug, PartialEq, Eq, Structural)]
pub struct Timestamp(pub u64);

/// A span of time, in milliseconds.
#[derive(Copy, Clone, Debug, PartialEq, Eq, Structural)]
pub struct TimeDiff(pub u64);

impl Timestamp {
    /// The moment that lies `diff` after this one, or the latest moment there is.
    pub open spec fn spec_plus(self, diff: TimeDiff) -> Timestamp {
        if self.0 + diff.0 <= u64::MAX {
            Timestamp((self.0 + diff.0) as u64)
        } else {
            Timestamp(u64::MAX)
        }
    }

    /// The later of two moments.
    pub open spec fn spec_max(self, other: Timestamp) -> Timestamp {
        if self.0 >= other.0 {
            self
        } else {
            other
        }
    }

    /// The moment that lies `diff` after this one, or the latest moment there is.
    #[verifier::when_used_as_spec(spec_plus)]
    pub fn plus(self, diff: TimeDiff) -> (later: Timestamp)
        ensures
            later == self.spec_plus(diff),
    {
        Timestamp(self.0.saturating_add(diff.0))
    }

    /// The later of two moments.
    #[verifier::when_used_as_spec(spec_max)]
    pub fn max(self, other: Timestamp) -> (later: Timestamp)
        ensures
            later == self.spec_max(other),
    {
        if self.0 >= other.0 {
            self
        } else {
            other
        }
    }
}

/// Identifies a timer that the protocol asks its caller to set.
pub type TimerId = u8;

/// The timer that starts a new round.
pub const TIMER_ID_ROUND: TimerId = 0;

/// The timer for syncing with a random peer.
pub const TIMER_ID_SYNC_PEER: TimerId = 1;

/// The timer for voting to make a round skippable if no proposal was accepted.
pub const TIMER_ID_PROPOSAL_TIMEOUT: TimerId = 2;

/// The timer for reporting inactive validators.
pub const TIMER_ID_LOG_PARTICIPATION: TimerId = 3;

/// The number of rounds past the current one for which messages are accepted.
pub const MAX_FUTURE_ROUNDS: u32 = 10;

/// A proposal: a block, or none, on top of the proposal accepted in an earlier round.
/// A proposal without a block is a dummy, which closes an era past its last block.
#[derive(Copy, Clone, Debug, PartialEq, Eq, Structural)]
pub struct Proposal {
    /// When the proposal was made.
    pub timestamp: Timestamp,
    /// The proposed block, if any.
    pub maybe_block: Option<ConsensusValue>,
    /// The round of the proposal that this one builds on, if any.
    pub maybe_parent_round_id: Option<RoundId>,
}

/// What a validator signs in a round.
#[derive(Copy, Clone, Debug, PartialEq, Eq, Structural)]
pub enum Content {
    /// The leader's proposal.
    Proposal(Proposal),
    /// The statement that the signer has seen the proposal with this hash.
    Echo(Digest),
    /// A vote to commit the round (`true`) or to skip it (`false`).
    Vote(bool),
}

impl Content {
    /// Whether the content is a proposal.
    pub open spec fn spec_is_proposal(&self) -> bool {
        self is Proposal
    }

    /// Whether the content is a proposal.
    #[verifier::when_used_as_spec(spec_is_proposal)]
    pub fn is_proposal(&self) -> (res: bool)
        ensures
            res == self.spec_is_proposal(),
    {
        match self {
            Content::Proposal(_) => true,
            _ => false,
        }
    }
}

/// A message of the protocol.
#[derive(Copy, Clone, Debug, PartialEq, Eq, Structural)]
pub enum Message {
    /// A summary of what the sender knows of one round, for a window of at most 128
    /// validators that starts at `first_validator_idx` and wraps around. Bit `i` of a
    /// field stands for the validator `i` places after the first of the window.
    SyncState {
        /// The round that the summary is about.
        round_id: RoundId,
        /// The proposal hash with the most echoes, by weight.
        proposal_hash: Option<Digest>,
        /// Whether the sender has the proposal with that hash.
        proposal: bool,
        /// The first validator of the window.
        first_validator_idx: ValidatorIndex,
        /// The validators whose echo of the hash the sender has.
        echos: u128,
        /// The validators whose vote to commit the sender has.
        true_votes: u128,
        /// The validators whose vote to skip the sender has.
        false_votes: u128,
        /// The validators that the sender knows to be faulty.
        faulty: u128,
        /// The instance that the message belongs to.
        instance_id: InstanceId,
    },
    /// A signed statement of a validator.
    Signed {
        /// The round that the statement is about.
        round_id: RoundId,
        /// The instance that the message belongs to.
        instance_id: InstanceId,
        /// The statement.
        content: Content,
        /// The signer.
        validator_idx: ValidatorIndex,
        /// The signature over the round, the instance, the content and the signer.
        signature: Signature,
    },
}

impl Message {
    /// The summary of a round of which the sender knows nothing but the faults.
    pub fn new_empty_round_sync_state(
        round_id: RoundId,
        first_validator_idx: ValidatorIndex,
        faulty: u128,
        instance_id: InstanceId,
    ) -> (message: Message)
        ensures
            message == (Message::SyncState {
                round_id,
                proposal_hash: None,
                proposal: false,
                first_validator_idx,
                echos: 0,
                true_votes: 0,
                false_votes: 0,
                faulty,
                instance_id,
            }),
    {
        Message::SyncState {
            round_id,
            proposal_hash: None,
            proposal: false,
            first_validator_idx,
            echos: 0,
            true_votes: 0,
            false_votes: 0,
            faulty,
            instance_id,
        }
    }

    /// The instance that the message belongs to.
    pub open spec fn spec_instance_id(&self) -> InstanceId {
        match *self {
            Message::SyncState { instance_id, .. } => instance_id,
            Message::Signed { instance_id, .. } => instance_id,
        }
    }

    /// The instance that the message belongs to.
    #[verifier::when_used_as_spec(spec_instance_id)]
    pub fn instance_id(&self) -> (instance_id: InstanceId)
        ensures
            instance_id == self.spec_instance_id(),
    {
        match self {
            Message::SyncState { instance_id, .. } => *instance_id,
            Message::Signed { instance_id, .. } => *instance_id,
        }
    }
}

/// Why an incoming message was rejected.
#[derive(Copy, Clone, Debug, PartialEq, Eq, Structural)]
pub enum MessageError {
    /// The bytes do not encode a message.
    Malformed,
    /// The message belongs to another instance of the protocol.
    InvalidInstanceId,
    /// The message names a validator that is not in the set.
    InvalidValidatorIndex,
    /// The signature does not match the signer and the content.
    InvalidSignature,
    /// The proposal was not signed by the leader of its round.
    WrongLeader,
    /// The proposal builds on a round that is not earlier than its own.
    InvalidParent,
}

impl MessageError {
    /// Why the message was rejected, in words.
    pub open spec fn spec_message(&self) -> Seq<char> {
        match self {
            MessageError::Malformed => "malformed message"@,
            MessageError::InvalidInstanceId => "invalid instance ID"@,
            MessageError::InvalidValidatorIndex => "invalid validator index"@,
            MessageError::InvalidSignature => "invalid signature"@,
            MessageError::WrongLeader => "wrong leader"@,
            MessageError::InvalidParent => "invalid proposal: parent is not from an earlier round"@,
        }
    }

    /// Says in words why the message was rejected.
    pub fn message(&self) -> (message: String)
        ensures
            message@ == self.spec_message(),
    {
        match self {
            MessageError::Malformed => "malformed message".to_owned(),
            MessageError::InvalidInstanceId => "invalid instance ID".to_owned(),
            MessageError::InvalidValidatorIndex => "invalid validator index".to_owned(),
            MessageError::InvalidSignature => "invalid signature".to_owned(),
            MessageError::WrongLeader => "wrong leader".to_owned(),
            MessageError::InvalidParent => {
                "invalid proposal: parent is not from an earlier round".to_owned()
            },
        }
    }
}

/// What a proposer is given to build a block on.
#[derive(Clone, Debug, PartialEq, Eq)]
pub struct BlockContext {
    /// The timestamp of the block to be.
    pub timestamp: Timestamp,
    /// The blocks that the new one builds on, the nearest first.
    pub ancestor_values: Vec<ConsensusValue>,
}

/// A block with the context it was proposed in.
#[derive(Clone, Debug, PartialEq, Eq)]
pub struct ProposedBlock {
    /// The block.
    pub value: ConsensusValue,
    /// What it builds on.
    pub context: BlockContext,
}

/// What is known at the finalization of the last block of an era.
#[derive(Clone, Debug, PartialEq, Eq)]
pub struct TerminalBlockData {
    /// The validators with their weights.
    pub rewards: Vec<(ValidatorId, u64)>,
    /// The validators that did not take part.
    pub inactive_validators: Vec<ValidatorId>,
}

/// A block that the protocol has finalized.
#[derive(Clone, Debug, PartialEq, Eq)]
pub struct FinalizedBlock {
    /// The block.
    pub value: ConsensusValue,
    /// The timestamp of its proposal.
    pub timestamp: Timestamp,
    /// The number of blocks of this era that precede it.
    pub relative_height: u64,
    /// Always empty: faults are reported as evidence.
    pub equivocators: Vec<ValidatorId>,
    /// Present if this is the last block of the era.
    pub terminal_block_data: Option<TerminalBlockData>,
    /// The validator that proposed the block.
    pub proposer: ValidatorId,
}

/// An effect that the protocol asks its caller to bring about. The effects of one
/// call are to be brought about in the order in which they are returned.
#[derive(Clone, Debug, PartialEq, Eq)]
pub enum ProtocolOutcome {
    /// Send the message to all peers.
    CreatedGossipMessage(Vec<u8>),
    /// Send the message to one peer.
    CreatedTargetedMessage(Vec<u8>, NodeId),
    /// Send the message to a peer chosen at random.
    CreatedMessageToRandomPeer(Vec<u8>),
    /// Call `handle_timer` with the id at or after the time.
    ScheduleTimer(Timestamp, TimerId),
    /// Build a block in the context and call `propose` with it.
    CreateNewBlock(BlockContext),
    /// Validate the block and call `resolve_validity` with the verdict.
    ValidateConsensusValue {
        /// The peer that sent the proposal.
        sender: NodeId,
        /// The block to validate.
        proposed_block: ProposedBlock,
    },
    /// A block was finalized.
    FinalizedBlock(FinalizedBlock),
    /// A validator was found to be faulty.
    NewEvidence(ValidatorId),
    /// Send the peer the evidence against the validator, which another era holds.
    SendEvidence(NodeId, ValidatorId),
    /// The message of the peer was rejected; disconnect from it.
    InvalidIncomingMessage(Vec<u8>, NodeId, MessageError),
    /// The weight of the faulty validators is above the fault tolerance threshold:
    /// the era cannot be relied on any longer.
    FttExceeded,
}

/// The context of a block, as a mathematical value.
pub struct BlockContextView {
    pub timestamp: Timestamp,
    pub ancestor_values: Seq<ConsensusValue>,
}

impl View for BlockContext {
    type V = BlockContextView;

    open spec fn view(&self) -> BlockContextView {
        BlockContextView { timestamp: self.timestamp, ancestor_values: self.ancestor_values@ }
    }
}

/// A proposed block, as a mathematical value.
pub struct ProposedBlockView {
    pub value: ConsensusValue,
    pub context: BlockContextView,
}

impl View for ProposedBlock {
    type V = ProposedBlockView;

    open spec fn view(&self) -> ProposedBlockView {
        ProposedBlockView { value: self.value, context: self.context@ }
    }
}

/// The data of a terminal block, as a mathematical value.
pub struct TerminalBlockDataView {
    pub rewards: Seq<(ValidatorId, u64)>,
    pub inactive_validators: Seq<ValidatorId>,
}

impl View for TerminalBlockData {
    type V = TerminalBlockDataView;

    open spec fn view(&self) -> TerminalBlockDataView {
        TerminalBlockDataView {
            rewards: self.rewards@,
            inactive_validators: self.inactive_validators@,
        }
    }
}

/// A finalized block, as a mathematical value.
pub struct FinalizedBlockView {
    pub value: ConsensusValue,
    pub timestamp: Timestamp,
    pub relative_height: u64,
    pub equivocators: Seq<ValidatorId>,
    pub terminal_block_data: Option<TerminalBlockDataView>,
    pub proposer: ValidatorId,
}

impl View for FinalizedBlock {
    type V = FinalizedBlockView;

    open spec fn view(&self) -> FinalizedBlockView {
        FinalizedBlockView {
            value: self.value,
            timestamp: self.timestamp,
            relative_height: self.relative_height,
            equivocators: self.equivocators@,
            terminal_block_data: match self.terminal_block_data {
                Some(data) => Some(data@),
                None => None,
            },
            proposer: self.proposer,
        }
    }
}

/// An effect, as a mathematical value.
pub enum Effect {
    CreatedGossipMessage(Seq<u8>),
    CreatedTargetedMessage(Seq<u8>, NodeId),
    CreatedMessageToRandomPeer(Seq<u8>),
    ScheduleTimer(Timestamp, TimerId),
    CreateNewBlock(BlockContextView),
    ValidateConsensusValue { sender: NodeId, proposed_block: ProposedBlockView },
    FinalizedBlock(FinalizedBlockView),
    NewEvidence(ValidatorId),
    SendEvidence(NodeId, ValidatorId),
    InvalidIncomingMessage(Seq<u8>, NodeId, MessageError),
    FttExceeded,
}

impl View for ProtocolOutcome {
    type V = Effect;

    open spec fn view(&self) -> Effect {
        match *self {
            ProtocolOutcome::CreatedGossipMessage(bytes) => Effect::CreatedGossipMessage(bytes@),
            ProtocolOutcome::CreatedTargetedMessage(bytes, peer) => Effect::CreatedTargetedMessage(
                bytes@,
                peer,
            ),
            ProtocolOutcome::CreatedMessageToRandomPeer(bytes) => Effect::CreatedMessageToRandomPeer(
                bytes@,
            ),
            ProtocolOutcome::ScheduleTimer(at, timer_id) => Effect::ScheduleTimer(at, timer_id),
            ProtocolOutcome::CreateNewBlock(context) => Effect::CreateNewBlock(context@),
            ProtocolOutcome::ValidateConsensusValue { sender, proposed_block } => {
                Effect::ValidateConsensusValue { sender, proposed_block: proposed_block@ }
            },
            ProtocolOutcome::FinalizedBlock(block) => Effect::FinalizedBlock(block@),
            ProtocolOutcome::NewEvidence(validator) => Effect::NewEvidence(validator),
            ProtocolOutcome::SendEvidence(peer, validator) => Effect::SendEvidence(peer, validator),
            ProtocolOutcome::InvalidIncomingMessage(bytes, sender, error) => {
                Effect::InvalidIncomingMessage(bytes@, sender, error)
            },
            ProtocolOutcome::FttExceeded => Effect::FttExceeded,
        }
    }
}

/// The effects that a list of outcomes stands for, in the same order.
pub open spec fn effects(outcomes: Seq<ProtocolOutcome>) -> Seq<Effect> {
    outcomes.map_values(|outcome: ProtocolOutcome| outcome@)
}

/// Whether the effects begin with the given ones.
#[verifier::opaque]
pub open spec fn begins_with(effects: Seq<Effect>, first: Seq<Effect>) -> bool {
    first.len() <= effects.len() && effects.take(first.len() as int) == first
}

/// Effects begin with themselves.
pub proof fn lemma_begins_with_itself(effects: Seq<Effect>)
    ensures
        begins_with(effects, effects),
{
    reveal(begins_with);
    assert(effects.take(effects.len() as int) =~= effects);
}

/// What effects begin with, they begin with when more follow.
pub proof fn lemma_begins_with_more(effects: Seq<Effect>, more: Seq<Effect>, first: Seq<Effect>)
    requires
        begins_with(effects, first),
    ensures
        begins_with(effects + more, first),
{
    reveal(begins_with);
    assert((effects + more).take(first.len() as int) =~= effects.take(first.len() as int));
}

/// Effects that begin with others hold what those hold.
pub proof fn lemma_begins_with_contains(effects: Seq<Effect>, first: Seq<Effect>, effect: Effect)
    requires
        begins_with(effects, first),
        first.contains(effect),
    ensures
        effects.contains(effect),
{
    reveal(begins_with);
    let i = choose|i: int| 0 <= i < first.len() && first[i] == effect;
    assert(effects.take(first.len() as int)[i] == effect);
    assert(effects[i] == effect);
}

/// Effects that begin with others have the same first effect.
pub proof fn lemma_begins_with_first(effects: Seq<Effect>, first: Seq<Effect>)
    requires
        begins_with(effects, first),
        first.len() > 0,
    ensures
        effects.len() > 0,
        effects[0] == first[0],
{
    reveal(begins_with);
    assert(effects.take(first.len() as int)[0] == first[0]);
}

/// Whether none of the outcomes announces a fault: neither evidence against a
/// validator nor that the fault tolerance is exceeded.
#[verifier::opaque]
pub open spec fn calm(outcomes: Seq<ProtocolOutcome>) -> bool {
    forall|i: int|
        0 <= i < outcomes.len() ==> !((#[trigger] outcomes[i]) is NewEvidence) && !(outcomes[i]
            is FttExceeded)
}

/// No outcomes announce no fault.
pub proof fn lemma_calm_empty()
    ensures
        calm(Seq::<ProtocolOutcome>::empty()),
{
    reveal(calm);
}

/// Outcomes that announce no fault announce none with one more that does not.
pub proof fn lemma_calm_push(outcomes: Seq<ProtocolOutcome>, outcome: ProtocolOutcome)
    requires
        calm(outcomes),
        !(outcome is NewEvidence),
        !(outcome is FttExceeded),
    ensures
        calm(outcomes.push(outcome)),
{
    reveal(calm);
}

/// Outcomes that announce no fault from a place on announce none from there on
/// when more follow that announce none.
pub proof fn lemma_calm_after(outcomes: Seq<ProtocolOutcome>, more: Seq<ProtocolOutcome>, from: int)
    requires
        0 <= from <= outcomes.len(),
        calm(outcomes.skip(from)),
        calm(more),
    ensures
        calm((outcomes + more).skip(from)),
{
    reveal(calm);
    assert((outcomes + more).skip(from) =~= outcomes.skip(from) + more);
}

/// Appends the outcomes in `more` to `outcomes`, in their order.
pub fn extend_outcomes(outcomes: &mut Vec<ProtocolOutcome>, more: Vec<ProtocolOutcome>)
    ensures
        final(outcomes)@ == old(outcomes)@ + more@,
        effects(final(outcomes)@) == effects(old(outcomes)@) + effects(more@),
        final(outcomes).len() == old(outcomes).len() + more.len(),
        calm(old(outcomes)@) && calm(more@) ==> calm(final(outcomes)@),
{
    let mut more = more;
    let ghost added = more@;
    outcomes.append(&mut more);
    assert(effects(outcomes@) =~= effects(old(outcomes)@) + effects(added));
    proof {
        reveal(calm);
    }
}

} // verus!

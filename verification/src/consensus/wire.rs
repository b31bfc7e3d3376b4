//! The encoding of messages.
//!
//! A message is laid out as a tuple of plain values, which `bincode` turns into
//! bytes and back. The same layout, with the signature left zero, is what a
//! validator signs; a proposal is identified by the digest of its own layout.

use vstd::prelude::*;
use crate::consensus::context::Context;
use crate::consensus::types::{
    Content, Digest, InstanceId, Message, Proposal, RoundId, Timestamp, ValidatorIndex,
};

verus! {

/// A proposal on the wire: timestamp, block, parent round.
pub type WireProposal = (u64, Option<u64>, Option<u32>);

/// A content on the wire: a proposal, or else an echo, or else a vote.
pub type WireContent = Result<WireProposal, Result<u64, bool>>;

/// A summary on the wire: proposal hash, proposal present, and the bit fields of
/// echoes, votes to commit, votes to skip, and faults.
pub type WireSync = (Option<u64>, bool, u128, u128, u128, u128);

/// A message on the wire: round, instance, a content or else a summary, the signer
/// or the first validator of the window, and the signature or zero.
pub type Wire = (u32, u64, Result<WireContent, WireSync>, u32, u64);

/// The bytes that `bincode::serialize` gives for a wire tuple, or nothing where
/// it reports an error.
pub uninterp spec fn wire_encoding(wire: Wire) -> Option<Seq<u8>>;

/// The wire tuple that `bincode::deserialize` reads from the bytes, or nothing
/// where it reports an error.
pub uninterp spec fn wire_decoding(bytes: Seq<u8>) -> Option<Wire>;

/// `bincode::serialize` on a wire tuple. The result depends on the tuple alone;
/// nothing is claimed of the bytes themselves.
#[verifier::external_body]
fn encode_wire(wire: &Wire) -> (res: Option<Vec<u8>>)
    ensures
        match res {
            Some(bytes) => wire_encoding(*wire) == Some(bytes@),
            None => wire_encoding(*wire) is None,
        },
{
    bincode::serialize(wire).ok()
}

/// `bincode::deserialize` to a wire tuple. The result depends on the bytes alone;
/// nothing is claimed of which bytes give which tuple.
#[verifier::external_body]
fn decode_wire(bytes: &Vec<u8>) -> (res: Option<Wire>)
    ensures
        res == wire_decoding(bytes@),
{
    bincode::deserialize(bytes.as_slice()).ok()
}

/// The layout of a proposal.
pub open spec fn spec_wire_proposal(proposal: Proposal) -> WireProposal {
    (proposal.timestamp.0, proposal.maybe_block, proposal.maybe_parent_round_id)
}

/// The layout of a content.
pub open spec fn spec_wire_content(content: Content) -> WireContent {
    match content {
        Content::Proposal(proposal) => Ok(spec_wire_proposal(proposal)),
        Content::Echo(hash) => Err(Ok(hash)),
        Content::Vote(vote) => Err(Err(vote)),
    }
}

/// The content that a layout stands for.
pub open spec fn spec_content(wire: WireContent) -> Content {
    match wire {
        Ok((timestamp, maybe_block, maybe_parent_round_id)) => Content::Proposal(
            Proposal { timestamp: Timestamp(timestamp), maybe_block, maybe_parent_round_id },
        ),
        Err(Ok(hash)) => Content::Echo(hash),
        Err(Err(vote)) => Content::Vote(vote),
    }
}

/// The layout of a message.
pub open spec fn spec_wire(message: Message) -> Wire {
    match message {
        Message::SyncState {
            round_id,
            proposal_hash,
            proposal,
            first_validator_idx,
            echos,
            true_votes,
            false_votes,
            faulty,
            instance_id,
        } => (
            round_id,
            instance_id,
            Err((proposal_hash, proposal, echos, true_votes, false_votes, faulty)),
            first_validator_idx.0,
            0,
        ),
        Message::Signed { round_id, instance_id, content, validator_idx, signature } => (
            round_id,
            instance_id,
            Ok(spec_wire_content(content)),
            validator_idx.0,
            signature,
        ),
    }
}

/// The message that a layout stands for, if it stands for one: a summary carries
/// no signature.
pub open spec fn spec_message(wire: Wire) -> Option<Message> {
    let (round_id, instance_id, body, validator_idx, signature) = wire;
    match body {
        Ok(content) => Some(
            Message::Signed {
                round_id,
                instance_id,
                content: spec_content(content),
                validator_idx: ValidatorIndex(validator_idx),
                signature,
            },
        ),
        Err((proposal_hash, proposal, echos, true_votes, false_votes, faulty)) => {
            if signature == 0 {
                Some(
                    Message::SyncState {
                        round_id,
                        proposal_hash,
                        proposal,
                        first_validator_idx: ValidatorIndex(validator_idx),
                        echos,
                        true_votes,
                        false_votes,
                        faulty,
                        instance_id,
                    },
                )
            } else {
                None
            }
        },
    }
}

/// The layout of a message stands for that message and no other.
pub proof fn lemma_wire_roundtrip(message: Message)
    ensures
        spec_message(spec_wire(message)) == Some(message),
{
}

/// The bytes of a message; none if it cannot be encoded.
pub open spec fn spec_serialize(message: Message) -> Seq<u8> {
    match wire_encoding(spec_wire(message)) {
        Some(bytes) => bytes,
        None => Seq::empty(),
    }
}

/// The message that the bytes encode, if they encode one.
pub open spec fn spec_deserialize(bytes: Seq<u8>) -> Option<Message> {
    match wire_decoding(bytes) {
        Some(wire) => spec_message(wire),
        None => None,
    }
}

/// What a validator signs: the bytes of the round, the instance, the content and
/// the signer, laid out as a message whose signature is zero.
pub open spec fn spec_signed_fields(
    round_id: RoundId,
    instance_id: InstanceId,
    content: Content,
    validator_idx: ValidatorIndex,
) -> Seq<u8> {
    spec_serialize(Message::Signed { round_id, instance_id, content, validator_idx, signature: 0 })
}

/// What identifies a proposal: its bytes, laid out as the content of a message
/// whose other fields are zero.
pub open spec fn spec_proposal_fields(proposal: Proposal) -> Seq<u8> {
    spec_signed_fields(0, 0, Content::Proposal(proposal), ValidatorIndex(0))
}

/// Lays a content out.
fn wire_content(content: Content) -> (wire: WireContent)
    ensures
        wire == spec_wire_content(content),
{
    match content {
        Content::Proposal(proposal) => Ok(
            (proposal.timestamp.0, proposal.maybe_block, proposal.maybe_parent_round_id),
        ),
        Content::Echo(hash) => Err(Ok(hash)),
        Content::Vote(vote) => Err(Err(vote)),
    }
}

/// Reads a content from its layout.
fn content_of(wire: WireContent) -> (content: Content)
    ensures
        content == spec_content(wire),
{
    match wire {
        Ok((timestamp, maybe_block, maybe_parent_round_id)) => Content::Proposal(
            Proposal { timestamp: Timestamp(timestamp), maybe_block, maybe_parent_round_id },
        ),
        Err(Ok(hash)) => Content::Echo(hash),
        Err(Err(vote)) => Content::Vote(vote),
    }
}

impl Message {
    /// Lays the message out.
    fn wire(&self) -> (wire: Wire)
        ensures
            wire == spec_wire(*self),
    {
        match *self {
            Message::SyncState {
                round_id,
                proposal_hash,
                proposal,
                first_validator_idx,
                echos,
                true_votes,
                false_votes,
                faulty,
                instance_id,
            } => (
                round_id,
                instance_id,
                Err((proposal_hash, proposal, echos, true_votes, false_votes, faulty)),
                first_validator_idx.0,
                0,
            ),
            Message::Signed { round_id, instance_id, content, validator_idx, signature } => (
                round_id,
                instance_id,
                Ok(wire_content(content)),
                validator_idx.0,
                signature,
            ),
        }
    }

    /// Encodes the message. A message that cannot be encoded gives no bytes.
    pub fn serialize(&self) -> (bytes: Vec<u8>)
        ensures
            bytes@ == spec_serialize(*self),
    {
        let wire = self.wire();
        match encode_wire(&wire) {
            Some(bytes) => bytes,
            None => Vec::new(),
        }
    }

    /// Decodes a message. Bytes that encode a summary with a signature are
    /// rejected like bytes that encode nothing.
    pub fn deserialize(bytes: &Vec<u8>) -> (message: Option<Message>)
        ensures
            message == spec_deserialize(bytes@),
    {
        let (round_id, instance_id, body, validator_idx, signature) = match decode_wire(bytes) {
            Some(wire) => wire,
            None => {
                return None;
            },
        };
        match body {
            Ok(content) => Some(
                Message::Signed {
                    round_id,
                    instance_id,
                    content: content_of(content),
                    validator_idx: ValidatorIndex(validator_idx),
                    signature,
                },
            ),
            Err((proposal_hash, proposal, echos, true_votes, false_votes, faulty)) => {
                if signature == 0 {
                    Some(
                        Message::SyncState {
                            round_id,
                            proposal_hash,
                            proposal,
                            first_validator_idx: ValidatorIndex(validator_idx),
                            echos,
                            true_votes,
                            false_votes,
                            faulty,
                            instance_id,
                        },
                    )
                } else {
                    None
                }
            },
        }
    }
}

/// The digest that a validator signs for a content in a round.
pub open spec fn spec_signed_hash<C: Context>(
    round_id: RoundId,
    instance_id: InstanceId,
    content: Content,
    validator_idx: ValidatorIndex,
) -> Digest {
    C::spec_hash(spec_signed_fields(round_id, instance_id, content, validator_idx))
}

/// Computes the digest that a validator signs for a content in a round.
pub fn signed_hash<C: Context>(
    round_id: RoundId,
    instance_id: InstanceId,
    content: Content,
    validator_idx: ValidatorIndex,
) -> (hash: Digest)
    ensures
        hash == spec_signed_hash::<C>(round_id, instance_id, content, validator_idx),
{
    let message = Message::Signed { round_id, instance_id, content, validator_idx, signature: 0 };
    let bytes = message.serialize();
    C::hash(&bytes)
}

impl Proposal {
    /// The digest that identifies the proposal.
    pub open spec fn spec_hash<C: Context>(self) -> Digest {
        C::spec_hash(spec_proposal_fields(self))
    }

    /// Computes the digest that identifies the proposal.
    pub fn hash<C: Context>(&self) -> (hash: Digest)
        ensures
            hash == self.spec_hash::<C>(),
    {
        signed_hash::<C>(0, 0, Content::Proposal(*self), ValidatorIndex(0))
    }
}

} // verus!

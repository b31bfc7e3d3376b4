//! The state of one round: the proposals, echoes and votes received, and what has
//! been concluded from them.

use vstd::prelude::*;
use crate::consensus::context::Context;
use crate::consensus::types::{Content, Digest, Proposal, Signature, ValidatorIndex};

verus! {

/// What has been concluded in a round. Once set, a field is never changed.
#[derive(Copy, Clone, Debug, PartialEq, Eq, Structural)]
pub struct RoundOutcome {
    /// The height of the accepted proposal, if one is accepted: the number of
    /// accepted proposals that it builds on.
    pub accepted_proposal_height: Option<u64>,
    /// The hash of the proposal that a quorum has echoed, if there is one.
    pub quorum_echos: Option<Digest>,
    /// The vote that a quorum has cast, if there is one.
    pub quorum_votes: Option<bool>,
}

impl RoundOutcome {
    /// The outcome of a round in which nothing has been concluded.
    pub open spec fn undecided() -> RoundOutcome {
        RoundOutcome { accepted_proposal_height: None, quorum_echos: None, quorum_votes: None }
    }
}

impl Default for RoundOutcome {
    fn default() -> (outcome: RoundOutcome)
        ensures
            outcome == RoundOutcome::undecided(),
    {
        RoundOutcome { accepted_proposal_height: None, quorum_echos: None, quorum_votes: None }
    }
}

/// A proposal as a round holds it.
#[derive(Copy, Clone, Debug, PartialEq, Eq, Structural)]
pub struct StoredProposal {
    /// The hash of the proposal.
    pub hash: Digest,
    /// The proposal.
    pub proposal: Proposal,
    /// The signature of the leader.
    pub signature: Signature,
}

/// The echoes of one proposal hash, by validator.
#[derive(Debug)]
pub struct EchoSet {
    /// The hash that was echoed.
    pub hash: Digest,
    /// The signature of each validator that echoed the hash.
    pub signatures: Vec<Option<Signature>>,
}

/// The state of a round. Proposals and echo sets are kept in the order in which
/// their hashes were first seen.
#[derive(Debug)]
pub struct Round {
    /// The proposals received, each hash once.
    pub proposals: Vec<StoredProposal>,
    /// The echoes received, each hash once.
    pub echos: Vec<EchoSet>,
    /// The votes to commit the round, by validator.
    pub votes_true: Vec<Option<Signature>>,
    /// The votes to skip the round, by validator.
    pub votes_false: Vec<Option<Signature>>,
    /// What has been concluded.
    pub outcome: RoundOutcome,
}

impl Round {
    /// The position of the proposal with the given hash, if the round holds it.
    pub open spec fn proposal_position(&self, hash: Digest) -> Option<int> {
        if exists|i: int| 0 <= i < self.proposals.len() && self.proposals[i].hash == hash {
            Some(choose|i: int| 0 <= i < self.proposals.len() && self.proposals[i].hash == hash)
        } else {
            None
        }
    }

    /// Whether the round holds the proposal with the given hash.
    pub open spec fn has_proposal(&self, hash: Digest) -> bool {
        exists|i: int| 0 <= i < self.proposals.len() && self.proposals[i].hash == hash
    }

    /// The proposal with the given hash, if the round holds it.
    pub open spec fn proposal(&self, hash: Digest) -> Option<StoredProposal> {
        match self.proposal_position(hash) {
            Some(i) => Some(self.proposals[i]),
            None => None,
        }
    }

    /// Whether the round holds echoes of the given hash.
    pub open spec fn has_echos(&self, hash: Digest) -> bool {
        exists|i: int| 0 <= i < self.echos.len() && self.echos[i].hash == hash
    }

    /// The position of the echo set of the given hash, if the round holds one.
    pub open spec fn echo_position(&self, hash: Digest) -> int {
        choose|i: int| 0 <= i < self.echos.len() && self.echos[i].hash == hash
    }

    /// The signatures under the echoes of the given hash, by validator.
    pub open spec fn echo_signatures(&self, hash: Digest) -> Seq<Option<Signature>> {
        if self.has_echos(hash) {
            self.echos[self.echo_position(hash)].signatures@
        } else {
            Seq::empty()
        }
    }

    /// The signatures under the votes for `vote`, by validator.
    pub open spec fn votes(&self, vote: bool) -> Seq<Option<Signature>> {
        if vote {
            self.votes_true@
        } else {
            self.votes_false@
        }
    }

    /// Whether the validator has echoed a hash in this round.
    pub open spec fn spec_has_echoed(&self, validator_idx: ValidatorIndex) -> bool {
        exists|i: int|
            0 <= i < self.echos.len() && (#[trigger] self.echos[i]).signatures@[validator_idx.0 as int] is Some
    }

    /// Whether the validator has voted in this round.
    pub open spec fn spec_has_voted(&self, validator_idx: ValidatorIndex) -> bool {
        self.votes_true@[validator_idx.0 as int] is Some
            || self.votes_false@[validator_idx.0 as int] is Some
    }

    /// Whether a proposal is accepted in this round.
    pub open spec fn spec_has_accepted_proposal(&self) -> bool {
        self.outcome.accepted_proposal_height is Some
    }

    /// The accepted proposal with its height, if the round has one and holds it.
    pub open spec fn spec_accepted_proposal(&self) -> Option<(u64, Proposal)> {
        match (self.outcome.accepted_proposal_height, self.outcome.quorum_echos) {
            (Some(height), Some(hash)) => match self.proposal(hash) {
                Some(stored) => Some((height, stored.proposal)),
                None => None,
            },
            _ => None,
        }
    }

    /// Whether the round is skippable: a quorum has voted to skip it.
    pub open spec fn is_skippable(&self) -> bool {
        self.outcome.quorum_votes == Some(false)
    }

    /// Whether the round already holds the content from the validator.
    pub open spec fn spec_contains<C: Context>(
        &self,
        content: Content,
        validator_idx: ValidatorIndex,
    ) -> bool {
        match content {
            Content::Proposal(proposal) => self.has_proposal(proposal.spec_hash::<C>()),
            Content::Echo(hash) => self.echo_signatures(hash).len() > validator_idx.0
                && self.echo_signatures(hash)[validator_idx.0 as int] is Some,
            Content::Vote(vote) => self.votes(vote)[validator_idx.0 as int] is Some,
        }
    }

    /// The invariant of a round among `count` validators: every signature map has a
    /// place for each validator, no hash is held twice, no echo set is empty, no
    /// validator has echoed two hashes, and none has voted both ways.
    pub open spec fn wf(&self, count: int) -> bool {
        &&& self.votes_true.len() == count
        &&& self.votes_false.len() == count
        &&& forall|i: int|
            0 <= i < self.echos.len() ==> (#[trigger] self.echos[i]).signatures.len() == count
        &&& forall|i: int, j: int|
            0 <= i < j < self.echos.len() ==> (#[trigger] self.echos[i]).hash != (
            #[trigger] self.echos[j]).hash
        &&& forall|i: int, j: int|
            0 <= i < j < self.proposals.len() ==> (#[trigger] self.proposals[i]).hash != (
            #[trigger] self.proposals[j]).hash
        &&& forall|i: int, j: int, v: int|
            0 <= i < j < self.echos.len() && 0 <= v < count ==> !(
            #[trigger] self.echos[i].signatures@[v] is Some
                && #[trigger] self.echos[j].signatures@[v] is Some)
        &&& forall|v: int|
            0 <= v < count ==> !(#[trigger] self.votes_true@[v] is Some && self.votes_false@[v] is Some)
    }

    /// Creates a round with no proposals, echoes or votes, and nothing concluded.
    pub fn new(validator_count: usize) -> (round: Round)
        ensures
            round.wf(validator_count as int),
            round.proposals.len() == 0,
            round.echos.len() == 0,
            round.outcome == RoundOutcome::undecided(),
            forall|v: int| 0 <= v < validator_count ==> round.votes_true@[v] is None,
            forall|v: int| 0 <= v < validator_count ==> round.votes_false@[v] is None,
    {
        Round {
            proposals: Vec::new(),
            echos: Vec::new(),
            votes_true: no_signatures(validator_count),
            votes_false: no_signatures(validator_count),
            outcome: RoundOutcome::default(),
        }
    }

    /// Finds the proposal with the given hash.
    pub fn find_proposal(&self, hash: Digest) -> (position: Option<usize>)
        ensures
            match position {
                Some(i) => i < self.proposals.len() && self.proposals[i as int].hash == hash,
                None => !self.has_proposal(hash),
            },
    {
        let mut i: usize = 0;
        while i < self.proposals.len()
            invariant
                i <= self.proposals.len(),
                forall|j: int| 0 <= j < i ==> self.proposals[j].hash != hash,
            decreases self.proposals.len() - i,
        {
            if self.proposals[i].hash == hash {
                return Some(i);
            }
            i += 1;
        }
        None
    }

    /// Finds the echo set of the given hash.
    pub fn find_echos(&self, hash: Digest) -> (position: Option<usize>)
        ensures
            match position {
                Some(i) => i < self.echos.len() && self.echos[i as int].hash == hash,
                None => !self.has_echos(hash),
            },
    {
        let mut i: usize = 0;
        while i < self.echos.len()
            invariant
                i <= self.echos.len(),
                forall|j: int| 0 <= j < i ==> self.echos[j].hash != hash,
            decreases self.echos.len() - i,
        {
            if self.echos[i].hash == hash {
                return Some(i);
            }
            i += 1;
        }
        None
    }

    /// Where no hash is held twice, the echo set with a hash is the only one, and
    /// the echoes of the hash are those of that set.
    pub proof fn lemma_echo_position(&self, count: int, i: int)
        requires
            self.wf(count),
            0 <= i < self.echos.len(),
        ensures
            self.has_echos(self.echos[i].hash),
            self.echo_position(self.echos[i].hash) == i,
            self.echo_signatures(self.echos[i].hash) == self.echos[i].signatures@,
    {
        let hash = self.echos[i].hash;
        let j = self.echo_position(hash);
        if j < i {
            assert(self.echos[j].hash != self.echos[i].hash);
        } else if i < j {
            assert(self.echos[i].hash != self.echos[j].hash);
        }
    }

    /// Rounds that hold the same proposals hold the same proposal with a hash.
    pub proof fn lemma_same_proposals(&self, other: &Round, count: int, hash: Digest)
        requires
            self.wf(count),
            other.wf(count),
            self.proposals@ == other.proposals@,
        ensures
            self.has_proposal(hash) == other.has_proposal(hash),
            self.proposal(hash) == other.proposal(hash),
    {
        if other.has_proposal(hash) {
            let k = other.proposal_position(hash).unwrap();
            other.lemma_proposal_position(count, k);
            assert(self.proposals[k] == other.proposals[k]);
            self.lemma_proposal_position(count, k);
        } else if self.has_proposal(hash) {
            let k = self.proposal_position(hash).unwrap();
            assert(other.proposals[k] == self.proposals[k]);
        }
    }

    /// Rounds with the same echo sets have the same echoes of every hash.
    pub proof fn lemma_same_echos(&self, other: &Round, count: int, hash: Digest)
        requires
            self.wf(count),
            other.wf(count),
            self.echos == other.echos,
        ensures
            self.has_echos(hash) == other.has_echos(hash),
            self.echo_signatures(hash) == other.echo_signatures(hash),
    {
        if other.has_echos(hash) {
            let k = other.echo_position(hash);
            other.lemma_echo_position(count, k);
            self.lemma_echo_position(count, k);
        }
    }

    /// Where no hash is held twice, the proposal with a hash is the only one.
    pub proof fn lemma_proposal_position(&self, count: int, i: int)
        requires
            self.wf(count),
            0 <= i < self.proposals.len(),
        ensures
            self.has_proposal(self.proposals[i].hash),
            self.proposal_position(self.proposals[i].hash) == Some(i),
            self.proposal(self.proposals[i].hash) == Some(self.proposals[i]),
    {
        let hash = self.proposals[i].hash;
        let j = self.proposal_position(hash).unwrap();
        if j < i {
            assert(self.proposals[j].hash != self.proposals[i].hash);
        } else if i < j {
            assert(self.proposals[i].hash != self.proposals[j].hash);
        }
    }

    /// Inserts a proposal and returns its hash. Returns `None` if the round already
    /// held a proposal with that hash, which is then kept.
    pub fn insert_proposal<C: Context>(&mut self, proposal: Proposal, signature: Signature) -> (res:
        Option<Digest>)
        requires
            old(self).wf(old(self).votes_true.len() as int),
        ensures
            final(self).wf(old(self).votes_true.len() as int),
            final(self).echos == old(self).echos,
            final(self).votes_true == old(self).votes_true,
            final(self).votes_false == old(self).votes_false,
            final(self).outcome == old(self).outcome,
            ({
                let hash = proposal.spec_hash::<C>();
                let stored = StoredProposal { hash, proposal, signature };
                if old(self).has_proposal(hash) {
                    res is None && final(self).proposals@ == old(self).proposals@
                } else {
                    res == Some(hash) && final(self).proposals@ == old(self).proposals@.push(
                        stored,
                    )
                }
            }),
    {
        let hash = proposal.hash::<C>();
        let stored = StoredProposal { hash, proposal, signature };
        match self.find_proposal(hash) {
            Some(_) => None,
            None => {
                self.proposals.push(stored);
                Some(hash)
            },
        }
    }

    /// Whether the validator has echoed a hash other than `hash` in this round.
    pub open spec fn echoed_other(&self, hash: Digest, validator_idx: ValidatorIndex) -> bool {
        exists|i: int|
            0 <= i < self.echos.len() && (#[trigger] self.echos[i]).hash != hash
                && self.echos[i].signatures@[validator_idx.0 as int] is Some
    }

    /// Inserts an echo; returns `false` if the round already held an echo of the
    /// hash from the validator, which is then kept.
    pub fn insert_echo(&mut self, hash: Digest, validator_idx: ValidatorIndex, signature: Signature) -> (fresh:
        bool)
        requires
            old(self).wf(old(self).votes_true.len() as int),
            validator_idx.0 < old(self).votes_true.len(),
            !old(self).echoed_other(hash, validator_idx),
        ensures
            final(self).wf(old(self).votes_true.len() as int),
            final(self).proposals == old(self).proposals,
            final(self).votes_true == old(self).votes_true,
            final(self).votes_false == old(self).votes_false,
            final(self).outcome == old(self).outcome,
            fresh == !old(self).spec_contains_echo(hash, validator_idx),
            final(self).has_echos(hash),
            !fresh ==> final(self).echos == old(self).echos,
            fresh ==> final(self).echo_signatures(hash) == (if old(self).has_echos(hash) {
                old(self).echo_signatures(hash)
            } else {
                Seq::new(old(self).votes_true.len() as nat, |v: int| None::<Signature>)
            }).update(validator_idx.0 as int, Some(signature)),
            forall|other: Digest|
                other != hash ==> #[trigger] final(self).has_echos(other) == old(self).has_echos(
                    other,
                ),
            forall|other: Digest|
                other != hash ==> #[trigger] final(self).echo_signatures(other) == old(self).echo_signatures(other),
            final(self).echos.len() == old(self).echos.len() + if old(self).has_echos(hash) {
                0int
            } else {
                1int
            },
            forall|i: int|
                0 <= i < old(self).echos.len() ==> (#[trigger] final(self).echos[i]).hash == old(self).echos[i].hash,
    {
        let count = self.votes_true.len();
        let ghost before = *self;
        match self.find_echos(hash) {
            Some(i) => {
                proof {
                    self.lemma_echo_position(count as int, i as int);
                }
                let fresh = self.echos[i].signatures[validator_idx.0 as usize].is_none();
                if !fresh {
                    return false;
                }
                self.echos[i].signatures[validator_idx.0 as usize] = Some(signature);
                proof {
                    assert forall|a: int, b: int, v: int|
                        0 <= a < b < self.echos.len() && 0 <= v < count implies !(
                    #[trigger] self.echos[a].signatures@[v] is Some
                        && #[trigger] self.echos[b].signatures@[v] is Some) by {
                        assert(before.echos[a].signatures@[v] is Some
                            && before.echos[b].signatures@[v] is Some ==> false);
                        if a != i {
                            assert(self.echos[a] == before.echos[a]);
                        }
                        if b != i {
                            assert(self.echos[b] == before.echos[b]);
                        }
                    }
                    assert(self.wf(count as int));
                    self.lemma_echo_position(count as int, i as int);
                    assert forall|other: Digest| other != hash implies #[trigger] self.has_echos(
                        other,
                    ) == before.has_echos(other) && self.echo_signatures(other)
                        == before.echo_signatures(other) by {
                        self.lemma_echos_unchanged(&before, count as int, i as int, other);
                    }
                }
                fresh
            },
            None => {
                let mut signatures = no_signatures(count);
                signatures[validator_idx.0 as usize] = Some(signature);
                self.echos.push(EchoSet { hash, signatures });
                proof {
                    let last = before.echos.len() as int;
                    assert forall|a: int, b: int, v: int|
                        0 <= a < b < self.echos.len() && 0 <= v < count implies !(
                    #[trigger] self.echos[a].signatures@[v] is Some
                        && #[trigger] self.echos[b].signatures@[v] is Some) by {
                        if b == last {
                            assert(self.echos[a] == before.echos[a]);
                            assert(before.echos[a].hash != hash);
                        } else {
                            assert(self.echos[a] == before.echos[a]);
                            assert(self.echos[b] == before.echos[b]);
                        }
                    }
                    assert forall|a: int, b: int| 0 <= a < b < self.echos.len() implies (
                    #[trigger] self.echos[a]).hash != (#[trigger] self.echos[b]).hash by {
                        assert(self.echos[a] == before.echos[a]);
                        if b < last {
                            assert(self.echos[b] == before.echos[b]);
                        }
                    }
                    assert(self.wf(count as int));
                    self.lemma_echo_position(count as int, last);
                    assert(self.echo_signatures(hash) =~= Seq::new(
                        count as nat,
                        |v: int| None::<Signature>,
                    ).update(validator_idx.0 as int, Some(signature)));
                    assert forall|other: Digest| other != hash implies #[trigger] self.has_echos(
                        other,
                    ) == before.has_echos(other) && self.echo_signatures(other)
                        == before.echo_signatures(other) by {
                        if before.has_echos(other) {
                            let k = before.echo_position(other);
                            assert(self.echos[k] == before.echos[k]);
                            self.lemma_echo_position(count as int, k);
                        } else if self.has_echos(other) {
                            let k = self.echo_position(other);
                            assert(k < last);
                            assert(self.echos[k] == before.echos[k]);
                        }
                    }
                }
                true
            },
        }
    }

    /// Changing the echo set at one position leaves those of other hashes as they
    /// were.
    pub proof fn lemma_echos_unchanged(&self, before: &Round, count: int, i: int, other: Digest)
        requires
            self.wf(count),
            before.wf(count),
            0 <= i < self.echos.len(),
            self.echos.len() == before.echos.len(),
            forall|k: int|
                0 <= k < self.echos.len() ==> (#[trigger] self.echos[k]).hash == before.echos[k].hash,
            forall|k: int|
                0 <= k < self.echos.len() && k != i ==> (#[trigger] self.echos[k]) == before.echos[k],
            other != self.echos[i].hash,
        ensures
            self.has_echos(other) == before.has_echos(other),
            self.echo_signatures(other) == before.echo_signatures(other),
    {
        if before.has_echos(other) {
            let k = before.echo_position(other);
            assert(self.echos[k].hash == other);
            self.lemma_echo_position(count, k);
        } else if self.has_echos(other) {
            let k = self.echo_position(other);
            assert(before.echos[k].hash == other);
        }
    }

    /// Whether the round holds an echo of the hash from the validator.
    pub open spec fn spec_contains_echo(&self, hash: Digest, validator_idx: ValidatorIndex) -> bool {
        self.echo_signatures(hash).len() > validator_idx.0 && self.echo_signatures(
            hash,
        )[validator_idx.0 as int] is Some
    }

    /// Inserts a vote; returns `false` if the round already held the same vote from
    /// the validator, which is then kept.
    pub fn insert_vote(&mut self, vote: bool, validator_idx: ValidatorIndex, signature: Signature) -> (fresh:
        bool)
        requires
            old(self).wf(old(self).votes_true.len() as int),
            validator_idx.0 < old(self).votes_true.len(),
            old(self).votes(!vote)[validator_idx.0 as int] is None,
        ensures
            final(self).wf(old(self).votes_true.len() as int),
            final(self).proposals == old(self).proposals,
            final(self).echos == old(self).echos,
            final(self).outcome == old(self).outcome,
            final(self).votes(!vote) == old(self).votes(!vote),
            fresh == old(self).votes(vote)[validator_idx.0 as int] is None,
            final(self).votes(vote) == (if fresh {
                old(self).votes(vote).update(validator_idx.0 as int, Some(signature))
            } else {
                old(self).votes(vote)
            }),
    {
        let index = validator_idx.0 as usize;
        if vote {
            if self.votes_true[index].is_none() {
                self.votes_true[index] = Some(signature);
                true
            } else {
                false
            }
        } else {
            if self.votes_false[index].is_none() {
                self.votes_false[index] = Some(signature);
                true
            } else {
                false
            }
        }
    }

    /// Returns whether the validator has already sent an echo in this round.
    pub fn has_echoed(&self, validator_idx: ValidatorIndex) -> (res: bool)
        requires
            self.wf(self.votes_true.len() as int),
            validator_idx.0 < self.votes_true.len(),
        ensures
            res == self.spec_has_echoed(validator_idx),
    {
        let mut i: usize = 0;
        while i < self.echos.len()
            invariant
                i <= self.echos.len(),
                self.wf(self.votes_true.len() as int),
                validator_idx.0 < self.votes_true.len(),
                forall|j: int|
                    0 <= j < i ==> (#[trigger] self.echos[j]).signatures@[validator_idx.0 as int] is None,
            decreases self.echos.len() - i,
        {
            if self.echos[i].signatures[validator_idx.0 as usize].is_some() {
                return true;
            }
            i += 1;
        }
        false
    }

    /// Returns whether the validator has already cast a vote in this round, either
    /// way.
    pub fn has_voted(&self, validator_idx: ValidatorIndex) -> (res: bool)
        requires
            self.wf(self.votes_true.len() as int),
            validator_idx.0 < self.votes_true.len(),
        ensures
            res == self.spec_has_voted(validator_idx),
    {
        self.votes_true[validator_idx.0 as usize].is_some()
            || self.votes_false[validator_idx.0 as usize].is_some()
    }

    /// Returns whether a proposal was accepted in this round.
    pub fn has_accepted_proposal(&self) -> (res: bool)
        ensures
            res == self.spec_has_accepted_proposal(),
    {
        self.outcome.accepted_proposal_height.is_some()
    }

    /// Returns the accepted proposal, if any, together with its height.
    pub fn accepted_proposal(&self) -> (res: Option<(u64, Proposal)>)
        requires
            self.wf(self.votes_true.len() as int),
        ensures
            res == self.spec_accepted_proposal(),
    {
        let height = match self.outcome.accepted_proposal_height {
            Some(height) => height,
            None => {
                return None;
            },
        };
        let hash = match self.outcome.quorum_echos {
            Some(hash) => hash,
            None => {
                return None;
            },
        };
        match self.find_proposal(hash) {
            Some(i) => {
                proof {
                    self.lemma_proposal_position(self.votes_true.len() as int, i as int);
                }
                Some((height, self.proposals[i].proposal))
            },
            None => None,
        }
    }

    /// Checks whether the round has already received this content from the
    /// validator.
    pub fn contains<C: Context>(&self, content: &Content, validator_idx: ValidatorIndex) -> (res:
        bool)
        requires
            self.wf(self.votes_true.len() as int),
            validator_idx.0 < self.votes_true.len(),
        ensures
            res == self.spec_contains::<C>(*content, validator_idx),
    {
        match content {
            Content::Proposal(proposal) => self.find_proposal(proposal.hash::<C>()).is_some(),
            Content::Echo(hash) => match self.find_echos(*hash) {
                Some(i) => {
                    proof {
                        self.lemma_echo_position(self.votes_true.len() as int, i as int);
                    }
                    self.echos[i].signatures[validator_idx.0 as usize].is_some()
                },
                None => false,
            },
            Content::Vote(vote) => if *vote {
                self.votes_true[validator_idx.0 as usize].is_some()
            } else {
                self.votes_false[validator_idx.0 as usize].is_some()
            },
        }
    }
}

impl Round {
    /// The signature under the echo of the hash from the validator, if the round
    /// holds one.
    pub open spec fn echo_signature(&self, hash: Digest, v: int) -> Option<Signature> {
        if 0 <= v < self.echo_signatures(hash).len() {
            self.echo_signatures(hash)[v]
        } else {
            None
        }
    }

    /// Finds an echo of the validator for a hash other than `hash`: the first in
    /// the order in which the hashes were first seen.
    pub fn find_other_echo(&self, hash: Digest, validator_idx: ValidatorIndex) -> (res: Option<
        (Digest, Signature),
    >)
        requires
            self.wf(self.votes_true.len() as int),
            validator_idx.0 < self.votes_true.len(),
        ensures
            res is Some == self.echoed_other(hash, validator_idx),
            res matches Some((other, signature)) ==> other != hash && self.echo_signature(
                other,
                validator_idx.0 as int,
            ) == Some(signature),
    {
        let mut i: usize = 0;
        while i < self.echos.len()
            invariant
                i <= self.echos.len(),
                self.wf(self.votes_true.len() as int),
                validator_idx.0 < self.votes_true.len(),
                forall|j: int|
                    0 <= j < i ==> !((#[trigger] self.echos[j]).hash != hash
                        && self.echos[j].signatures@[validator_idx.0 as int] is Some),
            decreases self.echos.len() - i,
        {
            if self.echos[i].hash != hash {
                match self.echos[i].signatures[validator_idx.0 as usize] {
                    Some(signature) => {
                        proof {
                            self.lemma_echo_position(self.votes_true.len() as int, i as int);
                        }
                        return Some((self.echos[i].hash, signature));
                    },
                    None => {},
                }
            }
            i += 1;
        }
        None
    }

    /// Returns the signatures under the echoes of the hash, by validator, if the
    /// round holds echoes of it.
    pub fn echo_map(&self, hash: Digest) -> (res: Option<&Vec<Option<Signature>>>)
        requires
            self.wf(self.votes_true.len() as int),
        ensures
            res is Some == self.has_echos(hash),
            res matches Some(map) ==> map@ == self.echo_signatures(hash) && map.len()
                == self.votes_true.len(),
    {
        match self.find_echos(hash) {
            Some(i) => {
                proof {
                    self.lemma_echo_position(self.votes_true.len() as int, i as int);
                }
                Some(&self.echos[i].signatures)
            },
            None => None,
        }
    }

    /// Removes the votes and echoes of the validator. Echo sets that become empty
    /// are dropped.
    pub fn purge(&mut self, validator_idx: ValidatorIndex)
        requires
            old(self).wf(old(self).votes_true.len() as int),
            validator_idx.0 < old(self).votes_true.len(),
        ensures
            final(self).wf(old(self).votes_true.len() as int),
            final(self).proposals == old(self).proposals,
            final(self).outcome == old(self).outcome,
            final(self).votes_true@ == old(self).votes_true@.update(validator_idx.0 as int, None),
            final(self).votes_false@ == old(self).votes_false@.update(validator_idx.0 as int, None),
            forall|hash: Digest, v: int|
                #![trigger final(self).echo_signature(hash, v)]
                final(self).echo_signature(hash, v) == if v == validator_idx.0 {
                    None
                } else {
                    old(self).echo_signature(hash, v)
                },
    {
        let count = self.votes_true.len();
        let index = validator_idx.0 as usize;
        self.votes_true[index] = None;
        self.votes_false[index] = None;
        let mut kept: Vec<EchoSet> = Vec::new();
        let ghost mut origin: Seq<int> = Seq::empty();
        let mut i: usize = 0;
        while i < self.echos.len()
            invariant
                i <= self.echos.len(),
                index == validator_idx.0,
                index < count,
                count == old(self).votes_true.len(),
                self.echos == old(self).echos,
                old(self).wf(count as int),
                kept.len() == origin.len(),
                forall|k: int| 0 <= k < origin.len() ==> 0 <= #[trigger] origin[k] < i,
                forall|k: int, l: int| 0 <= k < l < origin.len() ==> origin[k] < origin[l],
                forall|k: int|
                    0 <= k < kept.len() ==> (#[trigger] kept[k]).hash == self.echos[origin[k]].hash
                        && kept[k].signatures@ == self.echos[origin[k]].signatures@.update(
                        index as int,
                        None,
                    ) && signed_by_other(self.echos[origin[k]].signatures@, index as int),
                forall|j: int|
                    0 <= j < i && #[trigger] signed_by_other(
                        self.echos[j].signatures@,
                        index as int,
                    ) ==> origin.contains(j),
            decreases self.echos.len() - i,
        {
            let (signatures, any) = without(&self.echos[i].signatures, index);
            if any {
                kept.push(EchoSet { hash: self.echos[i].hash, signatures });
                proof {
                    let ghost earlier = origin;
                    origin = origin.push(i as int);
                    assert forall|j: int|
                        0 <= j < i + 1 && #[trigger] signed_by_other(
                            self.echos[j].signatures@,
                            index as int,
                        ) implies origin.contains(j) by {
                        if j < i {
                            let k = choose|k: int| 0 <= k < earlier.len() && earlier[k] == j;
                            assert(origin[k] == j);
                        } else {
                            assert(origin[earlier.len() as int] == j);
                        }
                    }
                }
            }
            i += 1;
        }
        let ghost before = *self;
        self.echos = kept;
        proof {
            let n = count as int;
            assert forall|a: int, b: int| 0 <= a < b < self.echos.len() implies (
            #[trigger] self.echos[a]).hash != (#[trigger] self.echos[b]).hash by {
                assert(before.echos[origin[a]].hash != before.echos[origin[b]].hash);
            }
            assert forall|a: int, b: int, v: int|
                0 <= a < b < self.echos.len() && 0 <= v < n implies !(
            #[trigger] self.echos[a].signatures@[v] is Some
                && #[trigger] self.echos[b].signatures@[v] is Some) by {
                assert(!(before.echos[origin[a]].signatures@[v] is Some
                    && before.echos[origin[b]].signatures@[v] is Some));
            }
            assert forall|a: int| 0 <= a < self.echos.len() implies (
            #[trigger] self.echos[a]).signatures.len() == n by {
                assert(before.echos[origin[a]].signatures.len() == n);
            }
            assert(self.wf(n));
            assert forall|hash: Digest, v: int|
                #![trigger self.echo_signature(hash, v)]
                self.echo_signature(hash, v) == if v == validator_idx.0 {
                    None
                } else {
                    old(self).echo_signature(hash, v)
                } by {
                if self.has_echos(hash) {
                    let k = self.echo_position(hash);
                    self.lemma_echo_position(n, k);
                    before.lemma_echo_position(n, origin[k]);
                    assert(old(self).echos[origin[k]] == before.echos[origin[k]]);
                } else if old(self).has_echos(hash) {
                    let j = old(self).echo_position(hash);
                    old(self).lemma_echo_position(n, j);
                    if 0 <= v < n && v != index && old(self).echos[j].signatures@[v] is Some {
                        assert(signed_by_other(before.echos[j].signatures@, index as int));
                        let k = choose|k: int| 0 <= k < origin.len() && origin[k] == j;
                        assert(self.echos[k].hash == hash);
                    }
                }
            }
        }
    }
}

/// Whether the map holds a signature at a position other than `index`.
pub open spec fn signed_by_other(map: Seq<Option<Signature>>, index: int) -> bool {
    exists|v: int| 0 <= v < map.len() && v != index && (#[trigger] map[v]) is Some
}

/// Copies a signature map without the signature at one position, and tells whether
/// any signature is left.
fn without(map: &Vec<Option<Signature>>, index: usize) -> (res: (Vec<Option<Signature>>, bool))
    requires
        index < map.len(),
    ensures
        res.0@ == map@.update(index as int, None),
        res.1 == signed_by_other(map@, index as int),
{
    let mut copy: Vec<Option<Signature>> = Vec::new();
    let mut any = false;
    let mut i: usize = 0;
    while i < map.len()
        invariant
            i <= map.len(),
            index < map.len(),
            copy.len() == i,
            forall|v: int| 0 <= v < i ==> #[trigger] copy@[v] == map@.update(index as int, None)[v],
            any == signed_by_other(map@.take(i as int), index as int),
        decreases map.len() - i,
    {
        let ghost earlier = map@.take(i as int);
        if i == index {
            copy.push(None);
        } else {
            copy.push(map[i]);
            if map[i].is_some() {
                any = true;
            }
        }
        i += 1;
        proof {
            let longer = map@.take(i as int);
            if signed_by_other(earlier, index as int) {
                let v = choose|v: int| 0 <= v < earlier.len() && v != index && (#[trigger] earlier[v]) is Some;
                assert(longer[v] is Some);
            }
            if signed_by_other(longer, index as int) {
                let v = choose|v: int| 0 <= v < longer.len() && v != index && (#[trigger] longer[v]) is Some;
                if v < i - 1 {
                    assert(earlier[v] is Some);
                }
            }
            if i - 1 != index && map@[i - 1] is Some {
                assert(longer[i - 1] is Some);
            }
        }
    }
    assert(copy@ =~= map@.update(index as int, None));
    assert(map@.take(map.len() as int) =~= map@);
    (copy, any)
}

/// A signature map without signatures.
pub fn no_signatures(count: usize) -> (map: Vec<Option<Signature>>)
    ensures
        map.len() == count,
        forall|v: int| 0 <= v < count ==> map@[v] is None,
        map@ =~= Seq::new(count as nat, |v: int| None::<Signature>),
{
    let mut map: Vec<Option<Signature>> = Vec::new();
    while map.len() < count
        invariant
            map.len() <= count,
            forall|v: int| 0 <= v < map.len() ==> map@[v] is None,
        decreases count - map.len(),
    {
        map.push(None);
    }
    map
}

} // verus!

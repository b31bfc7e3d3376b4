//! The single steps by which the state of a round changes.

use vstd::prelude::*;
use crate::consensus::context::Context;
use crate::consensus::round::{Round, RoundOutcome, StoredProposal};
use crate::consensus::state::SimpleConsensus;
use crate::consensus::types::{Digest, Proposal, RoundId, Signature, ValidatorIndex};
use crate::consensus::wellformed::{
    lemma_accepted_step, lemma_adds_in_one_round, lemma_grows_one_round, lemma_keeps_quorums,
    lemma_keeps_waiting, lemma_replace_round, lemma_round_changed, lemma_same_skipped,
    lemma_settled, lemma_settles, lemma_settles_but, parent_is_earlier, round_extends, round_keeps,
    spec_child_height,
};

verus! {

impl<C: Context> SimpleConsensus<C> {
    /// Whether the two states differ in the round `round_id` at most.
    pub open spec fn same_but_round(&self, after: &SimpleConsensus<C>, round_id: int) -> bool {
        &&& *after == (SimpleConsensus { rounds: after.rounds, ..*self })
        &&& after.rounds.len() == if self.rounds.len() > round_id {
            self.rounds.len() as int
        } else {
            round_id + 1
        }
        &&& forall|q: int| q != round_id ==> #[trigger] after.round_at(q) == self.round_at(q)
    }

    /// Starts the round if need be, and inserts the proposal into it unless the round
    /// holds a proposal with the same hash. Returns the hash if the proposal is new.
    pub fn record_proposal(&mut self, round_id: RoundId, proposal: Proposal, signature: Signature) -> (res:
        Option<Digest>)
        requires
            old(self).wf(),
            round_id < u32::MAX,
            parent_is_earlier(proposal.maybe_parent_round_id, round_id as int),
        ensures
            final(self).wf(),
            old(self).extends(final(self)),
            old(self).grows(final(self)),
            old(self).same_but_round(final(self), round_id as int),
            ({
                let hash = proposal.spec_hash::<C>();
                let known = old(self).round_at(round_id as int) matches Some(round)
                    && round.has_proposal(hash);
                let round = final(self).round_at(round_id as int).unwrap();
                &&& final(self).round_at(round_id as int) is Some
                &&& res == if known {
                    None
                } else {
                    Some(hash)
                }
                &&& round.has_proposal(hash)
                &&& !known ==> round.proposal(hash) == Some(StoredProposal { hash, proposal, signature })
                &&& round.outcome == old(self).outcome_at(round_id as int)
                &&& forall|other: Digest| #[trigger]
                    round.echo_signatures(other) == old(self).echo_signatures_at(
                        round_id as int,
                        other,
                    )
                &&& forall|vote: bool| #[trigger]
                    round.votes(vote) == old(self).votes_at(round_id as int, vote)
                &&& forall|other: Digest|
                    other != hash ==> #[trigger] round.proposal(other) == old(self).proposal_at(
                        round_id as int,
                        other,
                    )
            }),
            old(self).adds_only(final(self), Set::empty()),
            old(self).keeps_waiting(final(self)),
            old(self).settles(final(self)),
            old(self).same_skipped(final(self)),
    {
        self.ensure_round(round_id);
        let ghost started = *self;
        let index = round_id as usize;
        let res = match &mut self.rounds[index] {
            Some(round) => round.insert_proposal::<C>(proposal, signature),
            None => None,
        };
        proof {
            let before = started.rounds[index as int].unwrap();
            let after = self.rounds[index as int].unwrap();
            assert(round_extends(before, after));
            assert(self.rounds@ =~= started.rounds@.update(index as int, Some(after)));
            assert forall|q: int| q != round_id implies #[trigger] self.round_at(q) == old(self).round_at(q) by {
                assert(started.round_at(q) == old(self).round_at(q));
            }
            assert forall|q: int|
                0 <= q < self.rounds.len() && q != round_id implies #[trigger] self.rounds[q]
                == old(self).round_at(q) by {
                assert(self.round_at(q) == old(self).round_at(q));
            }
            assert forall|i: int| 0 <= i < after.proposals.len() implies parent_is_earlier(
                (#[trigger] after.proposals[i]).proposal.maybe_parent_round_id,
                round_id as int,
            ) by {
                if i < before.proposals.len() {
                    assert(after.proposals[i] == before.proposals[i]);
                    if old(self).round_at(round_id as int) is Some {
                        assert(old(self).rounds[round_id as int].unwrap().proposals[i]
                            == before.proposals[i]);
                    }
                }
            }
            if round_id < old(self).rounds.len() {
                assert(old(self).quorums_ok(round_id as int));
            }
            if old(self).round_at(round_id as int) is Some {
                assert(round_keeps(
                    old(self).round_at(round_id as int).unwrap(),
                    self.round_at(round_id as int).unwrap(),
                ));
            }
            lemma_keeps_quorums(old(self), self, round_id as int);
            lemma_replace_round(old(self), self, round_id as int);
            if old(self).round_at(round_id as int) is Some {
                assert(round_keeps(
                    old(self).round_at(round_id as int).unwrap(),
                    self.round_at(round_id as int).unwrap(),
                ));
            }
            lemma_grows_one_round(old(self), self, round_id as int);
            let hash = proposal.spec_hash::<C>();
            if res is Some {
                after.lemma_proposal_position(self.count(), before.proposals.len() as int);
            }
            assert forall|other: Digest| other != hash implies #[trigger] after.proposal(other)
                == old(self).proposal_at(round_id as int, other) by {
                if before.has_proposal(other) {
                    let i = before.proposal_position(other).unwrap();
                    assert(after.proposals[i] == before.proposals[i]);
                    after.lemma_proposal_position(self.count(), i);
                    before.lemma_proposal_position(self.count(), i);
                } else if after.has_proposal(other) {
                    let i = after.proposal_position(other).unwrap();
                    assert(i < before.proposals.len());
                    assert(after.proposals[i] == before.proposals[i]);
                }
            }
            assert forall|other: Digest| #[trigger]
                after.echo_signatures(other) == old(self).echo_signatures_at(
                    round_id as int,
                    other,
                ) by {
                assert(after.echos == before.echos);
            }
        }
        proof {
            reveal(SimpleConsensus::vote_at);
            reveal(SimpleConsensus::echo_at);
            lemma_adds_in_one_round(old(self), self, round_id as int, Set::empty());
            lemma_keeps_waiting(old(self), self);
            lemma_settles(old(self), self);
            lemma_same_skipped(old(self), self);
        }
        res
    }

    /// What has been concluded in the round; nothing, if it has not been started.
    pub open spec fn outcome_at(&self, round_id: int) -> RoundOutcome {
        match self.round_at(round_id) {
            Some(round) => round.outcome,
            None => RoundOutcome::undecided(),
        }
    }

    /// The signatures under the echoes of the hash in the round, by validator.
    pub open spec fn echo_signatures_at(&self, round_id: int, hash: Digest) -> Seq<
        Option<Signature>,
    > {
        match self.round_at(round_id) {
            Some(round) => round.echo_signatures(hash),
            None => Seq::empty(),
        }
    }

    /// The signatures under the votes for `vote` in the round, by validator. In a
    /// round that has not been started, nobody has voted.
    pub open spec fn votes_at(&self, round_id: int, vote: bool) -> Seq<Option<Signature>> {
        match self.round_at(round_id) {
            Some(round) => round.votes(vote),
            None => Seq::new(self.weights.len() as nat, |v: int| None::<Signature>),
        }
    }

    /// The proposal with the hash that the round holds, if it holds one.
    pub open spec fn proposal_at(&self, round_id: int, hash: Digest) -> Option<StoredProposal> {
        match self.round_at(round_id) {
            Some(round) => round.proposal(hash),
            None => None,
        }
    }

    /// The proposals that the round holds, in the order of their arrival.
    pub open spec fn proposals_at(&self, round_id: int) -> Seq<StoredProposal> {
        match self.round_at(round_id) {
            Some(round) => round.proposals@,
            None => Seq::empty(),
        }
    }

    /// Whether the validator has echoed a hash other than `hash` in the round.
    pub open spec fn echoed_other_at(
        &self,
        round_id: int,
        hash: Digest,
        validator_idx: ValidatorIndex,
    ) -> bool {
        match self.round_at(round_id) {
            Some(round) => round.echoed_other(hash, validator_idx),
            None => false,
        }
    }

    /// A round that was started holds what a round holds that has not been
    /// started: nothing.
    pub proof fn lemma_started(&self, started: &SimpleConsensus<C>, round_id: int)
        requires
            self.wf_basic(),
            started.wf_basic(),
            self.same_but_round(started, round_id),
            started.round_at(round_id) is Some,
            self.round_at(round_id) is Some ==> started.rounds@ == self.rounds@,
            self.round_at(round_id) is None ==> {
                let round = started.round_at(round_id).unwrap();
                &&& round.proposals.len() == 0
                &&& round.echos.len() == 0
                &&& round.outcome == RoundOutcome::undecided()
                &&& forall|v: int| 0 <= v < self.count() ==> round.votes_true@[v] is None
                &&& forall|v: int| 0 <= v < self.count() ==> round.votes_false@[v] is None
            },
        ensures
            ({
                let round = started.round_at(round_id).unwrap();
                &&& round.outcome == self.outcome_at(round_id)
                &&& round.proposals@ == self.proposals_at(round_id)
                &&& forall|hash: Digest| #[trigger]
                    round.echo_signatures(hash) == self.echo_signatures_at(round_id, hash)
                &&& forall|hash: Digest| #[trigger]
                    round.has_proposal(hash) == (self.proposal_at(round_id, hash) is Some)
                &&& forall|hash: Digest| #[trigger]
                    round.proposal(hash) == self.proposal_at(round_id, hash)
                &&& forall|vote: bool| #[trigger]
                    round.votes(vote) == self.votes_at(round_id, vote)
                &&& forall|hash: Digest, v: ValidatorIndex| #[trigger]
                    round.echoed_other(hash, v) == self.echoed_other_at(round_id, hash, v)
            }),
    {
        let round = started.round_at(round_id).unwrap();
        if self.round_at(round_id) is None {
            assert(round.proposals@ =~= Seq::empty());
            assert forall|vote: bool| #[trigger]
                round.votes(vote) == self.votes_at(round_id, vote) by {
                assert(round.votes(vote) =~= Seq::new(
                    self.weights.len() as nat,
                    |v: int| None::<Signature>,
                ));
            }
        }
    }

    /// Starts the round if need be, and inserts the echo into it. Returns whether
    /// the echo is new.
    pub fn record_echo(
        &mut self,
        round_id: RoundId,
        hash: Digest,
        validator_idx: ValidatorIndex,
        signature: Signature,
    ) -> (fresh: bool)
        requires
            old(self).wf(),
            round_id < u32::MAX,
            validator_idx.0 < old(self).weights.len(),
            !old(self).echoed_other_at(round_id as int, hash, validator_idx),
        ensures
            final(self).wf(),
            old(self).extends(final(self)),
            old(self).grows(final(self)),
            old(self).same_but_round(final(self), round_id as int),
            ({
                let before = old(self).echo_signatures_at(round_id as int, hash);
                let round = final(self).round_at(round_id as int).unwrap();
                &&& final(self).round_at(round_id as int) is Some
                &&& fresh == !(before.len() > validator_idx.0 && before[validator_idx.0 as int] is Some)
                &&& round.has_echos(hash)
                &&& round.echo_signatures(hash) == if fresh {
                    (if before.len() > 0 {
                        before
                    } else {
                        Seq::new(old(self).weights.len() as nat, |v: int| None::<Signature>)
                    }).update(validator_idx.0 as int, Some(signature))
                } else {
                    before
                }
                &&& round.outcome == old(self).outcome_at(round_id as int)
                &&& round.proposals@ == old(self).proposals_at(round_id as int)
                &&& forall|other: Digest|
                    other != hash
                        ==> #[trigger] round.echo_signatures(other)
                        == old(self).echo_signatures_at(round_id as int, other)
                &&& forall|vote: bool| #[trigger]
                    round.votes(vote) == old(self).votes_at(round_id as int, vote)
            }),
            old(self).adds_only(final(self), set![validator_idx.0 as int]),
            old(self).keeps_waiting(final(self)),
            old(self).settles(final(self)),
            old(self).same_skipped(final(self)),
    {
        self.ensure_round(round_id);
        let ghost started = *self;
        let index = round_id as usize;
        proof {
            old(self).lemma_started(&started, round_id as int);
        }
        let fresh = match &mut self.rounds[index] {
            Some(round) => round.insert_echo(hash, validator_idx, signature),
            None => false,
        };
        proof {
            let before = started.rounds[index as int].unwrap();
            let after = self.rounds[index as int].unwrap();
            assert(self.rounds@ =~= started.rounds@.update(index as int, Some(after)));
            assert forall|q: int| q != round_id implies #[trigger] self.round_at(q) == old(self).round_at(q) by {
                assert(started.round_at(q) == old(self).round_at(q));
            }
            assert(round_extends(before, after));
            if round_id < old(self).rounds.len() {
                assert(old(self).quorums_ok(round_id as int));
            }
            if old(self).round_at(round_id as int) is Some {
                assert(round_keeps(
                    old(self).round_at(round_id as int).unwrap(),
                    self.round_at(round_id as int).unwrap(),
                ));
            }
            lemma_keeps_quorums(old(self), self, round_id as int);
            lemma_round_changed(old(self), self, round_id as int);
            if old(self).round_at(round_id as int) is Some {
                assert(round_keeps(
                    old(self).round_at(round_id as int).unwrap(),
                    self.round_at(round_id as int).unwrap(),
                ));
            }
            lemma_grows_one_round(old(self), self, round_id as int);
            if before.has_echos(hash) {
                before.lemma_echo_position(self.count(), before.echo_position(hash));
            }
        }
        proof {
            reveal(SimpleConsensus::vote_at);
            reveal(SimpleConsensus::echo_at);
            lemma_adds_in_one_round(old(self), self, round_id as int, set![validator_idx.0 as int]);
            lemma_keeps_waiting(old(self), self);
            lemma_settles(old(self), self);
            lemma_same_skipped(old(self), self);
        }
        fresh
    }

    /// Starts the round if need be, and inserts the vote into it unless the round
    /// holds the same vote of the validator. Returns whether the vote is new.
    pub fn record_vote(
        &mut self,
        round_id: RoundId,
        vote: bool,
        validator_idx: ValidatorIndex,
        signature: Signature,
    ) -> (fresh: bool)
        requires
            old(self).wf(),
            round_id < u32::MAX,
            validator_idx.0 < old(self).weights.len(),
            old(self).votes_at(round_id as int, !vote)[validator_idx.0 as int] is None,
        ensures
            final(self).wf(),
            old(self).extends(final(self)),
            old(self).grows(final(self)),
            old(self).same_but_round(final(self), round_id as int),
            ({
                let round = final(self).round_at(round_id as int).unwrap();
                &&& final(self).round_at(round_id as int) is Some
                &&& fresh == old(self).votes_at(round_id as int, vote)[validator_idx.0 as int] is None
                &&& round.votes(vote) == (if fresh {
                    old(self).votes_at(round_id as int, vote).update(
                        validator_idx.0 as int,
                        Some(signature),
                    )
                } else {
                    old(self).votes_at(round_id as int, vote)
                })
                &&& round.votes(!vote) == old(self).votes_at(round_id as int, !vote)
                &&& round.outcome == old(self).outcome_at(round_id as int)
                &&& round.proposals@ == old(self).proposals_at(round_id as int)
                &&& forall|other: Digest| #[trigger]
                    round.echo_signatures(other) == old(self).echo_signatures_at(
                        round_id as int,
                        other,
                    )
            }),
            old(self).adds_only(final(self), set![validator_idx.0 as int]),
            old(self).keeps_waiting(final(self)),
            old(self).settles(final(self)),
            old(self).same_skipped(final(self)),
    {
        self.ensure_round(round_id);
        let ghost started = *self;
        let index = round_id as usize;
        proof {
            old(self).lemma_started(&started, round_id as int);
            assert(started.rounds[index as int].unwrap().votes(!vote) == old(self).votes_at(
                round_id as int,
                !vote,
            ));
        }
        let fresh = match &mut self.rounds[index] {
            Some(round) => round.insert_vote(vote, validator_idx, signature),
            None => false,
        };
        proof {
            let before = started.rounds[index as int].unwrap();
            let after = self.rounds[index as int].unwrap();
            assert(self.rounds@ =~= started.rounds@.update(index as int, Some(after)));
            assert forall|q: int| q != round_id implies #[trigger] self.round_at(q) == old(self).round_at(q) by {
                assert(started.round_at(q) == old(self).round_at(q));
            }
            assert(round_extends(before, after));
            if round_id < old(self).rounds.len() {
                assert(old(self).quorums_ok(round_id as int));
            }
            if old(self).round_at(round_id as int) is Some {
                assert(round_keeps(
                    old(self).round_at(round_id as int).unwrap(),
                    self.round_at(round_id as int).unwrap(),
                ));
            }
            lemma_keeps_quorums(old(self), self, round_id as int);
            lemma_round_changed(old(self), self, round_id as int);
            if old(self).round_at(round_id as int) is Some {
                assert(round_keeps(
                    old(self).round_at(round_id as int).unwrap(),
                    self.round_at(round_id as int).unwrap(),
                ));
            }
            lemma_grows_one_round(old(self), self, round_id as int);
            assert(before.votes(vote) == old(self).votes_at(round_id as int, vote));
        }
        proof {
            reveal(SimpleConsensus::vote_at);
            reveal(SimpleConsensus::echo_at);
            lemma_adds_in_one_round(old(self), self, round_id as int, set![validator_idx.0 as int]);
            lemma_keeps_waiting(old(self), self);
            lemma_settles(old(self), self);
            lemma_same_skipped(old(self), self);
        }
        fresh
    }

    /// Whether a round differs from another in what has been concluded at most.
    pub open spec fn same_but_outcome(before: Round, after: Round) -> bool {
        &&& after.proposals == before.proposals
        &&& after.echos == before.echos
        &&& after.votes_true == before.votes_true
        &&& after.votes_false == before.votes_false
    }

    /// Records that a quorum has echoed the hash in the round.
    pub fn set_quorum_echos(&mut self, round_id: RoundId, hash: Digest)
        requires
            old(self).wf(),
            old(self).round_at(round_id as int) is Some,
            old(self).outcome_at(round_id as int).quorum_echos is None,
            old(self).spec_is_quorum(old(self).echo_signatures_at(round_id as int, hash)),
        ensures
            final(self).wf(),
            old(self).extends(final(self)),
            old(self).grows(final(self)),
            old(self).same_but_round(final(self), round_id as int),
            final(self).round_at(round_id as int) is Some,
            Self::same_but_outcome(
                old(self).round_at(round_id as int).unwrap(),
                final(self).round_at(round_id as int).unwrap(),
            ),
            final(self).outcome_at(round_id as int) == (RoundOutcome {
                quorum_echos: Some(hash),
                ..old(self).outcome_at(round_id as int)
            }),
            old(self).adds_only(final(self), Set::empty()),
            old(self).keeps_waiting(final(self)),
            old(self).settles(final(self)),
            old(self).same_skipped(final(self)),
    {
        let index = round_id as usize;
        match &mut self.rounds[index] {
            Some(round) => {
                round.outcome.quorum_echos = Some(hash);
            },
            None => {},
        }
        proof {
            let before = old(self).rounds[index as int].unwrap();
            let after = self.rounds[index as int].unwrap();
            assert(self.rounds@ =~= old(self).rounds@.update(index as int, Some(after)));
            assert(round_extends(before, after));
            assert(old(self).accepted_ok(round_id as int));
            assert(old(self).quorums_ok(round_id as int));
            assert(self.quorums_ok(round_id as int));
            lemma_round_changed(old(self), self, round_id as int);
            if old(self).round_at(round_id as int) is Some {
                assert(round_keeps(
                    old(self).round_at(round_id as int).unwrap(),
                    self.round_at(round_id as int).unwrap(),
                ));
            }
            lemma_grows_one_round(old(self), self, round_id as int);
        }
        proof {
            reveal(SimpleConsensus::vote_at);
            reveal(SimpleConsensus::echo_at);
            lemma_adds_in_one_round(old(self), self, round_id as int, Set::empty());
            lemma_keeps_waiting(old(self), self);
            lemma_settles(old(self), self);
            lemma_same_skipped(old(self), self);
        }
    }

    /// Records that a quorum has cast the vote in the round.
    pub fn set_quorum_votes(&mut self, round_id: RoundId, vote: bool)
        requires
            old(self).wf(),
            old(self).round_at(round_id as int) is Some,
            old(self).outcome_at(round_id as int).quorum_votes is None,
            old(self).spec_is_quorum(old(self).votes_at(round_id as int, vote)),
        ensures
            final(self).wf(),
            old(self).extends(final(self)),
            old(self).grows(final(self)),
            old(self).same_but_round(final(self), round_id as int),
            final(self).round_at(round_id as int) is Some,
            Self::same_but_outcome(
                old(self).round_at(round_id as int).unwrap(),
                final(self).round_at(round_id as int).unwrap(),
            ),
            final(self).outcome_at(round_id as int) == (RoundOutcome {
                quorum_votes: Some(vote),
                ..old(self).outcome_at(round_id as int)
            }),
            old(self).adds_only(final(self), Set::empty()),
            old(self).keeps_waiting(final(self)),
            old(self).settles_but(final(self), round_id as int),
            !vote ==> old(self).settles(final(self)),
            vote ==> old(self).same_skipped(final(self)),
            forall|q: int|
                q != round_id ==> #[trigger] final(self).skipped_at(q) == old(self).skipped_at(q),
    {
        let index = round_id as usize;
        match &mut self.rounds[index] {
            Some(round) => {
                round.outcome.quorum_votes = Some(vote);
            },
            None => {},
        }
        proof {
            let before = old(self).rounds[index as int].unwrap();
            let after = self.rounds[index as int].unwrap();
            assert(self.rounds@ =~= old(self).rounds@.update(index as int, Some(after)));
            assert(round_extends(before, after));
            assert(old(self).quorums_ok(round_id as int));
            assert(after.votes(vote) == before.votes(vote));
            assert(after.votes(vote) == old(self).votes_at(round_id as int, vote));
            assert(self.faulty() == old(self).faulty());
            match after.outcome.quorum_echos {
                Some(hash) => {
                    after.lemma_same_echos(&before, self.count(), hash);
                },
                None => {},
            }
            assert(self.quorums_ok(round_id as int));
            lemma_round_changed(old(self), self, round_id as int);
            if old(self).round_at(round_id as int) is Some {
                assert(round_keeps(
                    old(self).round_at(round_id as int).unwrap(),
                    self.round_at(round_id as int).unwrap(),
                ));
            }
            lemma_grows_one_round(old(self), self, round_id as int);
        }
        proof {
            reveal(SimpleConsensus::vote_at);
            reveal(SimpleConsensus::echo_at);
            lemma_adds_in_one_round(old(self), self, round_id as int, Set::empty());
            lemma_keeps_waiting(old(self), self);
            lemma_settles_but(old(self), self, round_id as int);
            if !vote {
                lemma_settled(self, round_id as int);
            }
            if vote {
                lemma_same_skipped(old(self), self);
            }
            assert forall|q: int| q != round_id implies #[trigger] self.skipped_at(q) == old(self).skipped_at(q) by {
                reveal(SimpleConsensus::skipped_at);
                assert(self.round_at(q) == old(self).round_at(q));
            }
        }
    }

    /// The height at which the proposal could be accepted in the round if a quorum
    /// had echoed it: one more than the height of the accepted proposal that it
    /// builds on, or zero if it builds on none; there is no such height unless
    /// every round in between is skippable.
    pub open spec fn proposal_height(&self, round_id: int, proposal: Proposal) -> Option<u64> {
        match proposal.maybe_parent_round_id {
            Some(parent) => {
                if parent < round_id && self.accepted_height(parent as int) is Some
                    && forall|q: int|
                    parent < q < round_id ==> #[trigger] self.spec_is_skippable_round(q) {
                    Some(spec_child_height(self.accepted_height(parent as int).unwrap()))
                } else {
                    None
                }
            },
            None => {
                if forall|q: int| 0 <= q < round_id ==> #[trigger] self.spec_is_skippable_round(q) {
                    Some(0)
                } else {
                    None
                }
            },
        }
    }

    /// The height at which the proposal with the hash could be accepted in the round
    /// if a quorum had echoed it; none unless the round holds the proposal.
    pub open spec fn height_if_echoed(&self, round_id: int, hash: Digest) -> Option<u64> {
        match self.round_at(round_id) {
            Some(round) => if round.has_proposal(hash) {
                self.proposal_height(round_id, round.proposal(hash).unwrap().proposal)
            } else {
                None
            },
            None => None,
        }
    }

    /// The height at which the proposal that a quorum has echoed in the round can be
    /// accepted, if it can: the round has accepted none and holds the proposal, the
    /// proposal that it builds on is accepted, and every round in between is
    /// skippable.
    pub open spec fn spec_acceptable_height(&self, round_id: int) -> Option<u64> {
        match self.round_at(round_id) {
            Some(round) => {
                if round.outcome.accepted_proposal_height is None
                    && round.outcome.quorum_echos is Some {
                    self.height_if_echoed(round_id, round.outcome.quorum_echos.unwrap())
                } else {
                    None
                }
            },
            None => None,
        }
    }

    /// Whether the proposal that a quorum has echoed in the round can be accepted
    /// at the given height.
    pub open spec fn acceptable(&self, round_id: int, height: u64) -> bool {
        self.spec_acceptable_height(round_id) == Some(height)
    }

    /// Records that the proposal which a quorum has echoed in the round is accepted.
    pub fn set_accepted(&mut self, round_id: RoundId, height: u64)
        requires
            old(self).wf(),
            old(self).acceptable(round_id as int, height),
        ensures
            final(self).wf(),
            old(self).extends(final(self)),
            old(self).grows(final(self)),
            old(self).same_but_round(final(self), round_id as int),
            final(self).round_at(round_id as int) is Some,
            Self::same_but_outcome(
                old(self).round_at(round_id as int).unwrap(),
                final(self).round_at(round_id as int).unwrap(),
            ),
            final(self).outcome_at(round_id as int) == (RoundOutcome {
                accepted_proposal_height: Some(height),
                ..old(self).outcome_at(round_id as int)
            }),
            final(self).round_budget() < old(self).round_budget(),
            old(self).adds_only(final(self), Set::empty()),
            old(self).keeps_waiting(final(self)),
            old(self).settles_but(final(self), round_id as int),
            old(self).same_skipped(final(self)),
    {
        let index = round_id as usize;
        match &mut self.rounds[index] {
            Some(round) => {
                round.outcome.accepted_proposal_height = Some(height);
            },
            None => {},
        }
        proof {
            let before = old(self).rounds[index as int].unwrap();
            let after = self.rounds[index as int].unwrap();
            assert(self.rounds@ =~= old(self).rounds@.update(index as int, Some(after)));
            assert(round_extends(before, after));
            assert(self.accepted_ok(round_id as int)) by {
                let hash = before.outcome.quorum_echos.unwrap();
                let i = before.proposal_position(hash).unwrap();
                before.lemma_proposal_position(self.count(), i);
                after.lemma_proposal_position(self.count(), i);
                match before.proposals[i].proposal.maybe_parent_round_id {
                    Some(parent) => {
                        assert(self.round_at(parent as int) == old(self).round_at(parent as int));
                        assert forall|q: int|
                            parent < q < round_id implies #[trigger] self.spec_is_skippable_round(
                            q,
                        ) by {
                            assert(self.round_at(q) == old(self).round_at(q));
                            assert(old(self).spec_is_skippable_round(q));
                        }
                    },
                    None => {
                        assert forall|q: int|
                            0 <= q < round_id implies #[trigger] self.spec_is_skippable_round(
                            q,
                        ) by {
                            assert(self.round_at(q) == old(self).round_at(q));
                            assert(old(self).spec_is_skippable_round(q));
                        }
                    },
                }
            }
            if round_id < old(self).rounds.len() {
                assert(old(self).quorums_ok(round_id as int));
            }
            if old(self).round_at(round_id as int) is Some {
                assert(round_keeps(
                    old(self).round_at(round_id as int).unwrap(),
                    self.round_at(round_id as int).unwrap(),
                ));
            }
            lemma_keeps_quorums(old(self), self, round_id as int);
            lemma_round_changed(old(self), self, round_id as int);
            if old(self).round_at(round_id as int) is Some {
                assert(round_keeps(
                    old(self).round_at(round_id as int).unwrap(),
                    self.round_at(round_id as int).unwrap(),
                ));
            }
            lemma_grows_one_round(old(self), self, round_id as int);
            lemma_accepted_step(
                old(self).rounds@,
                self.rounds@,
                round_id as int,
            );
        }
        proof {
            reveal(SimpleConsensus::vote_at);
            reveal(SimpleConsensus::echo_at);
            lemma_adds_in_one_round(old(self), self, round_id as int, Set::empty());
            lemma_keeps_waiting(old(self), self);
            lemma_settles_but(old(self), self, round_id as int);
            lemma_same_skipped(old(self), self);
        }
    }

    /// Whether `after` is as this state, but that the round has been started if it had
    /// not been: it then holds nothing, and nothing is concluded in it.
    pub open spec fn started(&self, after: &SimpleConsensus<C>, round_id: int) -> bool {
        &&& self.same_but_round(after, round_id)
        &&& after.round_at(round_id) is Some
        &&& self.round_at(round_id) is Some ==> after.rounds@ == self.rounds@
        &&& self.round_at(round_id) is None ==> {
            let round = after.round_at(round_id).unwrap();
            &&& round.proposals.len() == 0
            &&& round.echos.len() == 0
            &&& round.outcome == RoundOutcome::undecided()
            &&& forall|v: int| 0 <= v < self.count() ==> round.votes_true@[v] is None
            &&& forall|v: int| 0 <= v < self.count() ==> round.votes_false@[v] is None
        }
    }

    /// Starts the round, unless it has been started. Nothing that can be read off
    /// the rounds changes thereby.
    pub fn start_round(&mut self, round_id: RoundId)
        requires
            old(self).wf(),
            round_id < u32::MAX,
        ensures
            final(self).wf(),
            old(self).extends(final(self)),
            old(self).grows(final(self)),
            old(self).started(final(self), round_id as int),
            old(self).adds_only(final(self), Set::empty()),
            old(self).keeps_waiting(final(self)),
            old(self).settles(final(self)),
            old(self).same_skipped(final(self)),
    {
        self.ensure_round(round_id);
        proof {
            old(self).lemma_started(self, round_id as int);
            let after = self.rounds[round_id as int].unwrap();
            assert forall|q: int| q != round_id implies #[trigger] self.round_at(q) == old(self).round_at(q) by {}
            if old(self).round_at(round_id as int) is Some {
                assert(round_extends(old(self).round_at(round_id as int).unwrap(), after));
                assert(round_keeps(old(self).round_at(round_id as int).unwrap(), after));
            }
            if round_id < old(self).rounds.len() {
                assert(old(self).quorums_ok(round_id as int));
            }
            if old(self).round_at(round_id as int) is Some {
                assert(round_keeps(
                    old(self).round_at(round_id as int).unwrap(),
                    self.round_at(round_id as int).unwrap(),
                ));
            }
            lemma_keeps_quorums(old(self), self, round_id as int);
            lemma_round_changed(old(self), self, round_id as int);
            lemma_grows_one_round(old(self), self, round_id as int);
        }
        proof {
            reveal(SimpleConsensus::vote_at);
            reveal(SimpleConsensus::echo_at);
            lemma_adds_in_one_round(old(self), self, round_id as int, Set::empty());
            lemma_keeps_waiting(old(self), self);
            lemma_settles(old(self), self);
            lemma_same_skipped(old(self), self);
        }
    }
}

} // verus!

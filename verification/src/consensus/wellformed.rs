//! The invariant of the protocol state, and how the state may grow.

use vstd::prelude::*;
use crate::consensus::bitfield::present;
use crate::consensus::context::Context;
use crate::consensus::round::Round;
use crate::consensus::state::{Fault, SimpleConsensus, WaitingProposal};
use crate::consensus::types::{Digest, RoundId, Signature};
use crate::consensus::validity::PendingView;
use crate::consensus::weights::lemma_weight_monotone;

verus! {

/// The height of a proposal that builds on a proposal of height `height`.
pub open spec fn spec_child_height(height: u64) -> u64 {
    if height == u64::MAX {
        u64::MAX
    } else {
        (height + 1) as u64
    }
}

/// Whether there is direct evidence against the validator at the position.
pub open spec fn is_direct_at(faults: Seq<Option<Fault>>, v: int) -> bool {
    match faults[v] {
        Some(Fault::Direct(_, _)) => true,
        _ => false,
    }
}

/// Whether the round at the position has an accepted proposal.
pub open spec fn is_accepted_at(rounds: Seq<Option<Round>>, r: int) -> bool {
    match rounds[r] {
        Some(round) => round.outcome.accepted_proposal_height is Some,
        None => false,
    }
}

/// Whether a proposal with the given parent may stand in the round `r`: the parent
/// round, if any, is earlier.
pub open spec fn parent_is_earlier(maybe_parent: Option<RoundId>, r: int) -> bool {
    match maybe_parent {
        Some(parent) => parent < r,
        None => true,
    }
}

/// The number of validators among the first `k` against which there is direct
/// evidence.
pub open spec fn direct_count(faults: Seq<Option<Fault>>, k: int) -> nat
    decreases k,
{
    if k <= 0 {
        0
    } else {
        direct_count(faults, k - 1) + if is_direct_at(faults, k - 1) {
            1nat
        } else {
            0nat
        }
    }
}

/// The number of rounds among the first `k` with an accepted proposal.
pub open spec fn accepted_count(rounds: Seq<Option<Round>>, k: int) -> nat
    decreases k,
{
    if k <= 0 {
        0
    } else {
        accepted_count(rounds, k - 1) + if is_accepted_at(rounds, k - 1) {
            1nat
        } else {
            0nat
        }
    }
}

/// What a round may become: what has been concluded stays concluded, and the
/// proposals received stay where they are.
pub open spec fn round_extends(before: Round, after: Round) -> bool {
    &&& before.outcome.accepted_proposal_height is Some
        ==> after.outcome.accepted_proposal_height == before.outcome.accepted_proposal_height
    &&& before.outcome.quorum_echos is Some ==> after.outcome.quorum_echos
        == before.outcome.quorum_echos
    &&& before.outcome.quorum_votes is Some ==> after.outcome.quorum_votes
        == before.outcome.quorum_votes
    &&& before.proposals.len() <= after.proposals.len()
    &&& forall|i: int|
        0 <= i < before.proposals.len() ==> #[trigger] after.proposals[i] == before.proposals[i]
}

impl<C: Context> SimpleConsensus<C> {
    /// Every proposal that a round holds builds on an earlier round.
    pub open spec fn wf_parents(&self) -> bool {
        forall|r: int, i: int|
            0 <= r < self.rounds.len() && self.rounds[r] is Some && 0 <= i
                < self.rounds[r].unwrap().proposals.len() ==> parent_is_earlier(
                (#[trigger] self.rounds[r].unwrap().proposals[i]).proposal.maybe_parent_round_id,
                r,
            )
    }

    /// Whether what the round has accepted is acceptable: a quorum has echoed the
    /// proposal, the round holds it, its parent is accepted at the height below,
    /// or it has none and its height is zero, and every round in between is
    /// skippable.
    pub open spec fn accepted_ok(&self, r: int) -> bool {
        match self.round_at(r) {
            Some(round) => match round.outcome.accepted_proposal_height {
                Some(height) => {
                    &&& round.outcome.quorum_echos matches Some(hash)
                    &&& round.has_proposal(hash)
                    &&& match round.proposal(hash).unwrap().proposal.maybe_parent_round_id {
                        Some(parent) => {
                            &&& parent < r
                            &&& self.accepted_height(parent as int) matches Some(parent_height)
                            &&& height == spec_child_height(parent_height)
                            &&& forall|q: int|
                                parent < q < r ==> #[trigger] self.spec_is_skippable_round(q)
                        },
                        None => {
                            &&& height == 0
                            &&& forall|q: int|
                                0 <= q < r ==> #[trigger] self.spec_is_skippable_round(q)
                        },
                    }
                },
                None => true,
            },
            None => true,
        }
    }

    /// Every accepted proposal is acceptable.
    pub open spec fn wf_chain(&self) -> bool {
        forall|r: int| 0 <= r < self.rounds.len() ==> #[trigger] self.accepted_ok(r)
    }

    /// The round before the first that is not finalized has an accepted proposal,
    /// as long as the rounds are kept.
    pub open spec fn wf_finalized(&self) -> bool {
        self.first_non_finalized_round_id > 0 && !self.evidence_only ==> self.accepted_height(
            self.first_non_finalized_round_id - 1,
        ) is Some
    }

    /// Every proposal that waits builds on an earlier round, and in a round that
    /// can be started.
    pub open spec fn wf_waiting(&self) -> bool {
        &&& forall|i: int|
            0 <= i < self.proposals_waiting_for_parent.len() ==> {
                &&& (#[trigger] self.proposals_waiting_for_parent[i]).parent_round_id
                    < self.proposals_waiting_for_parent[i].round_id < u32::MAX
                &&& self.proposals_waiting_for_parent[i].proposal.maybe_parent_round_id == Some(
                    self.proposals_waiting_for_parent[i].parent_round_id,
                )
            }
        &&& forall|i: int|
            0 <= i < self.proposals_waiting_for_validation.len() ==> {
                &&& (#[trigger] self.proposals_waiting_for_validation[i]).round_id < u32::MAX
                &&& parent_is_earlier(
                    self.proposals_waiting_for_validation[i].maybe_parent_round_id,
                    self.proposals_waiting_for_validation[i].round_id as int,
                )
            }
        &&& match self.pending_proposal_round_ids {
            Some((round_id, maybe_parent)) => round_id < u32::MAX && parent_is_earlier(
                maybe_parent,
                round_id as int,
            ),
            None => true,
        }
    }

    /// Whether the quorums that were found in the round are quorums: the validators
    /// that have echoed the hash, or cast the vote, form a quorum together with the
    /// faulty validators.
    pub open spec fn quorums_ok(&self, r: int) -> bool {
        match self.round_at(r) {
            Some(round) => {
                &&& match round.outcome.quorum_echos {
                    Some(hash) => self.spec_is_quorum(round.echo_signatures(hash)),
                    None => true,
                }
                &&& match round.outcome.quorum_votes {
                    Some(vote) => self.spec_is_quorum(round.votes(vote)),
                    None => true,
                }
            },
            None => true,
        }
    }

    /// Every quorum that was found is a quorum.
    pub open spec fn wf_quorums(&self) -> bool {
        forall|r: int| 0 <= r < self.rounds.len() ==> #[trigger] self.quorums_ok(r)
    }

    /// Whether the rounds up to the last finalized one were finalized with the round
    /// `x`: that round is committed, and its accepted proposal builds on that of the
    /// last finalized round, or is that proposal.
    pub open spec fn finalized_through(&self, x: int) -> bool {
        &&& self.first_non_finalized_round_id - 1 <= x < self.rounds.len()
        &&& self.is_committed(x)
        &&& self.accepted_height(x) is Some
        &&& self.on_chain(x, self.first_non_finalized_round_id - 1)
    }

    /// What is finalized was finalized with a committed round, as long as the rounds
    /// are kept.
    pub open spec fn wf_committed(&self) -> bool {
        self.first_non_finalized_round_id > 0 && !self.evidence_only ==> exists|x: int|
            #[trigger] self.finalized_through(x)
    }

    /// The invariant of the protocol state.
    pub open spec fn wf(&self) -> bool {
        &&& self.wf_basic()
        &&& self.wf_parents()
        &&& self.wf_chain()
        &&& self.wf_finalized()
        &&& self.wf_waiting()
        &&& self.wf_quorums()
        &&& self.wf_committed()
    }

    /// Whether two states are of the same era and node: validators, weights,
    /// leaders, threshold, parameters and settings are the same.
    pub open spec fn same_era(&self, other: &SimpleConsensus<C>) -> bool {
        &&& self.params == other.params
        &&& self.instance_id == other.instance_id
        &&& self.validators == other.validators
        &&& self.total_weight == other.total_weight
        &&& self.leader_sequence == other.leader_sequence
        &&& self.ftt == other.ftt
        &&& self.config == other.config
        &&& self.weights == other.weights
    }

    /// How the state grows while the rounds are kept: rounds are started and never
    /// dropped, conclusions are drawn and never withdrawn, validators are found
    /// faulty and never cleared, and the first round that is not finalized never
    /// moves back.
    pub open spec fn extends(&self, after: &SimpleConsensus<C>) -> bool {
        &&& self.same_era(after)
        &&& self.rounds.len() <= after.rounds.len()
        &&& forall|r: int|
            0 <= r < self.rounds.len() && (#[trigger] self.rounds[r]) is Some
                ==> after.rounds[r] is Some && round_extends(
                self.rounds[r].unwrap(),
                after.rounds[r].unwrap(),
            )
        &&& self.faults.len() == after.faults.len()
        &&& forall|v: int|
            0 <= v < self.faults.len() && (#[trigger] self.faults[v]) is Some
                ==> after.faults[v] is Some
        &&& forall|v: int|
            0 <= v < self.faults.len() && #[trigger] is_direct_at(self.faults@, v)
                ==> after.faults[v] == self.faults[v]
        &&& self.first_non_finalized_round_id <= after.first_non_finalized_round_id
        &&& self.evidence_only == after.evidence_only
        &&& self.progress_detected ==> after.progress_detected
    }

    /// Whether the two states agree in what the caller controls: the local
    /// validator, the block that was asked for, and the timeout of the round.
    pub open spec fn same_control(&self, after: &SimpleConsensus<C>) -> bool {
        &&& after.active_validator == self.active_validator
        &&& after.pending_proposal_round_ids == self.pending_proposal_round_ids
        &&& after.current_timeout == self.current_timeout
        &&& after.proposal_timeout == self.proposal_timeout
    }

    /// The number of validators against which direct evidence can still be found.
    pub open spec fn fault_budget(&self) -> nat {
        (self.faults.len() - direct_count(self.faults@, self.faults.len() as int)) as nat
    }

    /// The number of rounds in which a proposal can still be accepted.
    pub open spec fn round_budget(&self) -> nat {
        (u32::MAX - accepted_count(self.rounds@, self.rounds.len() as int)) as nat
    }
}

/// No more faults are counted than there are validators.
pub proof fn lemma_direct_count_bound(faults: Seq<Option<Fault>>, k: int)
    requires
        0 <= k,
    ensures
        direct_count(faults, k) <= k,
    decreases k,
{
    if k > 0 {
        lemma_direct_count_bound(faults, k - 1);
    }
}

/// No more rounds are counted than there are.
pub proof fn lemma_accepted_count_bound(rounds: Seq<Option<Round>>, k: int)
    requires
        0 <= k,
    ensures
        accepted_count(rounds, k) <= k,
    decreases k,
{
    if k > 0 {
        lemma_accepted_count_bound(rounds, k - 1);
    }
}

/// Where direct evidence stays, the count does not fall; where it is found against
/// a further validator, the count rises.
pub proof fn lemma_direct_count_grows(
    before: Seq<Option<Fault>>,
    after: Seq<Option<Fault>>,
    k: int,
    found: int,
)
    requires
        0 <= k <= before.len() == after.len(),
        forall|v: int| 0 <= v < k && #[trigger] is_direct_at(before, v) ==> is_direct_at(after, v),
    ensures
        direct_count(before, k) <= direct_count(after, k),
        0 <= found < k && !is_direct_at(before, found) && is_direct_at(after, found)
            ==> direct_count(before, k) < direct_count(after, k),
    decreases k,
{
    if k > 0 {
        lemma_direct_count_grows(before, after, k - 1, found);
        assert(is_direct_at(before, k - 1) ==> is_direct_at(after, k - 1));
    }
}

/// Where accepted proposals stay accepted, the count does not fall; where a
/// proposal is accepted in a further round, the count rises.
pub proof fn lemma_accepted_count_grows(
    before: Seq<Option<Round>>,
    after: Seq<Option<Round>>,
    k: int,
    found: int,
)
    requires
        0 <= k <= before.len() <= after.len(),
        forall|r: int|
            0 <= r < k && #[trigger] is_accepted_at(before, r) ==> is_accepted_at(after, r),
    ensures
        accepted_count(before, k) <= accepted_count(after, k),
        0 <= found < k && !is_accepted_at(before, found) && is_accepted_at(after, found)
            ==> accepted_count(before, k) < accepted_count(after, k),
    decreases k,
{
    if k > 0 {
        lemma_accepted_count_grows(before, after, k - 1, found);
        assert(is_accepted_at(before, k - 1) ==> is_accepted_at(after, k - 1));
    }
}

/// Counting further rounds does not lower the count.
pub proof fn lemma_accepted_count_monotone(rounds: Seq<Option<Round>>, few: int, many: int)
    requires
        few <= many,
    ensures
        accepted_count(rounds, few) <= accepted_count(rounds, many),
    decreases many - few,
{
    if few < many {
        lemma_accepted_count_monotone(rounds, few, many - 1);
    }
}

/// To extend is reflexive.
pub proof fn lemma_extends_refl<C: Context>(state: &SimpleConsensus<C>)
    ensures
        state.extends(state),
{
}

/// To extend is transitive.
pub proof fn lemma_extends_trans<C: Context>(
    first: &SimpleConsensus<C>,
    second: &SimpleConsensus<C>,
    third: &SimpleConsensus<C>,
)
    requires
        first.extends(second),
        second.extends(third),
    ensures
        first.extends(third),
{
    assert forall|r: int|
        0 <= r < first.rounds.len() && (#[trigger] first.rounds[r]) is Some implies third.rounds[r] is Some
        && round_extends(first.rounds[r].unwrap(), third.rounds[r].unwrap()) by {
        assert(second.rounds[r] is Some);
        let a = first.rounds[r].unwrap();
        let b = second.rounds[r].unwrap();
        let c = third.rounds[r].unwrap();
        assert(round_extends(a, b));
        assert(round_extends(b, c));
        assert forall|i: int| 0 <= i < a.proposals.len() implies #[trigger] c.proposals[i]
            == a.proposals[i] by {
            assert(b.proposals[i] == a.proposals[i]);
        }
    }
    assert forall|v: int|
        0 <= v < first.faults.len() && (#[trigger] first.faults[v]) is Some implies third.faults[v] is Some by {
        assert(second.faults[v] is Some);
    }
    assert forall|v: int|
        0 <= v < first.faults.len() && #[trigger] is_direct_at(
            first.faults@,
            v,
        ) implies third.faults[v] == first.faults[v] by {
        assert(second.faults[v] == first.faults[v]);
        assert(is_direct_at(second.faults@, v));
    }
}

/// A state that extends another has no more left of either budget.
pub proof fn lemma_extends_budgets<C: Context>(
    before: &SimpleConsensus<C>,
    after: &SimpleConsensus<C>,
)
    requires
        before.extends(after),
        after.rounds.len() <= u32::MAX,
    ensures
        after.fault_budget() <= before.fault_budget(),
        after.round_budget() <= before.round_budget(),
{
    assert forall|v: int|
        0 <= v < before.faults.len() && #[trigger] is_direct_at(
            before.faults@,
            v,
        ) implies is_direct_at(after.faults@, v) by {
        assert(after.faults[v] == before.faults[v]);
    }
    assert forall|r: int|
        0 <= r < before.rounds.len() && #[trigger] is_accepted_at(
            before.rounds@,
            r,
        ) implies is_accepted_at(after.rounds@, r) by {
        assert(before.rounds[r] is Some);
    }
    lemma_direct_count_grows(before.faults@, after.faults@, before.faults.len() as int, 0);
    lemma_direct_count_bound(after.faults@, after.faults.len() as int);
    lemma_accepted_count_grows(before.rounds@, after.rounds@, before.rounds.len() as int, 0);
    lemma_accepted_count_monotone(
        after.rounds@,
        before.rounds.len() as int,
        after.rounds.len() as int,
    );
    lemma_accepted_count_bound(after.rounds@, after.rounds.len() as int);
}

/// What was accepted stays acceptable as the state grows.
pub proof fn lemma_extends_accepted_ok<C: Context>(
    before: &SimpleConsensus<C>,
    after: &SimpleConsensus<C>,
    r: int,
)
    requires
        before.wf_basic(),
        before.wf_chain(),
        after.wf_basic(),
        before.extends(after),
        0 <= r < before.rounds.len(),
        before.accepted_height(r) is Some,
    ensures
        after.accepted_ok(r),
{
    let old_round = before.rounds[r].unwrap();
    let new_round = after.rounds[r].unwrap();
    assert(before.accepted_ok(r));
    assert(round_extends(old_round, new_round));
    let hash = old_round.outcome.quorum_echos.unwrap();
    let i = old_round.proposal_position(hash).unwrap();
    assert(new_round.proposals[i] == old_round.proposals[i]);
    new_round.lemma_proposal_position(after.count(), i);
    old_round.lemma_proposal_position(before.count(), i);
    let proposal = old_round.proposals[i].proposal;
    match proposal.maybe_parent_round_id {
        Some(parent) => {
            assert(before.rounds[parent as int] is Some);
            assert forall|q: int| parent < q < r implies #[trigger] after.spec_is_skippable_round(
                q,
            ) by {
                assert(before.spec_is_skippable_round(q));
                assert(before.rounds[q] is Some);
            }
        },
        None => {
            assert forall|q: int| 0 <= q < r implies #[trigger] after.spec_is_skippable_round(
                q,
            ) by {
                assert(before.spec_is_skippable_round(q));
                assert(before.rounds[q] is Some);
            }
        },
    }
}

/// The proposal that is accepted in a round stays the accepted proposal as the
/// state extends.
pub proof fn lemma_extends_accepted_proposal<C: Context>(
    before: &SimpleConsensus<C>,
    after: &SimpleConsensus<C>,
    r: int,
)
    requires
        before.wf_basic(),
        after.wf_basic(),
        before.extends(after),
        before.accepted_proposal_at(r) is Some,
    ensures
        after.accepted_proposal_at(r) == before.accepted_proposal_at(r),
{
    assert(before.rounds[r] is Some);
    let old_round = before.rounds[r].unwrap();
    let new_round = after.rounds[r].unwrap();
    assert(round_extends(old_round, new_round));
    let hash = old_round.outcome.quorum_echos.unwrap();
    let i = old_round.proposal_position(hash).unwrap();
    assert(new_round.proposals[i] == old_round.proposals[i]);
    new_round.lemma_proposal_position(after.count(), i);
    old_round.lemma_proposal_position(before.count(), i);
}

/// A proposal that builds on another keeps building on it as the state extends.
pub proof fn lemma_extends_on_chain<C: Context>(
    before: &SimpleConsensus<C>,
    after: &SimpleConsensus<C>,
    descendant: int,
    ancestor: int,
)
    requires
        before.wf_basic(),
        after.wf_basic(),
        before.extends(after),
        before.on_chain(descendant, ancestor),
    ensures
        after.on_chain(descendant, ancestor),
    decreases descendant,
{
    lemma_extends_accepted_proposal(before, after, descendant);
    if descendant != ancestor {
        let parent = before.accepted_proposal_at(descendant).unwrap().1.maybe_parent_round_id.unwrap();
        lemma_extends_on_chain(before, after, parent as int, ancestor);
    }
}

/// The invariant is kept as the state grows, provided that the shape of the state
/// is kept, that no proposal is accepted that was not, and that what was added to
/// the proposals held and to those that wait builds on earlier rounds.
pub proof fn lemma_extends_wf<C: Context>(before: &SimpleConsensus<C>, after: &SimpleConsensus<C>)
    requires
        before.wf(),
        before.extends(after),
        after.wf_basic(),
        after.wf_parents(),
        after.wf_waiting(),
        forall|r: int|
            0 <= r < after.rounds.len() && (#[trigger] after.accepted_height(r)) is Some
                ==> before.accepted_height(r) is Some || after.accepted_ok(r),
        after.first_non_finalized_round_id == before.first_non_finalized_round_id
            || after.wf_finalized(),
        after.wf_quorums() || (after.rounds@ == before.rounds@ && after.faults@
            == before.faults@),
        after.first_non_finalized_round_id == before.first_non_finalized_round_id
            || after.wf_committed(),
    ensures
        after.wf(),
{
    if after.first_non_finalized_round_id == before.first_non_finalized_round_id
        && after.first_non_finalized_round_id > 0 && !after.evidence_only {
        let x = choose|x: int| #[trigger] before.finalized_through(x);
        lemma_extends_outcome(before, after, x);
        lemma_extends_on_chain(before, after, x, before.first_non_finalized_round_id - 1);
        assert(after.finalized_through(x));
    }
    if !after.wf_quorums() {
        assert forall|r: int| 0 <= r < after.rounds.len() implies #[trigger] after.quorums_ok(
            r,
        ) by {
            assert(before.quorums_ok(r));
            assert(after.round_at(r) == before.round_at(r));
            assert(after.faulty() == before.faulty());
        }
    }
    assert forall|r: int| 0 <= r < after.rounds.len() implies #[trigger] after.accepted_ok(r) by {
        if after.accepted_height(r) is Some && before.accepted_height(r) is Some {
            lemma_extends_accepted_ok(before, after, r);
        }
    }
    if after.first_non_finalized_round_id == before.first_non_finalized_round_id
        && after.first_non_finalized_round_id > 0 && !after.evidence_only {
        let last = before.first_non_finalized_round_id - 1;
        assert(before.rounds[last] is Some);
    }
}

/// The invariant is kept where one round is replaced by a round that extends it,
/// or a round is started, provided that no proposal is accepted that was not, or
/// that what is accepted is acceptable.
pub proof fn lemma_replace_round<C: Context>(
    before: &SimpleConsensus<C>,
    after: &SimpleConsensus<C>,
    r: int,
)
    requires
        before.wf(),
        0 <= r < after.rounds.len() <= u32::MAX,
        before.rounds.len() <= after.rounds.len(),
        *after == (SimpleConsensus { rounds: after.rounds, ..*before }),
        forall|q: int|
            0 <= q < after.rounds.len() && q != r ==> #[trigger] after.rounds[q] == before.round_at(
                q,
            ),
        after.rounds[r] is Some,
        after.rounds[r].unwrap().wf(before.count()),
        before.round_at(r) is Some ==> round_extends(
            before.round_at(r).unwrap(),
            after.rounds[r].unwrap(),
        ),
        forall|i: int|
            0 <= i < after.rounds[r].unwrap().proposals.len() ==> parent_is_earlier(
                (#[trigger] after.rounds[r].unwrap().proposals[i]).proposal.maybe_parent_round_id,
                r,
            ),
        after.accepted_height(r) is Some ==> before.accepted_height(r) is Some
            || after.accepted_ok(r),
        after.quorums_ok(r),
    ensures
        after.wf(),
        before.extends(after),
{
    assert(after.wf_quorums()) by {
        assert forall|q: int| 0 <= q < after.rounds.len() implies #[trigger] after.quorums_ok(
            q,
        ) by {
            if q != r {
                assert(after.rounds[q] == before.round_at(q));
                assert(after.round_at(q) == before.round_at(q));
                if q < before.rounds.len() {
                    assert(before.quorums_ok(q));
                }
            }
        }
    }
    assert(after.wf_basic()) by {
        assert forall|q: int|
            0 <= q < after.rounds.len() && (#[trigger] after.rounds[q]) is Some implies after.rounds[q].unwrap().wf(
            after.count(),
        ) by {
            if q != r {
                assert(after.rounds[q] == before.round_at(q));
            }
        }
    }
    assert(before.extends(after)) by {
        assert forall|q: int|
            0 <= q < before.rounds.len() && (#[trigger] before.rounds[q]) is Some implies after.rounds[q] is Some
            && round_extends(before.rounds[q].unwrap(), after.rounds[q].unwrap()) by {
            if q != r {
                assert(after.rounds[q] == before.round_at(q));
            }
        }
    }
    assert(after.wf_parents()) by {
        assert forall|q: int, i: int|
            0 <= q < after.rounds.len() && after.rounds[q] is Some && 0 <= i
                < after.rounds[q].unwrap().proposals.len() implies parent_is_earlier(
            (#[trigger] after.rounds[q].unwrap().proposals[i]).proposal.maybe_parent_round_id,
            q,
        ) by {
            if q != r {
                assert(after.rounds[q] == before.round_at(q));
            }
        }
    }
    assert forall|q: int|
        0 <= q < after.rounds.len() && (#[trigger] after.accepted_height(q)) is Some implies before.accepted_height(
        q,
    ) is Some || after.accepted_ok(q) by {
        if q != r {
            assert(after.rounds[q] == before.round_at(q));
        }
    }
    lemma_extends_wf(before, after);
}

/// The invariant is kept where one round changes, or is started and changes, into
/// a round that extends it and that holds the proposals it held, or others that
/// build on earlier rounds, provided that no proposal is accepted that was not, or
/// that what is accepted is acceptable.
pub proof fn lemma_round_changed<C: Context>(
    before: &SimpleConsensus<C>,
    after: &SimpleConsensus<C>,
    r: int,
)
    requires
        before.wf(),
        0 <= r < u32::MAX,
        before.same_but_round(after, r),
        after.rounds[r] is Some,
        after.rounds[r].unwrap().wf(before.count()),
        before.round_at(r) is Some ==> round_extends(
            before.round_at(r).unwrap(),
            after.rounds[r].unwrap(),
        ),
        after.rounds[r].unwrap().proposals@ == before.proposals_at(r) || forall|i: int|
            0 <= i < after.rounds[r].unwrap().proposals.len() ==> parent_is_earlier(
                (#[trigger] after.rounds[r].unwrap().proposals[i]).proposal.maybe_parent_round_id,
                r,
            ),
        after.accepted_height(r) is Some ==> before.accepted_height(r) is Some
            || after.accepted_ok(r),
        after.quorums_ok(r),
    ensures
        after.wf(),
        before.extends(after),
{
    assert forall|q: int| 0 <= q < after.rounds.len() && q != r implies #[trigger] after.rounds[q]
        == before.round_at(q) by {
        assert(after.round_at(q) == before.round_at(q));
    }
    let round = after.rounds[r].unwrap();
    assert forall|i: int| 0 <= i < round.proposals.len() implies parent_is_earlier(
        (#[trigger] round.proposals[i]).proposal.maybe_parent_round_id,
        r,
    ) by {
        if round.proposals@ == before.proposals_at(r) {
            assert(before.round_at(r) is Some);
            assert(before.rounds[r].unwrap().proposals[i] == round.proposals[i]);
        }
    }
    lemma_replace_round(before, after, r);
}

/// Where a proposal is accepted in one more round, and nothing else changes in
/// which rounds have an accepted proposal, the count rises.
pub proof fn lemma_accepted_step(before: Seq<Option<Round>>, after: Seq<Option<Round>>, r: int)
    requires
        0 <= r < before.len() == after.len() <= u32::MAX,
        !is_accepted_at(before, r),
        is_accepted_at(after, r),
        forall|q: int|
            0 <= q < before.len() && #[trigger] is_accepted_at(before, q) ==> is_accepted_at(
                after,
                q,
            ),
    ensures
        accepted_count(before, before.len() as int) < accepted_count(after, after.len() as int)
            <= u32::MAX,
{
    lemma_accepted_count_grows(before, after, before.len() as int, r);
    lemma_accepted_count_bound(after, after.len() as int);
}

/// What a round may become while no validator is found faulty: every vote and
/// every echo that it holds stays as it is.
pub open spec fn round_keeps(before: Round, after: Round) -> bool {
    &&& after.votes_true.len() == before.votes_true.len()
    &&& after.votes_false.len() == before.votes_false.len()
    &&& forall|v: int|
        0 <= v < before.votes_true.len() && (#[trigger] before.votes_true@[v]) is Some
            ==> after.votes_true@[v] == before.votes_true@[v]
    &&& forall|v: int|
        0 <= v < before.votes_false.len() && (#[trigger] before.votes_false@[v]) is Some
            ==> after.votes_false@[v] == before.votes_false@[v]
    &&& forall|hash: Digest, v: int|
        #![trigger before.echo_signature(hash, v)]
        before.echo_signature(hash, v) is Some ==> after.echo_signature(hash, v)
            == before.echo_signature(hash, v)
}

/// Whether every proposal that waits in the one list waits in the other.
pub open spec fn waits_in(
    fewer: Seq<WaitingProposal>,
    more: Seq<WaitingProposal>,
) -> bool {
    forall|i: int| 0 <= i < fewer.len() ==> more.contains(#[trigger] fewer[i])
}

impl<C: Context> SimpleConsensus<C> {
    /// How the state grows while no validator is found faulty and no message of a
    /// peer is made to wait: it extends, the faults are the same, every vote and
    /// every echo stays as it is, and no proposal is made to wait for its parent
    /// that did not wait.
    pub open spec fn grows(&self, after: &SimpleConsensus<C>) -> bool {
        &&& self.extends(after)
        &&& after.faults@ == self.faults@
        &&& forall|r: int|
            0 <= r < self.rounds.len() && (#[trigger] self.rounds[r]) is Some ==> round_keeps(
                self.rounds[r].unwrap(),
                after.rounds[r].unwrap(),
            )
        &&& waits_in(after.proposals_waiting_for_parent@, self.proposals_waiting_for_parent@)
    }

    /// The signature under the vote of the validator in the round, if the round holds
    /// one.
    #[verifier::opaque]
    pub open spec fn vote_at(&self, round_id: int, vote: bool, v: int) -> Option<Signature> {
        match self.round_at(round_id) {
            Some(round) => if 0 <= v < round.votes(vote).len() {
                round.votes(vote)[v]
            } else {
                None
            },
            None => None,
        }
    }

    /// The signature under the echo of the hash by the validator in the round, if
    /// the round holds one.
    #[verifier::opaque]
    pub open spec fn echo_at(&self, round_id: int, hash: Digest, v: int) -> Option<Signature> {
        match self.round_at(round_id) {
            Some(round) => round.echo_signature(hash, v),
            None => None,
        }
    }

    /// The local validator, if there is one.
    pub open spec fn own(&self) -> Set<int> {
        match self.active_validator {
            Some((index, _)) => set![index.0 as int],
            None => Set::empty(),
        }
    }

    /// Whether every vote and every echo that `after` holds and `self` does not is of
    /// one of the signers.
    pub open spec fn adds_only(&self, after: &SimpleConsensus<C>, signers: Set<int>) -> bool {
        &&& forall|r: int, vote: bool, v: int|
            !signers.contains(v) && (#[trigger] after.vote_at(r, vote, v)) is Some
                ==> self.vote_at(r, vote, v) is Some
        &&& forall|r: int, hash: Digest, v: int|
            !signers.contains(v) && (#[trigger] after.echo_at(r, hash, v)) is Some
                ==> self.echo_at(r, hash, v) is Some
    }

    /// Whether no round holds a vote or an echo of the validator.
    pub open spec fn holds_nothing_of(&self, v: int) -> bool {
        &&& forall|r: int, vote: bool| (#[trigger] self.vote_at(r, vote, v)) is None
        &&& forall|r: int, hash: Digest| (#[trigger] self.echo_at(r, hash, v)) is None
    }

    /// Whether every vote and every echo that `self` holds of a validator other than
    /// those excepted, `after` holds as it is.
    pub open spec fn keeps_signed(&self, after: &SimpleConsensus<C>, except: Set<int>) -> bool {
        &&& forall|r: int, vote: bool, v: int|
            !except.contains(v) && (#[trigger] self.vote_at(r, vote, v)) is Some
                ==> after.vote_at(r, vote, v) == self.vote_at(r, vote, v)
        &&& forall|r: int, hash: Digest, v: int|
            !except.contains(v) && (#[trigger] self.echo_at(r, hash, v)) is Some
                ==> after.echo_at(r, hash, v) == self.echo_at(r, hash, v)
    }

    /// Whether the round is skippable.
    #[verifier::opaque]
    pub open spec fn skipped_at(&self, round_id: int) -> bool {
        self.spec_is_skippable_round(round_id)
    }

    /// Whether the same rounds are skippable in both states.
    pub open spec fn same_skipped(&self, after: &SimpleConsensus<C>) -> bool {
        forall|q: int| #[trigger] after.skipped_at(q) == self.skipped_at(q)
    }

    /// Whether the round is settled: if it is committed and holds an accepted
    /// proposal, it is finalized.
    #[verifier::opaque]
    pub open spec fn settled_at(&self, round_id: int) -> bool {
        self.outcome_at(round_id).quorum_votes == Some(true) && self.accepted_height(round_id)
            is Some ==> round_id < self.first_non_finalized_round_id
    }

    /// Whether every round that is settled in `self` is settled in `after`.
    pub open spec fn settles(&self, after: &SimpleConsensus<C>) -> bool {
        forall|q: int| self.settled_at(q) ==> #[trigger] after.settled_at(q)
    }

    /// Whether every round but one that is settled in `self` is settled in `after`.
    pub open spec fn settles_but(&self, after: &SimpleConsensus<C>, round_id: int) -> bool {
        forall|q: int| q != round_id && self.settled_at(q) ==> #[trigger] after.settled_at(q)
    }

    /// Whether the proposal waits for the proposal of its parent round.
    #[verifier::opaque]
    pub open spec fn waits(&self, waiting: WaitingProposal) -> bool {
        self.proposals_waiting_for_parent@.contains(waiting)
    }

    /// Whether the proposal awaits the validation of its block.
    #[verifier::opaque]
    pub open spec fn awaits(&self, pending: PendingView) -> bool {
        exists|i: int|
            0 <= i < self.proposals_waiting_for_validation.len()
                && (#[trigger] self.proposals_waiting_for_validation[i])@ == pending
    }

    /// Whether a proposal is accepted in the round.
    #[verifier::opaque]
    pub open spec fn accepted_at(&self, round_id: int) -> bool {
        self.accepted_height(round_id) is Some
    }

    /// Whether `after` keeps what waits in `self`: every proposal that waits for an
    /// accepted proposal, and every proposal that awaits validation. What is
    /// accepted stays accepted.
    pub open spec fn keeps_waiting(&self, after: &SimpleConsensus<C>) -> bool {
        &&& forall|r: int| self.accepted_at(r) ==> #[trigger] after.accepted_at(r)
        &&& forall|waiting: WaitingProposal|
            self.waits(waiting) && self.accepted_at(waiting.parent_round_id as int)
                ==> #[trigger] after.waits(waiting)
        &&& forall|pending: PendingView| self.awaits(pending) ==> #[trigger] after.awaits(pending)
    }

    /// Whether no proposal waits for the proposal of the round.
    pub open spec fn none_waits_for(&self, round_id: int) -> bool {
        forall|i: int|
            0 <= i < self.proposals_waiting_for_parent.len() ==> (
            #[trigger] self.proposals_waiting_for_parent[i]).parent_round_id != round_id
    }
}

/// Where nothing waits for a round, nothing waits for it as the state grows.
pub proof fn lemma_grows_none_waits<C: Context>(
    before: &SimpleConsensus<C>,
    after: &SimpleConsensus<C>,
    round_id: int,
)
    requires
        before.grows(after),
        before.none_waits_for(round_id),
    ensures
        after.none_waits_for(round_id),
{
    assert forall|i: int| 0 <= i < after.proposals_waiting_for_parent.len() implies (
    #[trigger] after.proposals_waiting_for_parent[i]).parent_round_id != round_id by {
        let entry = after.proposals_waiting_for_parent[i];
        assert(before.proposals_waiting_for_parent@.contains(entry));
        let j = choose|j: int|
            0 <= j < before.proposals_waiting_for_parent.len()
                && before.proposals_waiting_for_parent[j] == entry;
        assert(before.proposals_waiting_for_parent[j].parent_round_id != round_id);
    }
}

/// Where the state extends and the same proposals wait and await validation, what
/// waits is kept.
pub proof fn lemma_keeps_waiting<C: Context>(before: &SimpleConsensus<C>, after: &SimpleConsensus<C>)
    requires
        before.extends(after),
        after.proposals_waiting_for_parent@ == before.proposals_waiting_for_parent@,
        after.proposals_waiting_for_validation@ == before.proposals_waiting_for_validation@,
    ensures
        before.keeps_waiting(after),
{
    reveal(SimpleConsensus::waits);
    reveal(SimpleConsensus::awaits);
    reveal(SimpleConsensus::accepted_at);
    assert forall|r: int| before.accepted_at(r) implies #[trigger] after.accepted_at(r) by {
        lemma_extends_outcome(before, after, r);
    }
    assert forall|pending: PendingView| before.awaits(pending) implies #[trigger] after.awaits(
        pending,
    ) by {
        let i = choose|i: int|
            0 <= i < before.proposals_waiting_for_validation.len()
                && (#[trigger] before.proposals_waiting_for_validation[i])@ == pending;
        assert(after.proposals_waiting_for_validation[i] == before.proposals_waiting_for_validation[i]);
    }
}

/// Where no round but one is decided or changes what it has accepted, and nothing
/// that is finalized ceases to be, every other round that was settled is settled.
pub proof fn lemma_settles_but<C: Context>(
    before: &SimpleConsensus<C>,
    after: &SimpleConsensus<C>,
    round_id: int,
)
    requires
        forall|q: int|
            q != round_id ==> (#[trigger] after.outcome_at(q)).quorum_votes
                == before.outcome_at(q).quorum_votes,
        forall|q: int|
            q != round_id ==> #[trigger] after.accepted_height(q) == before.accepted_height(q),
        before.first_non_finalized_round_id <= after.first_non_finalized_round_id,
    ensures
        before.settles_but(after, round_id),
{
    reveal(SimpleConsensus::settled_at);
    assert forall|q: int| q != round_id && before.settled_at(q) implies #[trigger] after.settled_at(
        q,
    ) by {
        assert(after.outcome_at(q).quorum_votes == before.outcome_at(q).quorum_votes);
        assert(after.accepted_height(q) == before.accepted_height(q));
    }
}

/// Where no round is decided or changes what it has accepted, and nothing that is
/// finalized ceases to be, every round that was settled is settled.
pub proof fn lemma_settles<C: Context>(before: &SimpleConsensus<C>, after: &SimpleConsensus<C>)
    requires
        forall|q: int| (#[trigger] after.outcome_at(q)).quorum_votes == before.outcome_at(q).quorum_votes,
        forall|q: int| #[trigger] after.accepted_height(q) == before.accepted_height(q),
        before.first_non_finalized_round_id <= after.first_non_finalized_round_id,
    ensures
        before.settles(after),
{
    reveal(SimpleConsensus::settled_at);
    assert forall|q: int| before.settled_at(q) implies #[trigger] after.settled_at(q) by {
        assert(after.outcome_at(q).quorum_votes == before.outcome_at(q).quorum_votes);
        assert(after.accepted_height(q) == before.accepted_height(q));
    }
}

/// A round that is not both committed and accepted, or is finalized, is settled.
pub proof fn lemma_settled<C: Context>(state: &SimpleConsensus<C>, round_id: int)
    requires
        state.outcome_at(round_id).quorum_votes == Some(true) && state.accepted_height(round_id)
            is Some ==> round_id < state.first_non_finalized_round_id,
    ensures
        state.settled_at(round_id),
{
    reveal(SimpleConsensus::settled_at);
}

/// Where no round becomes skippable or ceases to be, the same rounds are
/// skippable.
pub proof fn lemma_same_skipped<C: Context>(before: &SimpleConsensus<C>, after: &SimpleConsensus<C>)
    requires
        forall|q: int| #[trigger]
            after.spec_is_skippable_round(q) == before.spec_is_skippable_round(q),
    ensures
        before.same_skipped(after),
{
    reveal(SimpleConsensus::skipped_at);
}

/// Where the rounds are the same, every vote and every echo is kept.
pub proof fn lemma_keeps_rounds<C: Context>(before: &SimpleConsensus<C>, after: &SimpleConsensus<C>)
    requires
        forall|r: int| #[trigger] after.round_at(r) == before.round_at(r),
    ensures
        before.keeps_signed(after, Set::empty()),
{
    reveal(SimpleConsensus::vote_at);
    reveal(SimpleConsensus::echo_at);
    assert forall|r: int, vote: bool, v: int| (#[trigger] before.vote_at(r, vote, v)) is Some implies
        after.vote_at(r, vote, v) == before.vote_at(r, vote, v) by {
        assert(after.round_at(r) == before.round_at(r));
    }
    assert forall|r: int, hash: Digest, v: int| (#[trigger] before.echo_at(r, hash, v)) is Some implies
        after.echo_at(r, hash, v) == before.echo_at(r, hash, v) by {
        assert(after.round_at(r) == before.round_at(r));
    }
}

/// As the state grows, it keeps every vote and every echo as it is.
pub proof fn lemma_grows_keeps<C: Context>(before: &SimpleConsensus<C>, after: &SimpleConsensus<C>)
    requires
        before.wf_basic(),
        after.wf_basic(),
        before.grows(after),
    ensures
        before.keeps_signed(after, Set::empty()),
{
    reveal(SimpleConsensus::vote_at);
    reveal(SimpleConsensus::echo_at);
    assert forall|r: int, vote: bool, v: int| (#[trigger] before.vote_at(r, vote, v)) is Some implies
        after.vote_at(r, vote, v) == before.vote_at(r, vote, v) by {
        assert(before.rounds[r] is Some);
        assert(round_keeps(before.rounds[r].unwrap(), after.rounds[r].unwrap()));
        assert(before.rounds[r].unwrap().wf(before.count()));
        assert(after.rounds[r].unwrap().wf(after.count()));
    }
    assert forall|r: int, hash: Digest, v: int| (#[trigger] before.echo_at(r, hash, v)) is Some implies
        after.echo_at(r, hash, v) == before.echo_at(r, hash, v) by {
        assert(before.rounds[r] is Some);
        assert(round_keeps(before.rounds[r].unwrap(), after.rounds[r].unwrap()));
    }
}

/// Where the rounds are the same, no vote and no echo is added.
pub proof fn lemma_adds_nothing<C: Context>(before: &SimpleConsensus<C>, after: &SimpleConsensus<C>)
    requires
        forall|r: int| #[trigger] after.round_at(r) == before.round_at(r),
    ensures
        before.adds_only(after, Set::empty()),
{
    reveal(SimpleConsensus::vote_at);
    reveal(SimpleConsensus::echo_at);
    assert forall|r: int, vote: bool, v: int| (#[trigger] after.vote_at(r, vote, v)) is Some implies
        before.vote_at(r, vote, v) is Some by {
        assert(after.round_at(r) == before.round_at(r));
    }
    assert forall|r: int, hash: Digest, v: int| (#[trigger] after.echo_at(r, hash, v)) is Some implies
        before.echo_at(r, hash, v) is Some by {
        assert(after.round_at(r) == before.round_at(r));
    }
}

/// Where one round changes, or is started and changes, and the votes and echoes
/// that it did not hold are of the signers, no others are added.
pub proof fn lemma_adds_in_one_round<C: Context>(
    before: &SimpleConsensus<C>,
    after: &SimpleConsensus<C>,
    round_id: int,
    signers: Set<int>,
)
    requires
        forall|q: int| q != round_id ==> #[trigger] after.round_at(q) == before.round_at(q),
        forall|vote: bool, v: int|
            !signers.contains(v) && (#[trigger] after.vote_at(round_id, vote, v)) is Some
                ==> before.vote_at(round_id, vote, v) is Some,
        forall|hash: Digest, v: int|
            !signers.contains(v) && (#[trigger] after.echo_at(round_id, hash, v)) is Some
                ==> before.echo_at(round_id, hash, v) is Some,
    ensures
        before.adds_only(after, signers),
{
    assert forall|r: int, vote: bool, v: int|
        !signers.contains(v) && (#[trigger] after.vote_at(r, vote, v)) is Some implies before.vote_at(
        r,
        vote,
        v,
    ) is Some by {
        reveal(SimpleConsensus::vote_at);
        if r != round_id {
            assert(after.round_at(r) == before.round_at(r));
        }
    }
    assert forall|r: int, hash: Digest, v: int|
        !signers.contains(v) && (#[trigger] after.echo_at(r, hash, v)) is Some implies before.echo_at(
        r,
        hash,
        v,
    ) is Some by {
        reveal(SimpleConsensus::echo_at);
        if r != round_id {
            assert(after.round_at(r) == before.round_at(r));
        }
    }
}

/// To grow is reflexive.
pub proof fn lemma_grows_refl<C: Context>(state: &SimpleConsensus<C>)
    ensures
        state.grows(state),
{
    assert forall|i: int|
        0 <= i < state.proposals_waiting_for_parent.len() implies state.proposals_waiting_for_parent@.contains(
        #[trigger] state.proposals_waiting_for_parent[i],
    ) by {}
}

/// To grow is transitive.
pub proof fn lemma_grows_trans<C: Context>(
    first: &SimpleConsensus<C>,
    second: &SimpleConsensus<C>,
    third: &SimpleConsensus<C>,
)
    requires
        first.grows(second),
        second.grows(third),
    ensures
        first.grows(third),
{
    lemma_extends_trans(first, second, third);
    assert forall|i: int|
        0 <= i < third.proposals_waiting_for_parent.len() implies first.proposals_waiting_for_parent@.contains(
        #[trigger] third.proposals_waiting_for_parent[i],
    ) by {
        let entry = third.proposals_waiting_for_parent[i];
        assert(second.proposals_waiting_for_parent@.contains(entry));
        let j = choose|j: int|
            0 <= j < second.proposals_waiting_for_parent.len()
                && second.proposals_waiting_for_parent[j] == entry;
        assert(first.proposals_waiting_for_parent@.contains(second.proposals_waiting_for_parent[j]));
    }
    assert forall|r: int|
        0 <= r < first.rounds.len() && (#[trigger] first.rounds[r]) is Some implies round_keeps(
        first.rounds[r].unwrap(),
        third.rounds[r].unwrap(),
    ) by {
        assert(second.rounds[r] is Some);
        let a = first.rounds[r].unwrap();
        let b = second.rounds[r].unwrap();
        let c = third.rounds[r].unwrap();
        assert(round_keeps(a, b));
        assert(round_keeps(b, c));
        assert forall|v: int|
            0 <= v < a.votes_true.len() && (#[trigger] a.votes_true@[v]) is Some implies c.votes_true@[v]
            == a.votes_true@[v] by {
            assert(b.votes_true@[v] is Some);
        }
        assert forall|v: int|
            0 <= v < a.votes_false.len() && (#[trigger] a.votes_false@[v]) is Some implies c.votes_false@[v]
            == a.votes_false@[v] by {
            assert(b.votes_false@[v] is Some);
        }
        assert forall|hash: Digest, v: int|
            #![trigger a.echo_signature(hash, v)]
            a.echo_signature(hash, v) is Some implies c.echo_signature(hash, v)
            == a.echo_signature(hash, v) by {
            assert(b.echo_signature(hash, v) is Some);
        }
    }
}

/// The state grows where one round changes, or is started and changes, and keeps
/// the votes and echoes that it held.
pub proof fn lemma_grows_one_round<C: Context>(
    before: &SimpleConsensus<C>,
    after: &SimpleConsensus<C>,
    r: int,
)
    requires
        before.extends(after),
        before.same_but_round(after, r),
        before.wf_basic(),
        after.wf_basic(),
        before.round_at(r) is Some ==> after.round_at(r) is Some && round_keeps(
            before.round_at(r).unwrap(),
            after.round_at(r).unwrap(),
        ),
    ensures
        before.grows(after),
{
    assert forall|i: int|
        0 <= i < after.proposals_waiting_for_parent.len() implies before.proposals_waiting_for_parent@.contains(
        #[trigger] after.proposals_waiting_for_parent[i],
    ) by {}
    assert forall|q: int|
        0 <= q < before.rounds.len() && (#[trigger] before.rounds[q]) is Some implies round_keeps(
        before.rounds[q].unwrap(),
        after.rounds[q].unwrap(),
    ) by {
        if q != r {
            assert(after.round_at(q) == before.round_at(q));
        }
    }
}

/// A proposal that is accepted stays accepted, at the same height, as the state
/// extends.
pub proof fn lemma_extends_accepted<C: Context>(
    before: &SimpleConsensus<C>,
    after: &SimpleConsensus<C>,
    r: int,
)
    requires
        before.extends(after),
        before.accepted_height(r) is Some,
    ensures
        after.accepted_height(r) == before.accepted_height(r),
{
    assert(before.rounds[r] is Some);
}

/// The quorums that were found in a round stay quorums where the round keeps its
/// votes and echoes and finds no further quorum, and the faulty validators stay
/// faulty.
pub proof fn lemma_keeps_quorums<C: Context>(
    before: &SimpleConsensus<C>,
    after: &SimpleConsensus<C>,
    r: int,
)
    requires
        before.wf_basic(),
        after.wf_basic(),
        before.same_era(after),
        before.quorums_ok(r),
        after.round_at(r) is Some,
        before.round_at(r) is Some ==> round_keeps(
            before.round_at(r).unwrap(),
            after.round_at(r).unwrap(),
        ),
        after.outcome_at(r).quorum_echos == before.outcome_at(r).quorum_echos,
        after.outcome_at(r).quorum_votes == before.outcome_at(r).quorum_votes,
        before.faults.len() == after.faults.len(),
        forall|v: int|
            0 <= v < before.faults.len() && (#[trigger] before.faults[v]) is Some
                ==> after.faults[v] is Some,
    ensures
        after.quorums_ok(r),
{
    if before.round_at(r) is Some {
        let old_round = before.round_at(r).unwrap();
        let new_round = after.round_at(r).unwrap();
        let n = before.weights.len() as int;
        match new_round.outcome.quorum_echos {
            Some(hash) => {
                let small = present(old_round.echo_signatures(hash)).union(before.faulty());
                let large = present(new_round.echo_signatures(hash)).union(after.faulty());
                assert forall|v: int| 0 <= v < n && small.contains(v) implies large.contains(v) by {
                    if present(old_round.echo_signatures(hash)).contains(v) {
                        assert(old_round.echo_signature(hash, v) is Some);
                        assert(new_round.echo_signature(hash, v) is Some);
                    } else {
                        assert(before.faults[v] is Some);
                    }
                }
                lemma_weight_monotone(before.weights@, small, large, n);
            },
            None => {},
        }
        match new_round.outcome.quorum_votes {
            Some(vote) => {
                let small = present(old_round.votes(vote)).union(before.faulty());
                let large = present(new_round.votes(vote)).union(after.faulty());
                assert forall|v: int| 0 <= v < n && small.contains(v) implies large.contains(v) by {
                    if present(old_round.votes(vote)).contains(v) {
                        if vote {
                            assert(old_round.votes_true@[v] is Some);
                        } else {
                            assert(old_round.votes_false@[v] is Some);
                        }
                    } else {
                        assert(before.faults[v] is Some);
                    }
                }
                lemma_weight_monotone(before.weights@, small, large, n);
            },
            None => {},
        }
    }
}

/// The quorums that were found stay quorums where the rounds stay as they are and
/// the faulty validators stay faulty.
pub proof fn lemma_faults_grow_quorums<C: Context>(
    before: &SimpleConsensus<C>,
    after: &SimpleConsensus<C>,
)
    requires
        before.wf_basic(),
        after.wf_basic(),
        before.wf_quorums(),
        before.same_era(after),
        after.rounds@ == before.rounds@,
        before.faults.len() == after.faults.len(),
        forall|v: int|
            0 <= v < before.faults.len() && (#[trigger] before.faults[v]) is Some
                ==> after.faults[v] is Some,
    ensures
        after.wf_quorums(),
{
    assert forall|r: int| 0 <= r < after.rounds.len() implies #[trigger] after.quorums_ok(r) by {
        assert(before.quorums_ok(r));
        assert(after.round_at(r) == before.round_at(r));
        if after.round_at(r) is Some {
            lemma_keeps_quorums(before, after, r);
        }
    }
}

/// What has been concluded in a round stays as it is as the state extends.
pub proof fn lemma_extends_outcome<C: Context>(
    before: &SimpleConsensus<C>,
    after: &SimpleConsensus<C>,
    r: int,
)
    requires
        before.extends(after),
    ensures
        before.outcome_at(r).quorum_echos is Some ==> after.outcome_at(r).quorum_echos
            == before.outcome_at(r).quorum_echos,
        before.outcome_at(r).quorum_votes is Some ==> after.outcome_at(r).quorum_votes
            == before.outcome_at(r).quorum_votes,
        before.accepted_height(r) is Some ==> after.accepted_height(r) == before.accepted_height(
            r,
        ),
{
    if before.round_at(r) is Some {
        assert(before.rounds[r] is Some);
    }
}

} // verus!

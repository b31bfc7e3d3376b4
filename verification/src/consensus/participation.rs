//! Which validators take part in the protocol, and which do not.

use vstd::prelude::*;
use crate::consensus::context::Context;
use crate::consensus::state::{lemma_weight_prefix, Fault, SimpleConsensus};
use crate::consensus::types::{InstanceId, RoundId, ValidatorId, ValidatorIndex};
use crate::consensus::weights::{total_weight, weight_upto};

verus! {

/// The participation of a validator that is faulty or inactive. The later a status
/// stands in this list, the graver it is; of two validators last seen, the one seen
/// in the later round has the graver status.
#[derive(Copy, Clone, Debug, PartialEq, Eq, Structural)]
pub enum ParticipationStatus {
    /// The validator was last seen in the round, which is not a recent one.
    LastSeenInRound(RoundId),
    /// The validator has not been seen in this era.
    Inactive,
    /// The validator is faulty by evidence that another era holds, or was banned.
    EquivocatedInOtherEra,
    /// This era holds evidence against the validator.
    Equivocated,
}

/// The rank of a status: a graver status has a higher rank.
pub open spec fn status_rank(status: ParticipationStatus) -> int {
    match status {
        ParticipationStatus::LastSeenInRound(round_id) => round_id as int,
        ParticipationStatus::Inactive => 0x1_0000_0000,
        ParticipationStatus::EquivocatedInOtherEra => 0x1_0000_0001,
        ParticipationStatus::Equivocated => 0x1_0000_0002,
    }
}

/// An entry of a participation report: a validator with its status.
pub type Participant = (ValidatorIndex, ValidatorId, ParticipationStatus);

/// Whether one entry comes before another in a report: the graver status first, and
/// of two entries of the same status the validator that comes first.
pub open spec fn comes_before(first: Participant, second: Participant) -> bool {
    status_rank(first.2) > status_rank(second.2) || (status_rank(first.2) == status_rank(second.2)
        && first.0.0 <= second.0.0)
}

/// Whether the entries are in order.
pub open spec fn in_order(list: Seq<Participant>) -> bool {
    forall|i: int, j: int| 0 <= i < j < list.len() ==> comes_before(list[i], list[j])
}

/// A report on the participation of the validators.
#[derive(Debug, PartialEq, Eq)]
pub struct Participation {
    /// The instance that the report is about.
    pub instance_id: InstanceId,
    /// The weight of the faulty validators, in percent of the total weight.
    pub faulty_stake_percent: u8,
    /// The weight of the inactive validators, in percent of the total weight.
    pub inactive_stake_percent: u8,
    /// The inactive validators, the gravest status first.
    pub inactive_validators: Vec<Participant>,
    /// The faulty validators, the gravest status first.
    pub faulty_validators: Vec<Participant>,
}

/// The quotient of two numbers, rounded to the nearest number; zero if the divisor
/// is zero.
pub open spec fn spec_div_round(numerator: nat, denominator: nat) -> nat {
    if denominator == 0 {
        0
    } else {
        (numerator + denominator / 2) / denominator
    }
}

/// The rank of a status.
fn rank(status: ParticipationStatus) -> (rank: u64)
    ensures
        rank == status_rank(status),
{
    match status {
        ParticipationStatus::LastSeenInRound(round_id) => round_id as u64,
        ParticipationStatus::Inactive => 0x1_0000_0000,
        ParticipationStatus::EquivocatedInOtherEra => 0x1_0000_0001,
        ParticipationStatus::Equivocated => 0x1_0000_0002,
    }
}

/// Whether one entry comes before another in a report.
fn before(first: &Participant, second: &Participant) -> (res: bool)
    ensures
        res == comes_before(*first, *second),
{
    let first_rank = rank(first.2);
    let second_rank = rank(second.2);
    first_rank > second_rank || (first_rank == second_rank && first.0.0 <= second.0.0)
}

/// Puts the entries in order: the gravest status first, and of the entries of one
/// status the validator first that comes first.
pub fn sort_participants(list: Vec<Participant>) -> (sorted: Vec<Participant>)
    ensures
        in_order(sorted@),
        sorted@.to_multiset() == list@.to_multiset(),
{
    let mut sorted: Vec<Participant> = Vec::new();
    let mut i: usize = 0;
    proof {
        assert(list@.take(0) =~= Seq::<Participant>::empty());
    }
    while i < list.len()
        invariant
            i <= list.len(),
            in_order(sorted@),
            sorted@.to_multiset() == list@.take(i as int).to_multiset(),
        decreases list.len() - i,
    {
        let entry = list[i];
        let mut position: usize = 0;
        while position < sorted.len() && before(&sorted[position], &entry)
            invariant
                position <= sorted.len(),
                in_order(sorted@),
                forall|k: int| 0 <= k < position ==> comes_before(sorted[k], entry),
            decreases sorted.len() - position,
        {
            position += 1;
        }
        let ghost earlier = sorted@;
        sorted.insert(position, entry);
        proof {
            assert(sorted@ =~= earlier.take(position as int).push(entry) + earlier.skip(
                position as int,
            ));
            assert forall|a: int, b: int| 0 <= a < b < sorted.len() implies comes_before(
                sorted[a],
                sorted[b],
            ) by {
                if b == position {
                    assert(sorted[a] == earlier[a]);
                } else if a == position {
                    assert(sorted[b] == earlier[b - 1]);
                    assert(!comes_before(earlier[position as int], entry));
                    if b - 1 > position {
                        assert(comes_before(earlier[position as int], earlier[b - 1]));
                    }
                } else {
                    let from = if a < position {
                        a
                    } else {
                        a - 1
                    };
                    let to = if b < position {
                        b
                    } else {
                        b - 1
                    };
                    assert(sorted[a] == earlier[from]);
                    assert(sorted[b] == earlier[to]);
                }
            }
            vstd::seq_lib::lemma_multiset_commutative(
                earlier.take(position as int).push(entry),
                earlier.skip(position as int),
            );
            vstd::seq_lib::lemma_multiset_commutative(
                earlier.take(position as int),
                earlier.skip(position as int),
            );
            assert(earlier.take(position as int) + earlier.skip(position as int) =~= earlier);
            assert(list@.take(i + 1) =~= list@.take(i as int).push(entry));
            vstd::seq::Seq::<Participant>::to_multiset_ensures(earlier.take(position as int));
            list@.take(i as int).to_multiset_ensures();
            assert(sorted@.to_multiset() =~= list@.take(i + 1).to_multiset());
        }
        i += 1;
    }
    assert(list@.take(list.len() as int) =~= list@);
    sorted
}

impl ParticipationStatus {
    /// Returns the status of a validator, unless it is honest and has been seen of
    /// late.
    pub fn for_index<C: Context>(idx: ValidatorIndex, sc: &SimpleConsensus<C>) -> (status: Option<
        ParticipationStatus,
    >)
        requires
            sc.wf_basic(),
            idx.0 < sc.weights.len(),
        ensures
            status == sc.spec_participation(idx),
    {
        match sc.faults[idx.0 as usize] {
            Some(Fault::Direct(_, _)) => {
                return Some(ParticipationStatus::Equivocated);
            },
            Some(_) => {
                return Some(ParticipationStatus::EquivocatedInOtherEra);
            },
            None => {},
        }
        let current_round = sc.current_round();
        let mut k: usize = sc.rounds.len();
        while k > 0
            invariant
                k <= sc.rounds.len() <= u32::MAX,
                sc.wf_basic(),
                idx.0 < sc.weights.len(),
                sc.faults[idx.0 as int] is None,
                current_round == sc.spec_current_round(),
                sc.last_seen(idx, sc.rounds.len() as int) == sc.last_seen(idx, k as int),
            decreases k,
        {
            let round_id = (k - 1) as u32;
            let seen = match &sc.rounds[k - 1] {
                Some(round) => round.has_echoed(idx) || round.has_voted(idx) || (
                round.has_accepted_proposal() && sc.leader(round_id) == idx),
                None => false,
            };
            if seen {
                if (round_id as u64) + 2 < current_round as u64 {
                    return Some(ParticipationStatus::LastSeenInRound(round_id));
                } else {
                    // The validator was seen of late: it counts as active.
                    return None;
                }
            }
            k -= 1;
        }
        Some(ParticipationStatus::Inactive)
    }
}

impl<C: Context> SimpleConsensus<C> {
    /// Whether the validator was seen in the round: it has echoed or voted in it, or
    /// it leads it and its proposal is accepted.
    pub open spec fn seen_in(&self, idx: ValidatorIndex, round_id: int) -> bool {
        match self.round_at(round_id) {
            Some(round) => round.spec_has_echoed(idx) || round.spec_has_voted(idx) || (
            round.spec_has_accepted_proposal() && self.spec_leader(round_id as u32) == idx),
            None => false,
        }
    }

    /// The last of the first `k` rounds in which the validator was seen, if it was
    /// seen in one.
    pub open spec fn last_seen(&self, idx: ValidatorIndex, k: int) -> Option<RoundId>
        decreases k,
    {
        if k <= 0 {
            None
        } else if self.seen_in(idx, k - 1) {
            Some((k - 1) as u32)
        } else {
            self.last_seen(idx, k - 1)
        }
    }

    /// The status of a validator; none if it is honest and was seen in one of the
    /// two rounds before the current one, or later.
    pub open spec fn spec_participation(&self, idx: ValidatorIndex) -> Option<ParticipationStatus> {
        match self.faults[idx.0 as int] {
            Some(Fault::Direct(_, _)) => Some(ParticipationStatus::Equivocated),
            Some(_) => Some(ParticipationStatus::EquivocatedInOtherEra),
            None => match self.last_seen(idx, self.rounds.len() as int) {
                Some(round_id) => if round_id + 2 < self.spec_current_round() {
                    Some(ParticipationStatus::LastSeenInRound(round_id))
                } else {
                    None
                },
                None => Some(ParticipationStatus::Inactive),
            },
        }
    }

    /// The entries for the first `k` validators that are faulty, if `faulty` is set,
    /// or else inactive, in the order of the validators.
    pub open spec fn participants_upto(&self, faulty: bool, k: int) -> Seq<Participant>
        decreases k,
    {
        if k <= 0 {
            Seq::empty()
        } else {
            let idx = ValidatorIndex((k - 1) as u32);
            let earlier = self.participants_upto(faulty, k - 1);
            match self.spec_participation(idx) {
                Some(status) => if faulty == (status_rank(status) > status_rank(
                    ParticipationStatus::Inactive,
                )) {
                    earlier.push((idx, self.validators[k - 1].id, status))
                } else {
                    earlier
                },
                None => earlier,
            }
        }
    }

    /// The weight of the first `k` validators that are faulty, if `faulty` is set, or
    /// else inactive.
    pub open spec fn participant_weight_upto(&self, faulty: bool, k: int) -> nat
        decreases k,
    {
        if k <= 0 {
            0
        } else {
            let idx = ValidatorIndex((k - 1) as u32);
            let earlier = self.participant_weight_upto(faulty, k - 1);
            match self.spec_participation(idx) {
                Some(status) => if faulty == (status_rank(status) > status_rank(
                    ParticipationStatus::Inactive,
                )) {
                    earlier + self.weights[k - 1] as nat
                } else {
                    earlier
                },
                None => earlier,
            }
        }
    }

    /// A group of validators weighs no more than all validators.
    pub proof fn lemma_participant_weight_bound(&self, faulty: bool, k: int)
        requires
            k <= self.weights.len(),
        ensures
            self.participant_weight_upto(faulty, k) <= weight_upto(
                self.weights@,
                Set::full(),
                k,
            ) <= total_weight(self.weights@),
        decreases k,
    {
        if k > 0 {
            self.lemma_participant_weight_bound(faulty, k - 1);
        }
        lemma_weight_prefix(self.weights@, Set::full(), k);
    }

    /// Reports which validators are faulty and which are inactive, with the share of
    /// each group in the total weight.
    pub fn participation(&self) -> (report: Participation)
        requires
            self.wf_basic(),
        ensures
            report.instance_id == self.instance_id,
            in_order(report.inactive_validators@),
            in_order(report.faulty_validators@),
            report.inactive_validators@.to_multiset() == self.participants_upto(
                false,
                self.count(),
            ).to_multiset(),
            report.faulty_validators@.to_multiset() == self.participants_upto(
                true,
                self.count(),
            ).to_multiset(),
            report.inactive_stake_percent as nat == spec_div_round(
                self.participant_weight_upto(false, self.count()) * 100,
                self.total_weight as nat,
            ),
            report.faulty_stake_percent as nat == spec_div_round(
                self.participant_weight_upto(true, self.count()) * 100,
                self.total_weight as nat,
            ),
            report.inactive_stake_percent <= 100,
            report.faulty_stake_percent <= 100,
    {
        let mut inactive_w: u128 = 0;
        let mut faulty_w: u128 = 0;
        let total_w: u128 = self.total_weight as u128;
        let mut inactive_validators: Vec<Participant> = Vec::new();
        let mut faulty_validators: Vec<Participant> = Vec::new();
        let mut i: usize = 0;
        while i < self.weights.len()
            invariant
                i <= self.weights.len(),
                self.wf_basic(),
                inactive_validators@ == self.participants_upto(false, i as int),
                faulty_validators@ == self.participants_upto(true, i as int),
                inactive_w == self.participant_weight_upto(false, i as int),
                faulty_w == self.participant_weight_upto(true, i as int),
                inactive_w <= i * u64::MAX,
                faulty_w <= i * u64::MAX,
            decreases self.weights.len() - i,
        {
            let idx = ValidatorIndex(i as u32);
            match ParticipationStatus::for_index(idx, self) {
                Some(status) => {
                    if rank(status) > rank(ParticipationStatus::Inactive) {
                        faulty_w = faulty_w + self.weights[i] as u128;
                        faulty_validators.push((idx, self.validators[i].id, status));
                    } else {
                        inactive_w = inactive_w + self.weights[i] as u128;
                        inactive_validators.push((idx, self.validators[i].id, status));
                    }
                },
                None => {},
            }
            i += 1;
        }
        let inactive_validators = sort_participants(inactive_validators);
        let faulty_validators = sort_participants(faulty_validators);
        proof {
            self.lemma_participant_weight_bound(false, self.count());
            self.lemma_participant_weight_bound(true, self.count());
            lemma_percent_bound(inactive_w as int, total_w as int);
            lemma_percent_bound(faulty_w as int, total_w as int);
        }
        Participation {
            instance_id: self.instance_id,
            inactive_stake_percent: div_round(inactive_w * 100, total_w) as u8,
            faulty_stake_percent: div_round(faulty_w * 100, total_w) as u8,
            inactive_validators,
            faulty_validators,
        }
    }
}

/// A share of the whole is at most a hundred percent.
pub proof fn lemma_percent_bound(part: int, whole: int)
    requires
        0 <= part <= whole,
    ensures
        spec_div_round((part * 100) as nat, whole as nat) <= 100,
{
    if whole > 0 {
        assert((part * 100 + whole / 2) / whole <= 100) by (nonlinear_arith)
            requires
                0 <= part <= whole,
                whole > 0,
        ;
    }
}

/// Divides and rounds to the nearest number. The quotient by zero is zero.
pub fn div_round(numerator: u128, denominator: u128) -> (quotient: u128)
    requires
        numerator + denominator / 2 <= u128::MAX,
    ensures
        quotient == spec_div_round(numerator as nat, denominator as nat),
{
    if denominator == 0 {
        0
    } else {
        (numerator + denominator / 2) / denominator
    }
}

} // verus!

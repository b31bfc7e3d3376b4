//! The state at the beginning of an era.

use vstd::prelude::*;
use crate::consensus::context::Context;
use crate::consensus::leader::{proposer_weight, LeaderSequence};
use crate::consensus::state::{Config, Fault, Params, SimpleConsensus, Validator};
use crate::consensus::types::{
    effects, Effect, InstanceId, ProtocolOutcome, TimeDiff, Timestamp, Weight, TIMER_ID_SYNC_PEER,
};
use crate::consensus::weights::{total_weight, weight_upto};

verus! {

/// The weights of the validators, in their order.
pub open spec fn spec_weights(validators: Seq<Validator>) -> Seq<Weight> {
    validators.map_values(|validator: Validator| validator.weight)
}

/// Which of the validators may propose, in their order.
pub open spec fn spec_can_propose(validators: Seq<Validator>) -> Seq<bool> {
    validators.map_values(|validator: Validator| validator.can_propose)
}

/// Which of the validators are banned, in their order, as faults.
pub open spec fn spec_banned(validators: Seq<Validator>) -> Seq<Option<Fault>> {
    validators.map_values(
        |validator: Validator|
            if validator.banned {
                Some(Fault::Banned)
            } else {
                None
            },
    )
}

/// The fault tolerance threshold: the given fraction of the total weight, rounded
/// down.
pub open spec fn spec_ftt(total: nat, numer: u64, denom: u64) -> nat {
    (total * numer / (denom as int)) as nat
}

/// Whether an era can be set up with the validators and the fraction: there is a
/// validator, there are no more than there are positions, their weights add up to
/// no more than `u64::MAX`, one of those that may propose has a weight, and the
/// fraction is at most one.
pub open spec fn valid_setup(validators: Seq<Validator>, fraction: (u64, u64)) -> bool {
    &&& 1 <= validators.len() <= u32::MAX
    &&& total_weight(spec_weights(validators)) <= u64::MAX
    &&& proposer_weight(
        spec_weights(validators),
        spec_can_propose(validators),
        validators.len() as int,
    ) >= 1
    &&& 0 < fraction.1
    &&& fraction.0 <= fraction.1
}

/// The proposers weigh no more than all validators.
pub proof fn lemma_proposers_weigh_less(weights: Seq<Weight>, can_propose: Seq<bool>, n: int)
    ensures
        proposer_weight(weights, can_propose, n) <= weight_upto(weights, Set::full(), n),
    decreases n,
{
    if n > 0 {
        lemma_proposers_weigh_less(weights, can_propose, n - 1);
    }
}

/// The weight of the first validators is no more than that of all.
pub proof fn lemma_total_prefix(weights: Seq<Weight>, few: int, many: int)
    requires
        few <= many,
    ensures
        weight_upto(weights, Set::full(), few) <= weight_upto(weights, Set::full(), many),
    decreases many - few,
{
    if few < many {
        lemma_total_prefix(weights, few, many - 1);
    }
}

/// A part of a whole is no more than the whole.
pub proof fn lemma_fraction_bound(total: int, numer: int, denom: int)
    requires
        0 <= total,
        0 <= numer <= denom,
        0 < denom,
    ensures
        0 <= total * numer / denom <= total,
{
    assert(total * numer <= total * denom) by (nonlinear_arith)
        requires
            0 <= total,
            0 <= numer <= denom,
    ;
    assert(0 <= total * numer) by (nonlinear_arith)
        requires
            0 <= total,
            0 <= numer,
    ;
    assert(total * numer / denom <= total) by (nonlinear_arith)
        requires
            total * numer <= total * denom,
            0 < denom,
            0 <= total * numer,
    ;
    assert(0 <= total * numer / denom) by (nonlinear_arith)
        requires
            0 <= total * numer,
            0 < denom,
    ;
}

impl<C: Context> SimpleConsensus<C> {
    /// Creates the state of the protocol at the beginning of an era, and has the
    /// timer for syncing with a random peer set if an interval is configured.
    ///
    /// The banned validators count as faulty from the beginning. The proposal timeout
    /// is that of the previous era, or the shortest length of a round if there was
    /// none. There is no state if the setup is not valid.
    pub fn new_boxed(
        instance_id: InstanceId,
        validators: Vec<Validator>,
        finality_threshold_fraction: (u64, u64),
        params: Params,
        config: Config,
        prev_proposal_timeout: Option<TimeDiff>,
        seed: u64,
        now: Timestamp,
    ) -> (res: Option<(Box<SimpleConsensus<C>>, Vec<ProtocolOutcome>)>)
        ensures
            res is Some <==> valid_setup(validators@, finality_threshold_fraction),
            res matches Some((state, outcomes)) ==> {
                &&& state.wf()
                &&& state.instance_id == instance_id
                &&& state.validators@ == validators@
                &&& state.weights@ == spec_weights(validators@)
                &&& state.faults@ == spec_banned(validators@)
                &&& state.ftt == spec_ftt(
                    total_weight(spec_weights(validators@)),
                    finality_threshold_fraction.0,
                    finality_threshold_fraction.1,
                )
                &&& state.params == params
                &&& state.config == config
                &&& state.proposal_timeout == match prev_proposal_timeout {
                    Some(timeout) => timeout,
                    None => params.min_round_length,
                }
                &&& state.leader_sequence.seed == seed
                &&& forall|i: int|
                    0 <= i < validators.len() ==> #[trigger] state.leader_sequence.cumulative[i]
                        == proposer_weight(
                        spec_weights(validators@),
                        spec_can_propose(validators@),
                        i + 1,
                    )
                &&& state.rounds.len() == 0
                &&& state.first_non_finalized_round_id == 0
                &&& state.current_timeout == Timestamp(u64::MAX)
                &&& state.active_validator is None
                &&& !state.evidence_only
                &&& !state.progress_detected
                &&& state.pending_proposal_round_ids is None
                &&& state.proposals_waiting_for_parent.len() == 0
                &&& state.proposals_waiting_for_validation.len() == 0
                &&& effects(outcomes@) == match config.request_state_interval {
                    Some(interval) => seq![
                        Effect::ScheduleTimer(
                            now.max(params.start_timestamp).plus(TimeDiff(interval.0 / 100)),
                            TIMER_ID_SYNC_PEER,
                        ),
                    ],
                    None => Seq::<Effect>::empty(),
                }
            },
    {
        let count = validators.len();
        let (numer, denom) = finality_threshold_fraction;
        if count == 0 || count > u32::MAX as usize || denom == 0 || numer > denom {
            return None;
        }
        let mut weights: Vec<Weight> = Vec::new();
        let mut can_propose: Vec<bool> = Vec::new();
        let mut faults: Vec<Option<Fault>> = Vec::new();
        let mut total: u64 = 0;
        let mut i: usize = 0;
        while i < count
            invariant
                i <= count,
                count == validators.len(),
                weights@ == spec_weights(validators@).take(i as int),
                can_propose@ == spec_can_propose(validators@).take(i as int),
                faults@ == spec_banned(validators@).take(i as int),
                total == weight_upto(spec_weights(validators@), Set::full(), i as int),
            decreases count - i,
        {
            total = match total.checked_add(validators[i].weight) {
                Some(total) => total,
                None => {
                    proof {
                        lemma_total_prefix(spec_weights(validators@), i + 1, count as int);
                    }
                    return None;
                },
            };
            weights.push(validators[i].weight);
            can_propose.push(validators[i].can_propose);
            faults.push(
                if validators[i].banned {
                    Some(Fault::Banned)
                } else {
                    None
                },
            );
            proof {
                assert(spec_weights(validators@).take(i + 1) =~= spec_weights(validators@).take(
                    i as int,
                ).push(validators[i as int].weight));
                assert(spec_can_propose(validators@).take(i + 1) =~= spec_can_propose(
                    validators@,
                ).take(i as int).push(validators[i as int].can_propose));
                assert(spec_banned(validators@).take(i + 1) =~= spec_banned(validators@).take(
                    i as int,
                ).push(spec_banned(validators@)[i as int]));
            }
            i += 1;
        }
        proof {
            assert(spec_weights(validators@).take(count as int) =~= spec_weights(validators@));
            assert(spec_can_propose(validators@).take(count as int) =~= spec_can_propose(
                validators@,
            ));
            assert(spec_banned(validators@).take(count as int) =~= spec_banned(validators@));
            lemma_proposers_weigh_less(weights@, can_propose@, count as int);
        }
        let leader_sequence = match LeaderSequence::new(seed, &weights, &can_propose) {
            Some(leader_sequence) => leader_sequence,
            None => {
                return None;
            },
        };
        proof {
            lemma_fraction_bound(total as int, numer as int, denom as int);
            assert(total * numer <= u64::MAX * u64::MAX) by (nonlinear_arith)
                requires
                    0 <= total <= u64::MAX,
                    0 <= numer <= u64::MAX,
            ;
        }
        let ftt = ((total as u128 * numer as u128) / (denom as u128)) as u64;
        let proposal_timeout = match prev_proposal_timeout {
            Some(timeout) => timeout,
            None => params.min_round_length,
        };
        let state = SimpleConsensus {
            params,
            instance_id,
            proposal_timeout,
            validators,
            total_weight: total,
            active_validator: None,
            evidence_only: false,
            proposals_waiting_for_parent: Vec::new(),
            proposals_waiting_for_validation: Vec::new(),
            pending_proposal_round_ids: None,
            leader_sequence,
            rounds: Vec::new(),
            faults,
            ftt,
            config,
            weights,
            first_non_finalized_round_id: 0,
            current_timeout: Timestamp(u64::MAX),
            progress_detected: false,
        };
        let mut outcomes: Vec<ProtocolOutcome> = Vec::new();
        assert(effects(outcomes@) =~= Seq::empty());
        // The state is synced with a random peer from time to time.
        match config.request_state_interval {
            Some(interval) => {
                let due = now.max(params.start_timestamp).plus(TimeDiff(interval.0 / 100));
                outcomes.push(ProtocolOutcome::ScheduleTimer(due, TIMER_ID_SYNC_PEER));
                assert(effects(outcomes@) =~= seq![Effect::ScheduleTimer(due, TIMER_ID_SYNC_PEER)]);
            },
            None => {},
        }
        Some((Box::new(state), outcomes))
    }
}

} // verus!

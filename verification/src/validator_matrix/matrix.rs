//! The registry of the validator weights of the eras that a node keeps.
//!
//! The registry is owned by one party at a time. To share it between threads, its
//! owner puts it behind a lock and hands out copies of what is read.

use std::collections::BTreeMap;
use vstd::prelude::*;
use crate::validator_matrix::era_weights::{
    in_key_order, lemma_same_entries, missing_upto, spec_keys, spec_signature_weight, spec_signed,
    spec_total, spec_weight_of, EraId, EraValidatorWeights, FinalitySignature, PublicKey,
    SignatureWeight, WeightEntry,
};
use crate::validator_matrix::fraction::Fraction;
use crate::validator_matrix::wide::Weight512;

verus! {

broadcast use {vstd::laws_cmp::group_laws_cmp, vstd::std_specs::btree::group_btree_axioms};

/// The registry of validator weights, by era.
#[derive(Debug)]
pub struct ValidatorMatrix {
    /// The weights of the eras that are kept.
    pub inner: BTreeMap<u64, EraValidatorWeights>,
    /// The share of the total weight that makes a block final.
    pub finality_threshold_fraction: Fraction,
}

/// `BTreeMap::split_off` of the standard library: the entries from `floor` on are
/// taken out of the map and returned; those below `floor` stay.
#[verifier::external_body]
fn split_off_eras(map: &mut BTreeMap<u64, EraValidatorWeights>, floor: u64) -> (upper: BTreeMap<
    u64,
    EraValidatorWeights,
>)
    ensures
        upper@ == old(map)@.restrict(Set::new(|era: u64| era >= floor)),
        final(map)@ == old(map)@.restrict(Set::new(|era: u64| era < floor)),
{
    map.split_off(&floor)
}

/// Whether the weights of every era in the map are well formed.
pub open spec fn all_wf(eras: Map<u64, EraValidatorWeights>) -> bool {
    forall|era: u64| eras.contains_key(era) ==> (#[trigger] eras[era]).wf()
}

/// Registering well-formed weights keeps every era well formed.
pub proof fn lemma_insert_wf(eras: Map<u64, EraValidatorWeights>, era: u64, weights: EraValidatorWeights)
    requires
        all_wf(eras),
        weights.wf(),
    ensures
        all_wf(eras.insert(era, weights)),
{
    assert forall|other: u64| eras.insert(era, weights).contains_key(other) implies (
    #[trigger] eras.insert(era, weights)[other]).wf() by {
        if other != era {
            assert(eras.contains_key(other));
            assert(eras[other].wf());
        }
    }
}

/// Dropping eras keeps the others well formed.
pub proof fn lemma_fewer_wf(eras: Map<u64, EraValidatorWeights>, fewer: Map<u64, EraValidatorWeights>)
    requires
        all_wf(eras),
        forall|era: u64|
            fewer.contains_key(era) ==> eras.contains_key(era) && (#[trigger] fewer[era])
                == eras[era],
    ensures
        all_wf(fewer),
{
    assert forall|era: u64| fewer.contains_key(era) implies (#[trigger] fewer[era]).wf() by {
        let kept = fewer[era];
        assert(eras.contains_key(era) && kept == eras[era]);
        assert(eras[era].wf());
    }
}

/// The eras after the weights of an era were registered: unless weights are
/// registered for it, or the weights are not well formed, they are added.
pub open spec fn spec_register(
    eras: Map<u64, EraValidatorWeights>,
    fraction: Fraction,
    era_id: EraId,
    validator_weights: Vec<WeightEntry>,
) -> Map<u64, EraValidatorWeights> {
    let fresh = EraValidatorWeights {
        era_id,
        validator_weights,
        finality_threshold_fraction: fraction,
    };
    if !eras.contains_key(era_id.0) && fresh.wf() {
        eras.insert(era_id.0, fresh)
    } else {
        eras
    }
}

/// The eras after the weights of the first `k` eras of a list were registered, in
/// the order of the list.
pub open spec fn registered_upto(
    eras: Map<u64, EraValidatorWeights>,
    fraction: Fraction,
    list: Seq<(EraId, Vec<WeightEntry>)>,
    k: int,
) -> Map<u64, EraValidatorWeights>
    decreases k,
{
    if k <= 0 {
        eras
    } else {
        spec_register(
            registered_upto(eras, fraction, list, k - 1),
            fraction,
            list[k - 1].0,
            list[k - 1].1,
        )
    }
}

/// The eras after the weights of the first `k` eras of a list were put in place of
/// those registered under the same ids, in the order of the list.
pub open spec fn upserted_upto(
    eras: Map<u64, EraValidatorWeights>,
    list: Seq<(EraId, EraValidatorWeights)>,
    k: int,
) -> Map<u64, EraValidatorWeights>
    decreases k,
{
    if k <= 0 {
        eras
    } else {
        upserted_upto(eras, list, k - 1).insert(list[k - 1].0.0, list[k - 1].1)
    }
}

impl ValidatorMatrix {
    /// The eras that are kept, with their weights.
    pub open spec fn eras(&self) -> Map<u64, EraValidatorWeights> {
        self.inner@
    }

    /// The invariant of the registry: the weights of every era are well formed.
    pub open spec fn wf(&self) -> bool {
        all_wf(self.eras())
    }

    /// Creates a registry without eras.
    pub fn new(finality_threshold_fraction: Fraction) -> (matrix: ValidatorMatrix)
        ensures
            matrix.wf(),
            matrix.eras() == Map::<u64, EraValidatorWeights>::empty(),
            matrix.finality_threshold_fraction == finality_threshold_fraction,
    {
        ValidatorMatrix { inner: BTreeMap::new(), finality_threshold_fraction }
    }

    /// Registers the weights of an era, in place of those registered for it before.
    pub fn register_era_validator_weights(&mut self, validators: EraValidatorWeights)
        requires
            old(self).wf(),
            validators.wf(),
        ensures
            final(self).wf(),
            final(self).eras() == old(self).eras().insert(validators.era_id.0, validators),
            final(self).finality_threshold_fraction == old(self).finality_threshold_fraction,
    {
        let era_id = validators.era_id;
        proof {
            lemma_insert_wf(self.eras(), era_id.0, validators);
        }
        self.inner.insert(era_id.0, validators);
    }

    /// Registers the weights of an era, unless weights are registered for it, or the
    /// weights are not well formed.
    pub fn register_validator_weights(&mut self, era_id: EraId, validator_weights: Vec<WeightEntry>)
        requires
            old(self).wf(),
        ensures
            final(self).wf(),
            final(self).finality_threshold_fraction == old(self).finality_threshold_fraction,
            final(self).eras() == spec_register(
                old(self).eras(),
                old(self).finality_threshold_fraction,
                era_id,
                validator_weights,
            ),
    {
        if !self.inner.contains_key(&era_id.0) {
            match EraValidatorWeights::new(
                era_id,
                validator_weights,
                self.finality_threshold_fraction,
            ) {
                Some(validators) => {
                    self.register_era_validator_weights(validators);
                },
                None => {},
            }
        }
    }

    /// Registers the weights of each era, in the order given, unless weights are
    /// registered for it.
    pub fn register_eras(&mut self, era_weights: Vec<(EraId, Vec<WeightEntry>)>)
        requires
            old(self).wf(),
        ensures
            final(self).wf(),
            final(self).finality_threshold_fraction == old(self).finality_threshold_fraction,
            final(self).eras() == registered_upto(
                old(self).eras(),
                old(self).finality_threshold_fraction,
                era_weights@,
                era_weights.len() as int,
            ),
    {
        let mut rest = era_weights;
        let ghost all = rest@;
        let ghost mut done: int = 0;
        while rest.len() > 0
            invariant
                self.wf(),
                self.finality_threshold_fraction == old(self).finality_threshold_fraction,
                0 <= done <= all.len(),
                rest@ == all.skip(done),
                self.eras() == registered_upto(
                    old(self).eras(),
                    old(self).finality_threshold_fraction,
                    all,
                    done,
                ),
            decreases rest.len(),
        {
            let (era_id, weights) = rest.remove(0);
            proof {
                assert(all.skip(done)[0] == all[done]);
                assert(all.skip(done).remove(0) =~= all.skip(done + 1));
            }
            self.register_validator_weights(era_id, weights);
            proof {
                done = done + 1;
            }
        }
    }

    /// Registers the weights of each era under the given id, in the order given, in
    /// place of those registered under it before.
    pub fn upsert(&mut self, validators: Vec<(EraId, EraValidatorWeights)>)
        requires
            old(self).wf(),
            forall|i: int| 0 <= i < validators.len() ==> (#[trigger] validators[i]).1.wf(),
        ensures
            final(self).wf(),
            final(self).finality_threshold_fraction == old(self).finality_threshold_fraction,
            final(self).eras() == upserted_upto(
                old(self).eras(),
                validators@,
                validators.len() as int,
            ),
    {
        let mut validators = validators;
        let ghost all = validators@;
        let ghost mut done: int = 0;
        while validators.len() > 0
            invariant
                self.wf(),
                self.finality_threshold_fraction == old(self).finality_threshold_fraction,
                0 <= done <= all.len(),
                validators@ == all.skip(done),
                forall|i: int| 0 <= i < all.len() ==> (#[trigger] all[i]).1.wf(),
                self.eras() == upserted_upto(old(self).eras(), all, done),
            decreases validators.len(),
        {
            let (era_id, weights) = validators.remove(0);
            proof {
                assert(all.skip(done)[0] == all[done]);
                assert(all.skip(done).remove(0) =~= all.skip(done + 1));
            }
            proof {
                assert(weights == all[done].1);
                lemma_insert_wf(self.eras(), era_id.0, weights);
            }
            self.inner.insert(era_id.0, weights);
            proof {
                done = done + 1;
            }
        }
    }

    /// Drops the weights of the era.
    pub fn remove_era(&mut self, era_id: EraId)
        requires
            old(self).wf(),
        ensures
            final(self).wf(),
            final(self).eras() == old(self).eras().remove(era_id.0),
            final(self).finality_threshold_fraction == old(self).finality_threshold_fraction,
    {
        proof {
            lemma_fewer_wf(self.eras(), self.eras().remove(era_id.0));
        }
        self.inner.remove(&era_id.0);
    }

    /// Drops the weights of all eras before the given one.
    pub fn remove_eras(&mut self, earliest_era_to_keep: EraId)
        requires
            old(self).wf(),
        ensures
            final(self).wf(),
            final(self).eras() == old(self).eras().restrict(
                Set::new(|era: u64| era >= earliest_era_to_keep.0),
            ),
            final(self).finality_threshold_fraction == old(self).finality_threshold_fraction,
    {
        proof {
            lemma_fewer_wf(
                self.eras(),
                self.eras().restrict(Set::new(|era: u64| era >= earliest_era_to_keep.0)),
            );
        }
        let kept = split_off_eras(&mut self.inner, earliest_era_to_keep.0);
        self.inner = kept;
    }

    /// Returns a copy of the weights of the era, if they are registered.
    pub fn validator_weights(&self, era_id: EraId) -> (weights: Option<EraValidatorWeights>)
        requires
            self.wf(),
        ensures
            weights is Some == self.eras().contains_key(era_id.0),
            weights matches Some(copy) ==> {
                let registered = self.eras()[era_id.0];
                &&& copy.wf()
                &&& copy.era_id == registered.era_id
                &&& copy.finality_threshold_fraction == registered.finality_threshold_fraction
                &&& copy.validator_weights.len() == registered.validator_weights.len()
                &&& forall|i: int|
                    0 <= i < copy.validator_weights.len() ==> (#[trigger] copy.validator_weights[i]).0.0@
                        == registered.validator_weights[i].0.0@ && copy.validator_weights[i].1
                        == registered.validator_weights[i].1
            },
    {
        match self.inner.get(&era_id.0) {
            Some(registered) => {
                assert(self.eras()[era_id.0].wf());
                let copy = EraValidatorWeights {
                    era_id: registered.era_id,
                    validator_weights: registered.weights(),
                    finality_threshold_fraction: registered.finality_threshold_fraction,
                };
                proof {
                    lemma_same_entries(
                        registered.validator_weights@,
                        copy.validator_weights@,
                    );
                }
                Some(copy)
            },
            None => None,
        }
    }

    /// Returns the keys of the validators of the era, if it is registered.
    pub fn validator_public_keys(&self, era_id: EraId) -> (keys: Option<Vec<PublicKey>>)
        ensures
            keys is Some == self.eras().contains_key(era_id.0),
            keys matches Some(keys) ==> keys.len() == self.eras()[era_id.0].validator_weights.len()
                && forall|i: int|
                0 <= i < keys.len() ==> (#[trigger] keys[i]).0@
                    == self.eras()[era_id.0].validator_weights[i].0.0@,
            self.wf() ==> (keys matches Some(keys) ==> in_key_order(spec_keys(keys@))),
    {
        match self.inner.get(&era_id.0) {
            Some(registered) => {
                proof {
                    if self.wf() {
                        assert(self.eras()[era_id.0].wf());
                    }
                }
                Some(registered.validator_public_keys())
            },
            None => None,
        }
    }

    /// Returns the keys of the validators of the era of which there is no signature,
    /// if the era is registered.
    pub fn missing_signatures(&self, era_id: EraId, signatures: &Vec<FinalitySignature>) -> (missing:
        Option<Vec<PublicKey>>)
        ensures
            missing is Some == self.eras().contains_key(era_id.0),
            missing matches Some(missing) ==> spec_keys(missing@) == missing_upto(
                self.eras()[era_id.0].validator_weights@,
                signatures@,
                self.eras()[era_id.0].validator_weights.len() as int,
            ),
            self.wf() ==> (missing matches Some(missing) ==> in_key_order(spec_keys(missing@))),
    {
        match self.inner.get(&era_id.0) {
            Some(registered) => {
                proof {
                    if self.wf() {
                        assert(self.eras()[era_id.0].wf());
                    }
                }
                Some(registered.missing_signatures(signatures))
            },
            None => None,
        }
    }

    /// Returns the weight of the validator in the era; zero if the era is not
    /// registered or the validator is none of it.
    pub fn get_weight(&self, era_id: EraId, public_key: &PublicKey) -> (weight: Weight512)
        ensures
            weight@ == if self.eras().contains_key(era_id.0) {
                spec_weight_of(self.eras()[era_id.0].validator_weights@, public_key.0@)
            } else {
                0
            },
    {
        match self.inner.get(&era_id.0) {
            None => Weight512::zero(),
            Some(registered) => registered.get_weight(public_key),
        }
    }

    /// Returns the weight of all validators of the era, if it is registered.
    pub fn get_total_weight(&self, era_id: EraId) -> (total: Option<Weight512>)
        requires
            self.wf(),
        ensures
            total is Some == self.eras().contains_key(era_id.0),
            total matches Some(total) ==> total@ == spec_total(
                self.eras()[era_id.0].validator_weights@,
            ),
    {
        match self.inner.get(&era_id.0) {
            Some(registered) => {
                assert(self.eras()[era_id.0].wf());
                Some(registered.get_total_weight())
            },
            None => None,
        }
    }

    /// Tells how much weight the signatures have in the era, if it is registered.
    pub fn have_sufficient_weight(&self, era_id: EraId, signatures: Vec<FinalitySignature>) -> (res:
        Option<SignatureWeight>)
        requires
            self.wf(),
        ensures
            res is Some == self.eras().contains_key(era_id.0),
            res matches Some(weight) ==> weight == spec_signature_weight(
                spec_total(self.eras()[era_id.0].validator_weights@),
                spec_signed(self.eras()[era_id.0].validator_weights@, signatures@),
                self.eras()[era_id.0].finality_threshold_fraction,
            ),
    {
        match self.inner.get(&era_id.0) {
            Some(registered) => {
                assert(self.eras()[era_id.0].wf());
                Some(registered.have_sufficient_weight(signatures))
            },
            None => None,
        }
    }

    /// Returns the share of the total weight that makes a block final.
    pub fn fault_tolerance_threshold(&self) -> (fraction: Fraction)
        ensures
            fraction == self.finality_threshold_fraction,
    {
        self.finality_threshold_fraction
    }
}

} // verus!

//! The weights of the validators of one era, and when signatures suffice.

use vstd::prelude::*;
use crate::validator_matrix::fraction::{Fraction, MAX_DENOM};
use crate::validator_matrix::wide::{
    lemma_words_monotone, spec_wide_upto, spec_words, Weight512, WORD,
};

verus! {

/// Identifies an era.
#[derive(Copy, Clone, Debug, PartialEq, Eq, Structural)]
pub struct EraId(pub u64);

/// The public key of a validator, as bytes.
#[derive(Clone, Debug, PartialEq, Eq)]
pub struct PublicKey(pub Vec<u8>);

/// The signature of a validator under a finalized block.
#[derive(Clone, Debug, PartialEq, Eq)]
pub struct FinalitySignature {
    /// The era of the block.
    pub era_id: EraId,
    /// The key of the signer.
    pub public_key: PublicKey,
}

/// How much weight the signatures under a block have.
#[derive(Copy, Clone, Debug, PartialEq, Eq, Structural)]
pub enum SignatureWeight {
    /// Less than the finality threshold.
    Insufficient,
    /// At least the finality threshold.
    Sufficient,
    /// At least half of the total weight and half of the finality threshold.
    Strict,
}

/// An entry of the weights of an era: a validator and its weight.
pub type WeightEntry = (PublicKey, Weight512);

/// The weights of an era must add up to less than this many words, so that no sum
/// or product that the thresholds take exceeds 512 bits.
pub const TOTAL_WORDS: usize = 7;

/// The position of the first entry from `from` on that has the key, if there is one.
pub open spec fn find_key(entries: Seq<WeightEntry>, key: Seq<u8>, from: int) -> Option<int>
    decreases entries.len() - from,
{
    if from < 0 || from >= entries.len() {
        None
    } else if entries[from].0.0@ == key {
        Some(from)
    } else {
        find_key(entries, key, from + 1)
    }
}

/// The weight of the validator with the key; zero if there is none.
pub open spec fn spec_weight_of(entries: Seq<WeightEntry>, key: Seq<u8>) -> nat {
    match find_key(entries, key, 0) {
        Some(position) => entries[position].1@,
        None => 0,
    }
}

/// The weight of the first `k` validators.
pub open spec fn total_upto(entries: Seq<WeightEntry>, k: int) -> nat
    decreases k,
{
    if k <= 0 {
        0
    } else {
        total_upto(entries, k - 1) + entries[k - 1].1@
    }
}

/// The weight of all validators.
pub open spec fn spec_total(entries: Seq<WeightEntry>) -> nat {
    total_upto(entries, entries.len() as int)
}

/// The weight of those of the first `k` validators of which there is a signature.
/// A validator counts once, however often it signed, and a signer that is no
/// validator counts for nothing.
pub open spec fn signed_upto(
    entries: Seq<WeightEntry>,
    signatures: Seq<FinalitySignature>,
    k: int,
) -> nat
    decreases k,
{
    if k <= 0 {
        0
    } else if is_signed(signatures, entries[k - 1].0.0@) {
        signed_upto(entries, signatures, k - 1) + entries[k - 1].1@
    } else {
        signed_upto(entries, signatures, k - 1)
    }
}

/// The weight of the signers: of the validators of which there is a signature.
pub open spec fn spec_signed(entries: Seq<WeightEntry>, signatures: Seq<FinalitySignature>) -> nat {
    signed_upto(entries, signatures, entries.len() as int)
}

/// Whether no two validators have the same key.
pub open spec fn keys_distinct(entries: Seq<WeightEntry>) -> bool {
    forall|i: int, j: int|
        0 <= i < j < entries.len() ==> (#[trigger] entries[i]).0.0@ != (#[trigger] entries[j]).0.0@
}

/// Whether the key `a` comes before the key `b`, from the byte at `i` on: at the
/// first byte in which they differ `a` has the smaller one, or `a` ends first.
pub open spec fn key_less_from(a: Seq<u8>, b: Seq<u8>, i: int) -> bool
    decreases a.len() - i,
{
    if i < 0 || i >= b.len() {
        false
    } else if i >= a.len() {
        true
    } else if a[i] != b[i] {
        a[i] < b[i]
    } else {
        key_less_from(a, b, i + 1)
    }
}

/// Whether the key `a` comes before the key `b` in the order of the keys, which is
/// that of their bytes.
pub open spec fn key_less(a: Seq<u8>, b: Seq<u8>) -> bool {
    key_less_from(a, b, 0)
}

/// Whether the validators are in the order of their keys, each key once.
pub open spec fn keys_ascending(entries: Seq<WeightEntry>) -> bool {
    forall|i: int, j: int|
        0 <= i < j < entries.len() ==> key_less(
            (#[trigger] entries[i]).0.0@,
            (#[trigger] entries[j]).0.0@,
        )
}

/// Whether the keys are in their order, each once.
pub open spec fn in_key_order(keys: Seq<Seq<u8>>) -> bool {
    forall|i: int, j: int| 0 <= i < j < keys.len() ==> key_less(#[trigger] keys[i], #[trigger] keys[j])
}

/// A key that comes before a second, which comes before a third, comes before the
/// third.
pub proof fn lemma_key_less_transitive(a: Seq<u8>, b: Seq<u8>, c: Seq<u8>, i: int)
    requires
        0 <= i,
        key_less_from(a, b, i),
        key_less_from(b, c, i),
    ensures
        key_less_from(a, c, i),
    decreases a.len() - i,
{
    if i < a.len() && a[i] == b[i] && b[i] == c[i] {
        lemma_key_less_transitive(a, b, c, i + 1);
    }
}

/// No key comes before itself.
pub proof fn lemma_key_less_irreflexive(a: Seq<u8>, i: int)
    requires
        0 <= i,
    ensures
        !key_less_from(a, a, i),
    decreases a.len() - i,
{
    if i < a.len() {
        lemma_key_less_irreflexive(a, i + 1);
    }
}

/// Validators in the order of their keys have distinct keys.
pub proof fn lemma_ascending_distinct(entries: Seq<WeightEntry>)
    requires
        keys_ascending(entries),
    ensures
        keys_distinct(entries),
{
    assert forall|i: int, j: int| 0 <= i < j < entries.len() implies (#[trigger] entries[i]).0.0@ != (
    #[trigger] entries[j]).0.0@ by {
        lemma_key_less_irreflexive(entries[i].0.0@, 0);
        assert(key_less(entries[i].0.0@, entries[j].0.0@));
    }
}

/// The keys of the validators of which there is no signature are in their order,
/// and come before the keys of the validators that follow.
pub proof fn lemma_missing_in_order(
    entries: Seq<WeightEntry>,
    signatures: Seq<FinalitySignature>,
    k: int,
)
    requires
        keys_ascending(entries),
        0 <= k <= entries.len(),
    ensures
        in_key_order(missing_upto(entries, signatures, k)),
        forall|i: int, m: int|
            0 <= i < missing_upto(entries, signatures, k).len() && k <= m < entries.len()
                ==> key_less(
                #[trigger] missing_upto(entries, signatures, k)[i],
                (#[trigger] entries[m]).0.0@,
            ),
    decreases k,
{
    if k > 0 {
        lemma_missing_in_order(entries, signatures, k - 1);
        let earlier = missing_upto(entries, signatures, k - 1);
        let now = missing_upto(entries, signatures, k);
        assert forall|i: int, m: int| 0 <= i < now.len() && k <= m < entries.len() implies key_less(
            #[trigger] now[i],
            (#[trigger] entries[m]).0.0@,
        ) by {
            if i < earlier.len() {
                assert(now[i] == earlier[i]);
            } else {
                assert(now[i] == entries[k - 1].0.0@);
            }
        }
        assert forall|i: int, j: int| 0 <= i < j < now.len() implies key_less(
            #[trigger] now[i],
            #[trigger] now[j],
        ) by {
            if j < earlier.len() {
                assert(now[i] == earlier[i] && now[j] == earlier[j]);
            } else {
                assert(now[i] == earlier[i]);
                assert(now[j] == entries[k - 1].0.0@);
            }
        }
    }
}

/// Whether one of the signatures is of the key.
pub open spec fn is_signed(signatures: Seq<FinalitySignature>, key: Seq<u8>) -> bool {
    exists|i: int| 0 <= i < signatures.len() && (#[trigger] signatures[i]).public_key.0@ == key
}

/// The keys of those of the first `k` validators of which there is no signature, in
/// the order of the validators.
pub open spec fn missing_upto(
    entries: Seq<WeightEntry>,
    signatures: Seq<FinalitySignature>,
    k: int,
) -> Seq<Seq<u8>>
    decreases k,
{
    if k <= 0 {
        Seq::empty()
    } else if is_signed(signatures, entries[k - 1].0.0@) {
        missing_upto(entries, signatures, k - 1)
    } else {
        missing_upto(entries, signatures, k - 1).push(entries[k - 1].0.0@)
    }
}

/// The bytes of the keys in a list.
pub open spec fn spec_keys(keys: Seq<PublicKey>) -> Seq<Seq<u8>> {
    keys.map_values(|key: PublicKey| key.0@)
}

/// How much the weight `signed` is of the weight `total`, with the finality
/// threshold `fraction`: strict if twice the signed weight is at least the total
/// weight and the fraction of it; else sufficient if the signed weight is at least
/// the fraction of the total weight; else insufficient. Nothing is rounded.
pub open spec fn spec_signature_weight(total: nat, signed: nat, fraction: Fraction) -> SignatureWeight {
    if 2 * signed * fraction.denom >= total * (fraction.denom + fraction.numer) {
        SignatureWeight::Strict
    } else if signed * fraction.denom >= total * fraction.numer {
        SignatureWeight::Sufficient
    } else {
        SignatureWeight::Insufficient
    }
}

/// The weights of the validators of one era.
#[derive(Clone, Debug)]
pub struct EraValidatorWeights {
    /// The era.
    pub era_id: EraId,
    /// The validators with their weights, each key once.
    pub validator_weights: Vec<WeightEntry>,
    /// The share of the total weight that makes a block final.
    pub finality_threshold_fraction: Fraction,
}

/// Whether the first key comes before the second in the order of the keys.
pub fn key_before(first: &PublicKey, second: &PublicKey) -> (before: bool)
    ensures
        before == key_less(first.0@, second.0@),
{
    let mut i: usize = 0;
    while i < first.0.len() && i < second.0.len()
        invariant
            i <= first.0.len(),
            i <= second.0.len(),
            key_less(first.0@, second.0@) == key_less_from(first.0@, second.0@, i as int),
        decreases first.0.len() - i,
    {
        if first.0[i] != second.0[i] {
            return first.0[i] < second.0[i];
        }
        i += 1;
    }
    i < second.0.len()
}

/// Whether two keys are the same.
pub fn same_key(first: &PublicKey, second: &PublicKey) -> (same: bool)
    ensures
        same == (first.0@ == second.0@),
{
    if first.0.len() != second.0.len() {
        return false;
    }
    let mut i: usize = 0;
    while i < first.0.len()
        invariant
            i <= first.0.len(),
            first.0.len() == second.0.len(),
            forall|k: int| 0 <= k < i ==> first.0@[k] == second.0@[k],
        decreases first.0.len() - i,
    {
        if first.0[i] != second.0[i] {
            return false;
        }
        i += 1;
    }
    assert(first.0@ =~= second.0@);
    true
}

/// Copies a key.
pub fn copy_key(key: &PublicKey) -> (copy: PublicKey)
    ensures
        copy.0@ == key.0@,
{
    let mut bytes: Vec<u8> = Vec::new();
    let mut i: usize = 0;
    while i < key.0.len()
        invariant
            i <= key.0.len(),
            bytes@ == key.0@.take(i as int),
        decreases key.0.len() - i,
    {
        bytes.push(key.0[i]);
        proof {
            assert(key.0@.take(i + 1) =~= key.0@.take(i as int).push(key.0@[i as int]));
        }
        i += 1;
    }
    assert(key.0@.take(key.0.len() as int) =~= key.0@);
    PublicKey(bytes)
}

/// The weight of the first validators is no more than that of all.
pub proof fn lemma_total_monotone(entries: Seq<WeightEntry>, few: int, many: int)
    requires
        few <= many,
    ensures
        total_upto(entries, few) <= total_upto(entries, many),
    decreases many - few,
{
    if few < many {
        lemma_total_monotone(entries, few, many - 1);
    }
}

/// No validator weighs more than all together.
pub proof fn lemma_weight_within_total(entries: Seq<WeightEntry>, key: Seq<u8>, from: int)
    requires
        0 <= from,
    ensures
        match find_key(entries, key, from) {
            Some(position) => from <= position < entries.len() && entries[position].0.0@ == key
                && entries[position].1@ <= spec_total(entries),
            None => true,
        },
    decreases entries.len() - from,
{
    if from < entries.len() {
        if entries[from].0.0@ == key {
            lemma_total_monotone(entries, from + 1, entries.len() as int);
        } else {
            lemma_weight_within_total(entries, key, from + 1);
        }
    }
}

/// The signers among the first `k` validators weigh no more than these validators.
pub proof fn lemma_signed_bound(
    entries: Seq<WeightEntry>,
    signatures: Seq<FinalitySignature>,
    k: int,
)
    ensures
        signed_upto(entries, signatures, k) <= total_upto(entries, k),
    decreases k,
{
    if k > 0 {
        lemma_signed_bound(entries, signatures, k - 1);
    }
}

/// Entries with the same keys and weights have distinct keys and the same total
/// if the others do.
pub proof fn lemma_same_entries(first: Seq<WeightEntry>, second: Seq<WeightEntry>)
    requires
        first.len() == second.len(),
        forall|i: int|
            0 <= i < first.len() ==> (#[trigger] second[i]).0.0@ == first[i].0.0@ && second[i].1
                == first[i].1,
    ensures
        keys_distinct(first) ==> keys_distinct(second),
        keys_ascending(first) ==> keys_ascending(second),
        spec_total(first) == spec_total(second),
{
    lemma_same_total(first, second, first.len() as int);
    if keys_ascending(first) {
        assert forall|i: int, j: int| 0 <= i < j < second.len() implies key_less(
            (#[trigger] second[i]).0.0@,
            (#[trigger] second[j]).0.0@,
        ) by {
            assert(key_less(first[i].0.0@, first[j].0.0@));
        }
    }
    if keys_distinct(first) {
        assert forall|i: int, j: int| 0 <= i < j < second.len() implies (
        #[trigger] second[i]).0.0@ != (#[trigger] second[j]).0.0@ by {
            assert(first[i].0.0@ != first[j].0.0@);
        }
    }
}

/// Entries with the same weights weigh the same.
pub proof fn lemma_same_total(first: Seq<WeightEntry>, second: Seq<WeightEntry>, k: int)
    requires
        k <= first.len() == second.len(),
        forall|i: int| 0 <= i < first.len() ==> (#[trigger] second[i]).1 == first[i].1,
    ensures
        total_upto(first, k) == total_upto(second, k),
    decreases k,
{
    if k > 0 {
        lemma_same_total(first, second, k - 1);
    }
}

/// The strict threshold, as the fraction that the ratio computes it, is reached
/// exactly if twice the signed weight is at least the total weight and the
/// fraction of it.
pub proof fn lemma_strict_threshold(
    signed: int,
    total: int,
    numer: int,
    denom: int,
    strict_numer: int,
    strict_denom: int,
)
    requires
        0 <= signed,
        0 <= total,
        0 <= numer,
        0 < denom,
        0 < strict_denom,
        strict_numer * (2 * denom) == strict_denom * (denom + numer),
    ensures
        signed * strict_denom >= total * strict_numer <==> 2 * signed * denom >= total * (denom
            + numer),
{
    let left = signed * strict_denom;
    let right = total * strict_numer;
    assert(right * (2 * denom) == strict_denom * (total * (denom + numer))) by (nonlinear_arith)
        requires
            right == total * strict_numer,
            strict_numer * (2 * denom) == strict_denom * (denom + numer),
    ;
    assert(left * (2 * denom) == strict_denom * (2 * signed * denom)) by (nonlinear_arith)
        requires
            left == signed * strict_denom,
    ;
    let a = 2 * signed * denom;
    let b = total * (denom + numer);
    assert(left >= right <==> left * (2 * denom) >= right * (2 * denom)) by (nonlinear_arith)
        requires
            0 < denom,
    ;
    assert(a >= b <==> strict_denom * a >= strict_denom * b) by (nonlinear_arith)
        requires
            0 < strict_denom,
    ;
}

impl EraValidatorWeights {
    /// The invariant of the weights of an era: the validators are in the order of
    /// their keys, so that no two have the same key, the weights add up to less
    /// than `2^448`, and the fraction is well formed.
    pub open spec fn wf(&self) -> bool {
        &&& keys_ascending(self.validator_weights@)
        &&& keys_distinct(self.validator_weights@)
        &&& spec_total(self.validator_weights@) < spec_words(TOTAL_WORDS as nat)
        &&& self.finality_threshold_fraction.wf()
    }

    /// Creates the weights of an era from the validators in the order of their keys,
    /// as a map lists them. There are none if the validators are not in that order,
    /// or two of them have the same key, if the weights add up to `2^448` or more,
    /// or if the fraction is none.
    pub fn new(
        era_id: EraId,
        validator_weights: Vec<WeightEntry>,
        finality_threshold_fraction: Fraction,
    ) -> (weights: Option<EraValidatorWeights>)
        ensures
            weights is Some <==> keys_ascending(validator_weights@) && spec_total(
                validator_weights@,
            ) < spec_words(TOTAL_WORDS as nat) && finality_threshold_fraction.wf(),
            weights matches Some(weights) ==> weights.wf() && weights.era_id == era_id
                && weights.validator_weights == validator_weights
                && weights.finality_threshold_fraction == finality_threshold_fraction,
    {
        if finality_threshold_fraction.denom == 0 || finality_threshold_fraction.denom
            > MAX_DENOM || finality_threshold_fraction.numer > MAX_DENOM {
            return None;
        }
        let mut total = Weight512::zero();
        let mut i: usize = 0;
        while i < validator_weights.len()
            invariant
                i <= validator_weights.len(),
                total@ == total_upto(validator_weights@, i as int),
                forall|a: int, b: int|
                    0 <= a < b < i ==> key_less(
                        (#[trigger] validator_weights[a]).0.0@,
                        (#[trigger] validator_weights[b]).0.0@,
                    ),
            decreases validator_weights.len() - i,
        {
            if i > 0 {
                if !key_before(&validator_weights[i - 1].0, &validator_weights[i].0) {
                    return None;
                }
                proof {
                    assert forall|a: int| 0 <= a < i implies key_less(
                        (#[trigger] validator_weights[a]).0.0@,
                        validator_weights[i as int].0.0@,
                    ) by {
                        if a < i - 1 {
                            lemma_key_less_transitive(
                                validator_weights[a].0.0@,
                                validator_weights[i - 1].0.0@,
                                validator_weights[i as int].0.0@,
                                0,
                            );
                        }
                    }
                }
            }
            total = match total.checked_add(&validator_weights[i].1) {
                Some(total) => total,
                None => {
                    proof {
                        lemma_total_monotone(
                            validator_weights@,
                            i + 1,
                            validator_weights.len() as int,
                        );
                        lemma_words_monotone(TOTAL_WORDS as nat, 8);
                    }
                    return None;
                },
            };
            i += 1;
        }
        let limit = Weight512 { limbs: [0, 0, 0, 0, 0, 0, 0, 1] };
        proof {
            reveal_with_fuel(spec_wide_upto, 9);
            assert(forall|k: nat| #![auto] 0 * spec_words(k) == 0) by (nonlinear_arith);
            assert(1 * spec_words(7) == spec_words(7)) by (nonlinear_arith);
            assert(limit@ == spec_words(7));
        }
        if total.at_least(&limit) {
            return None;
        }
        proof {
            lemma_ascending_distinct(validator_weights@);
        }
        Some(EraValidatorWeights { era_id, validator_weights, finality_threshold_fraction })
    }

    /// The era.
    pub fn era_id(&self) -> (era_id: EraId)
        ensures
            era_id == self.era_id,
    {
        self.era_id
    }

    /// Whether the era has no validators.
    pub fn is_empty(&self) -> (res: bool)
        ensures
            res == (self.validator_weights.len() == 0),
    {
        self.validator_weights.len() == 0
    }

    /// The validators with their weights.
    pub fn weights(&self) -> (weights: Vec<WeightEntry>)
        ensures
            weights.len() == self.validator_weights.len(),
            forall|i: int|
                0 <= i < weights.len() ==> (#[trigger] weights[i]).0.0@
                    == self.validator_weights[i].0.0@ && weights[i].1
                    == self.validator_weights[i].1,
    {
        let mut weights: Vec<WeightEntry> = Vec::new();
        let mut i: usize = 0;
        while i < self.validator_weights.len()
            invariant
                i <= self.validator_weights.len(),
                weights.len() == i,
                forall|k: int|
                    0 <= k < i ==> (#[trigger] weights[k]).0.0@ == self.validator_weights[k].0.0@
                        && weights[k].1 == self.validator_weights[k].1,
            decreases self.validator_weights.len() - i,
        {
            weights.push((copy_key(&self.validator_weights[i].0), self.validator_weights[i].1));
            i += 1;
        }
        weights
    }

    /// The weight of all validators.
    pub fn get_total_weight(&self) -> (total: Weight512)
        requires
            self.wf(),
        ensures
            total@ == spec_total(self.validator_weights@),
    {
        let mut total = Weight512::zero();
        let mut i: usize = 0;
        while i < self.validator_weights.len()
            invariant
                i <= self.validator_weights.len(),
                self.wf(),
                total@ == total_upto(self.validator_weights@, i as int),
            decreases self.validator_weights.len() - i,
        {
            proof {
                lemma_total_monotone(
                    self.validator_weights@,
                    i + 1,
                    self.validator_weights.len() as int,
                );
                lemma_words_monotone(TOTAL_WORDS as nat, 8);
            }
            total = match total.checked_add(&self.validator_weights[i].1) {
                Some(total) => total,
                None => Weight512::zero(),
            };
            i += 1;
        }
        total
    }

    /// The keys of the validators, in their order.
    pub fn validator_public_keys(&self) -> (keys: Vec<PublicKey>)
        ensures
            keys.len() == self.validator_weights.len(),
            forall|i: int|
                0 <= i < keys.len() ==> (#[trigger] keys[i]).0@ == self.validator_weights[i].0.0@,
            self.wf() ==> in_key_order(spec_keys(keys@)),
    {
        let mut keys: Vec<PublicKey> = Vec::new();
        let mut i: usize = 0;
        while i < self.validator_weights.len()
            invariant
                i <= self.validator_weights.len(),
                keys.len() == i,
                forall|k: int|
                    0 <= k < i ==> (#[trigger] keys[k]).0@ == self.validator_weights[k].0.0@,
            decreases self.validator_weights.len() - i,
        {
            keys.push(copy_key(&self.validator_weights[i].0));
            i += 1;
        }
        proof {
            if self.wf() {
                assert forall|a: int, b: int| 0 <= a < b < keys.len() implies key_less(
                    #[trigger] spec_keys(keys@)[a],
                    #[trigger] spec_keys(keys@)[b],
                ) by {
                    assert(key_less(
                        self.validator_weights[a].0.0@,
                        self.validator_weights[b].0.0@,
                    ));
                }
            }
        }
        keys
    }

    /// The keys of the validators of which there is no signature, in the order of
    /// the keys.
    pub fn missing_signatures(&self, signatures: &Vec<FinalitySignature>) -> (missing: Vec<
        PublicKey,
    >)
        ensures
            spec_keys(missing@) == missing_upto(
                self.validator_weights@,
                signatures@,
                self.validator_weights.len() as int,
            ),
            self.wf() ==> in_key_order(spec_keys(missing@)),
    {
        proof {
            if self.wf() {
                lemma_missing_in_order(
                    self.validator_weights@,
                    signatures@,
                    self.validator_weights.len() as int,
                );
            }
        }
        let mut missing: Vec<PublicKey> = Vec::new();
        let mut i: usize = 0;
        assert(spec_keys(missing@) =~= Seq::empty());
        while i < self.validator_weights.len()
            invariant
                i <= self.validator_weights.len(),
                spec_keys(missing@) == missing_upto(self.validator_weights@, signatures@, i as int),
            decreases self.validator_weights.len() - i,
        {
            let key = &self.validator_weights[i].0;
            let mut signed = false;
            let mut j: usize = 0;
            while j < signatures.len() && !signed
                invariant
                    j <= signatures.len(),
                    i < self.validator_weights.len(),
                    key.0@ == self.validator_weights[i as int].0.0@,
                    signed ==> is_signed(signatures@, key.0@),
                    !signed ==> forall|k: int|
                        0 <= k < j ==> (#[trigger] signatures[k]).public_key.0@ != key.0@,
                decreases signatures.len() - j,
            {
                if same_key(&signatures[j].public_key, key) {
                    signed = true;
                }
                j += 1;
            }
            if !signed {
                let ghost earlier = missing@;
                missing.push(copy_key(key));
                assert(spec_keys(missing@) =~= spec_keys(earlier).push(key.0@));
            }
            i += 1;
        }
        missing
    }

    /// The weight of the validator with the key; zero if there is none.
    pub fn get_weight(&self, public_key: &PublicKey) -> (weight: Weight512)
        ensures
            weight@ == spec_weight_of(self.validator_weights@, public_key.0@),
    {
        let mut i: usize = 0;
        while i < self.validator_weights.len()
            invariant
                i <= self.validator_weights.len(),
                find_key(self.validator_weights@, public_key.0@, 0) == find_key(
                    self.validator_weights@,
                    public_key.0@,
                    i as int,
                ),
            decreases self.validator_weights.len() - i,
        {
            if same_key(&self.validator_weights[i].0, public_key) {
                return self.validator_weights[i].1;
            }
            i += 1;
        }
        Weight512::zero()
    }

    /// Whether one of the signatures is of the key.
    fn has_signed(signatures: &Vec<FinalitySignature>, key: &PublicKey) -> (signed: bool)
        ensures
            signed == is_signed(signatures@, key.0@),
    {
        let mut j: usize = 0;
        while j < signatures.len()
            invariant
                j <= signatures.len(),
                forall|k: int| 0 <= k < j ==> (#[trigger] signatures[k]).public_key.0@ != key.0@,
            decreases signatures.len() - j,
        {
            if same_key(&signatures[j].public_key, key) {
                return true;
            }
            j += 1;
        }
        false
    }

    /// The weight of the signers: each validator of which there is a signature
    /// counts once, and a signer that is no validator counts for nothing.
    fn signature_weight(&self, signatures: &Vec<FinalitySignature>) -> (signed: Weight512)
        requires
            self.wf(),
        ensures
            signed@ == spec_signed(self.validator_weights@, signatures@),
            signed@ <= spec_total(self.validator_weights@),
    {
        let mut signed = Weight512::zero();
        let mut i: usize = 0;
        while i < self.validator_weights.len()
            invariant
                i <= self.validator_weights.len(),
                self.wf(),
                signed@ == signed_upto(self.validator_weights@, signatures@, i as int),
            decreases self.validator_weights.len() - i,
        {
            if Self::has_signed(signatures, &self.validator_weights[i].0) {
                proof {
                    lemma_signed_bound(self.validator_weights@, signatures@, i + 1);
                    lemma_total_monotone(
                        self.validator_weights@,
                        i + 1,
                        self.validator_weights.len() as int,
                    );
                    lemma_words_monotone(TOTAL_WORDS as nat, 8);
                }
                signed = match signed.checked_add(&self.validator_weights[i].1) {
                    Some(signed) => signed,
                    None => Weight512::zero(),
                };
            }
            i += 1;
        }
        proof {
            lemma_signed_bound(
                self.validator_weights@,
                signatures@,
                self.validator_weights.len() as int,
            );
        }
        signed
    }

    /// Tells how much weight the signers have: strict, if twice their weight is at
    /// least the total weight and the finality threshold; sufficient, if it is at
    /// least the finality threshold; insufficient otherwise. A validator counts
    /// once, however often it signed. The products are compared as they are:
    /// nothing is rounded.
    pub fn have_sufficient_weight(&self, signatures: Vec<FinalitySignature>) -> (res:
        SignatureWeight)
        requires
            self.wf(),
        ensures
            res == spec_signature_weight(
                spec_total(self.validator_weights@),
                spec_signed(self.validator_weights@, signatures@),
                self.finality_threshold_fraction,
            ),
    {
        let fraction = self.finality_threshold_fraction;
        let (strict_numer, strict_denom) = fraction.strict();
        let total = self.get_total_weight();
        let signed = self.signature_weight(&signatures);
        proof {
            lemma_words_monotone(TOTAL_WORDS as nat, 7);
            lemma_product_fits(signed@ as int, strict_denom as int, 7);
            lemma_product_fits(signed@ as int, fraction.denom as int, 7);
            lemma_product_fits(total@ as int, strict_numer as int, 7);
            lemma_product_fits(total@ as int, fraction.numer as int, 7);
            lemma_strict_threshold(
                signed@ as int,
                total@ as int,
                fraction.numer as int,
                fraction.denom as int,
                strict_numer as int,
                strict_denom as int,
            );
        }
        let zero = Weight512::zero();
        let signed_strict = match signed.checked_mul(&Weight512::from_u64(strict_denom)) {
            Some(product) => product,
            None => zero,
        };
        let total_strict = match total.checked_mul(&Weight512::from_u64(strict_numer)) {
            Some(product) => product,
            None => zero,
        };
        if signed_strict.at_least(&total_strict) {
            return SignatureWeight::Strict;
        }
        let signed_sufficient = match signed.checked_mul(&Weight512::from_u64(fraction.denom)) {
            Some(product) => product,
            None => zero,
        };
        let total_sufficient = match total.checked_mul(&Weight512::from_u64(fraction.numer)) {
            Some(product) => product,
            None => zero,
        };
        if signed_sufficient.at_least(&total_sufficient) {
            return SignatureWeight::Sufficient;
        }
        SignatureWeight::Insufficient
    }
}

/// A weight below `k` words, taken a number of times that fits a word, is below
/// `k + 1` words.
pub proof fn lemma_product_fits(weight: int, times: int, k: nat)
    requires
        0 <= weight < spec_words(k),
        0 <= times < WORD,
    ensures
        0 <= weight * times < spec_words(k + 1),
{
    let unit = spec_words(k) as int;
    assert(0 <= weight * times < unit * (WORD as int)) by (nonlinear_arith)
        requires
            0 <= weight < unit,
            0 <= times < WORD,
    ;
    assert(spec_words(k + 1) == spec_words(k) * (WORD as nat)) by {
        assert((k + 1 - 1) as nat == k);
    }
}

} // verus!

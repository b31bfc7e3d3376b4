use bft_core::validator_matrix::era_weights::{
    EraId, EraValidatorWeights, FinalitySignature, PublicKey, SignatureWeight,
};
use bft_core::validator_matrix::fraction::Fraction;
use bft_core::validator_matrix::matrix::ValidatorMatrix;
use bft_core::validator_matrix::wide::Weight512;

fn key(byte: u8) -> PublicKey {
    PublicKey(vec![1, byte, byte])
}

fn third() -> Fraction {
    Fraction::new(1, 3).expect("a third is a fraction")
}

fn weights(list: &[(u8, u64)]) -> Vec<(PublicKey, Weight512)> {
    list.iter().map(|(byte, weight)| (key(*byte), Weight512::from_u64(*weight))).collect()
}

fn signatures(bytes: &[u8]) -> Vec<FinalitySignature> {
    bytes.iter().map(|byte| FinalitySignature { era_id: EraId(1), public_key: key(*byte) }).collect()
}

fn era(list: &[(u8, u64)]) -> EraValidatorWeights {
    EraValidatorWeights::new(EraId(1), weights(list), third()).expect("the weights are well formed")
}

#[test]
fn thresholds_with_a_third() {
    // Total 300: sufficient from 100, strict from 200.
    let era = era(&[(1, 99), (2, 1), (3, 100), (4, 100)]);
    assert_eq!(era.get_total_weight(), Weight512::from_u64(300));
    assert_eq!(era.have_sufficient_weight(signatures(&[])), SignatureWeight::Insufficient);
    assert_eq!(era.have_sufficient_weight(signatures(&[1])), SignatureWeight::Insufficient);
    assert_eq!(era.have_sufficient_weight(signatures(&[1, 2])), SignatureWeight::Sufficient);
    assert_eq!(era.have_sufficient_weight(signatures(&[3, 1])), SignatureWeight::Sufficient);
    assert_eq!(era.have_sufficient_weight(signatures(&[3, 4])), SignatureWeight::Strict);
    assert_eq!(era.have_sufficient_weight(signatures(&[1, 2, 3, 4])), SignatureWeight::Strict);
    // A signer that is no validator has no weight.
    assert_eq!(era.have_sufficient_weight(signatures(&[9, 1])), SignatureWeight::Insufficient);
}

#[test]
fn thresholds_are_not_rounded() {
    // Total 10 with a third: sufficient needs 3 * signed >= 10, strict 6 * signed >= 40.
    let era = era(&[(1, 3), (2, 1), (3, 2), (4, 1), (5, 3)]);
    assert_eq!(era.have_sufficient_weight(signatures(&[1])), SignatureWeight::Insufficient);
    assert_eq!(era.have_sufficient_weight(signatures(&[1, 2])), SignatureWeight::Sufficient);
    assert_eq!(era.have_sufficient_weight(signatures(&[1, 5])), SignatureWeight::Sufficient);
    assert_eq!(era.have_sufficient_weight(signatures(&[1, 5, 2])), SignatureWeight::Strict);
}

#[test]
fn thresholds_beyond_64_bits() {
    let big = u64::MAX;
    let era = era(&[(1, big), (2, big), (3, big)]);
    let total = era.get_total_weight();
    assert_eq!(total.limbs, [u64::MAX - 2, 2, 0, 0, 0, 0, 0, 0]);
    assert_eq!(era.have_sufficient_weight(signatures(&[1])), SignatureWeight::Sufficient);
    assert_eq!(era.have_sufficient_weight(signatures(&[1, 2])), SignatureWeight::Strict);
}

#[test]
fn wide_arithmetic() {
    let max = Weight512::from_u64(u64::MAX);
    let one = Weight512::from_u64(1);
    assert_eq!(Weight512::zero().limbs, [0; 8]);
    assert_eq!(max.checked_add(&one).map(|sum| sum.limbs), Some([0, 1, 0, 0, 0, 0, 0, 0]));
    assert_eq!(
        max.checked_mul(&max).map(|sum| sum.limbs),
        Some([1, u64::MAX - 1, 0, 0, 0, 0, 0, 0])
    );
    let top = Weight512 { limbs: [u64::MAX; 8] };
    assert_eq!(top.checked_add(&one), None);
    assert_eq!(top.checked_mul(&Weight512::from_u64(2)), None);
    assert_eq!(top.checked_mul(&one), Some(top));
    assert!(top.at_least(&max));
    assert!(!max.at_least(&top));
    assert!(max.at_least(&max));
    let high = Weight512 { limbs: [0, 0, 0, 0, 0, 0, 0, 1] };
    let low = Weight512 { limbs: [u64::MAX, u64::MAX, 0, 0, 0, 0, 0, 0] };
    assert!(high.at_least(&low));
    assert!(!low.at_least(&high));
}

#[test]
fn strict_fraction() {
    let (numer, denom) = third().strict();
    assert_eq!((numer, denom), (2, 3));
    let (numer, denom) = Fraction::new(1, 2).unwrap().strict();
    assert_eq!((numer, denom), (3, 4));
    let (numer, denom) = Fraction::new(0, 5).unwrap().strict();
    assert_eq!((numer, denom), (1, 2));
    let (numer, denom) = Fraction::new(7, 7).unwrap().strict();
    assert_eq!((numer, denom), (1, 1));
}

#[test]
fn a_validator_that_signed_twice_counts_once() {
    let third_of_three = era(&[(1, 1), (2, 1), (3, 1)]);
    assert_eq!(
        third_of_three.have_sufficient_weight(signatures(&[1])),
        SignatureWeight::Sufficient
    );
    assert_eq!(
        third_of_three.have_sufficient_weight(signatures(&[1, 1])),
        SignatureWeight::Sufficient
    );
    assert_eq!(
        third_of_three.have_sufficient_weight(signatures(&[1, 2, 1])),
        SignatureWeight::Strict
    );
    let half = Fraction::new(1, 2).expect("a half is a fraction");
    let quarter_of_four =
        EraValidatorWeights::new(EraId(1), weights(&[(1, 1), (2, 1), (3, 1), (4, 1)]), half)
            .expect("the weights are well formed");
    assert_eq!(
        quarter_of_four.have_sufficient_weight(signatures(&[1, 1])),
        SignatureWeight::Insufficient
    );
    assert_eq!(
        quarter_of_four.have_sufficient_weight(signatures(&[1, 2])),
        SignatureWeight::Sufficient
    );
    assert_eq!(
        quarter_of_four.have_sufficient_weight(signatures(&[3, 1, 2])),
        SignatureWeight::Strict
    );
}

#[test]
fn fractions_have_a_denominator() {
    assert!(Fraction::new(1, 0).is_none());
    assert!(Fraction::new(1, u64::MAX).is_none());
    assert!(Fraction::new(u64::MAX, 1).is_none());
    assert_eq!(Fraction::new(2, 6).map(|f| (f.numer(), f.denom())), Some((2, 6)));
    // A fraction above one is a threshold that nothing reaches.
    let above = Fraction::new(3, 2).expect("three halves are a fraction");
    assert_eq!(above.strict(), (5, 4));
    let era = EraValidatorWeights::new(EraId(1), weights(&[(1, 1), (2, 1)]), above)
        .expect("the weights are well formed");
    assert_eq!(era.have_sufficient_weight(signatures(&[1, 2])), SignatureWeight::Insufficient);
}

#[test]
fn keys_occur_once() {
    assert!(EraValidatorWeights::new(EraId(1), weights(&[(1, 1), (1, 2)]), third()).is_none());
    assert!(EraValidatorWeights::new(EraId(1), weights(&[]), third()).is_some());
    // The validators come in the order of their keys, as a map lists them.
    assert!(EraValidatorWeights::new(EraId(1), weights(&[(2, 1), (1, 2)]), third()).is_none());
    assert!(EraValidatorWeights::new(EraId(1), weights(&[(1, 1), (2, 2)]), third()).is_some());
    let short = (PublicKey(vec![1, 7]), Weight512::from_u64(1));
    let long = (PublicKey(vec![1, 7, 0]), Weight512::from_u64(1));
    assert!(EraValidatorWeights::new(EraId(1), vec![short.clone(), long.clone()], third()).is_some());
    assert!(EraValidatorWeights::new(EraId(1), vec![long, short], third()).is_none());
    let large = vec![(key(1), Weight512 { limbs: [0, 0, 0, 0, 0, 0, u64::MAX, 0] })];
    assert!(EraValidatorWeights::new(EraId(1), large, third()).is_some());
    let huge = vec![(key(1), Weight512 { limbs: [0, 0, 0, 0, 0, 0, 0, 1] })];
    assert!(EraValidatorWeights::new(EraId(1), huge, third()).is_none());
}

#[test]
fn weights_and_keys() {
    let era = era(&[(1, 10), (2, 20), (3, 30)]);
    assert_eq!(era.era_id(), EraId(1));
    assert!(!era.is_empty());
    assert_eq!(era.get_weight(&key(2)), Weight512::from_u64(20));
    assert_eq!(era.get_weight(&key(9)), Weight512::zero());
    assert_eq!(era.validator_public_keys(), vec![key(1), key(2), key(3)]);
    assert_eq!(era.weights(), weights(&[(1, 10), (2, 20), (3, 30)]));
    assert_eq!(era.missing_signatures(&signatures(&[])), era.validator_public_keys());
    assert_eq!(era.missing_signatures(&signatures(&[1, 9, 1])), vec![key(2), key(3)]);
    assert_eq!(era.missing_signatures(&signatures(&[3, 1, 2])), Vec::<PublicKey>::new());
}

#[test]
fn registry_of_eras() {
    let mut matrix = ValidatorMatrix::new(third());
    assert_eq!(matrix.fault_tolerance_threshold(), third());
    matrix.register_validator_weights(EraId(5), weights(&[(1, 10), (2, 20)]));
    // An era that is registered is not registered again.
    matrix.register_validator_weights(EraId(5), weights(&[(1, 1)]));
    matrix.register_eras(vec![
        (EraId(5), weights(&[(7, 7)])),
        (EraId(6), weights(&[(1, 5)])),
        (EraId(8), weights(&[(1, 8)])),
    ]);
    assert_eq!(matrix.get_total_weight(EraId(5)), Some(Weight512::from_u64(30)));
    assert_eq!(matrix.get_total_weight(EraId(6)), Some(Weight512::from_u64(5)));
    assert_eq!(matrix.get_total_weight(EraId(7)), None);
    assert_eq!(matrix.get_weight(EraId(5), &key(2)), Weight512::from_u64(20));
    assert_eq!(matrix.get_weight(EraId(7), &key(2)), Weight512::zero());
    assert_eq!(matrix.validator_public_keys(EraId(5)), Some(vec![key(1), key(2)]));
    assert_eq!(matrix.validator_public_keys(EraId(7)), None);
    assert_eq!(matrix.missing_signatures(EraId(5), &signatures(&[2])), Some(vec![key(1)]));
    assert_eq!(
        matrix.have_sufficient_weight(EraId(5), signatures(&[2])),
        Some(SignatureWeight::Strict)
    );
    assert_eq!(
        matrix.have_sufficient_weight(EraId(5), signatures(&[1])),
        Some(SignatureWeight::Sufficient)
    );
    assert_eq!(matrix.have_sufficient_weight(EraId(7), signatures(&[1])), None);
    assert_eq!(
        matrix.validator_weights(EraId(6)).map(|era| era.weights()),
        Some(weights(&[(1, 5)]))
    );

    matrix.upsert(vec![(EraId(5), era(&[(4, 4)]))]);
    assert_eq!(matrix.get_total_weight(EraId(5)), Some(Weight512::from_u64(4)));
    matrix.register_era_validator_weights(era(&[(4, 44)]));
    assert_eq!(matrix.get_total_weight(EraId(1)), Some(Weight512::from_u64(44)));

    matrix.remove_era(EraId(6));
    assert_eq!(matrix.get_total_weight(EraId(6)), None);
    matrix.remove_eras(EraId(6));
    assert_eq!(matrix.get_total_weight(EraId(1)), None);
    assert_eq!(matrix.get_total_weight(EraId(5)), None);
    assert_eq!(matrix.get_total_weight(EraId(8)), Some(Weight512::from_u64(8)));
}

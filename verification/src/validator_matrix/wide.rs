//! Weights of 512 bits.
//!
//! A weight is held as eight words, the least significant first. Sums and products
//! are computed by `casper_types::U512`; nothing of that arithmetic is proved here.

use vstd::prelude::*;

verus! {

/// The number of values of a word.
pub const WORD: u128 = 0x1_0000_0000_0000_0000;

/// The value of `k` words: `2^(64 k)`.
pub open spec fn spec_words(k: nat) -> nat
    decreases k,
{
    if k == 0 {
        1
    } else {
        spec_words((k - 1) as nat) * (WORD as nat)
    }
}

/// The number that the first `k` words stand for, the least significant first.
pub open spec fn spec_wide_upto(limbs: Seq<u64>, k: nat) -> nat
    decreases k,
{
    if k == 0 {
        0
    } else {
        spec_wide_upto(limbs, (k - 1) as nat) + (limbs[k - 1] as nat) * spec_words((k - 1) as nat)
    }
}

/// The number that eight words stand for.
pub open spec fn spec_wide(limbs: Seq<u64>) -> nat {
    spec_wide_upto(limbs, 8)
}

/// A weight of 512 bits.
#[derive(Copy, Clone, Debug, PartialEq, Eq)]
pub struct Weight512 {
    /// The words of the number, the least significant first.
    pub limbs: [u64; 8],
}

impl View for Weight512 {
    type V = nat;

    open spec fn view(&self) -> nat {
        spec_wide(self.limbs@)
    }
}

/// `U512::checked_add` of `casper_types`: the sum, or nothing if it does not fit
/// 512 bits.
#[verifier::external_body]
fn wide_checked_add(a: [u64; 8], b: [u64; 8]) -> (sum: Option<[u64; 8]>)
    ensures
        match sum {
            Some(limbs) => spec_wide(limbs@) == spec_wide(a@) + spec_wide(b@),
            None => spec_wide(a@) + spec_wide(b@) >= spec_words(8),
        },
{
    casper_types::U512(a).checked_add(casper_types::U512(b)).map(|sum| sum.0)
}

/// `U512::checked_mul` of `casper_types`: the product, or nothing if it does not
/// fit 512 bits.
#[verifier::external_body]
fn wide_checked_mul(a: [u64; 8], b: [u64; 8]) -> (product: Option<[u64; 8]>)
    ensures
        match product {
            Some(limbs) => spec_wide(limbs@) == spec_wide(a@) * spec_wide(b@),
            None => spec_wide(a@) * spec_wide(b@) >= spec_words(8),
        },
{
    casper_types::U512(a).checked_mul(casper_types::U512(b)).map(|product| product.0)
}

/// The order of `casper_types::U512`, which is that of the numbers: whether the
/// first is at least the second.
#[verifier::external_body]
fn wide_at_least(a: [u64; 8], b: [u64; 8]) -> (res: bool)
    ensures
        res == (spec_wide(a@) >= spec_wide(b@)),
{
    casper_types::U512(a) >= casper_types::U512(b)
}

/// Eight words stand for a number below `2^512`.
pub proof fn lemma_wide_bound(limbs: Seq<u64>, k: nat)
    requires
        k <= limbs.len(),
    ensures
        spec_wide_upto(limbs, k) < spec_words(k),
    decreases k,
{
    if k > 0 {
        lemma_wide_bound(limbs, (k - 1) as nat);
        let lower = spec_wide_upto(limbs, (k - 1) as nat);
        let unit = spec_words((k - 1) as nat);
        let word = limbs[k - 1] as nat;
        assert(lower + word * unit < unit * (WORD as nat)) by (nonlinear_arith)
            requires
                lower < unit,
                word < WORD,
        ;
    }
}

/// The more words, the greater their value.
pub proof fn lemma_words_monotone(few: nat, many: nat)
    requires
        few <= many,
    ensures
        1 <= spec_words(few) <= spec_words(many),
    decreases many,
{
    if few < many {
        lemma_words_monotone(few, (many - 1) as nat);
        let unit = spec_words((many - 1) as nat);
        assert(unit <= unit * (WORD as nat)) by (nonlinear_arith)
            requires
                unit >= 1,
        ;
    } else if many > 0 {
        lemma_words_monotone((few - 1) as nat, (many - 1) as nat);
        let unit = spec_words((many - 1) as nat);
        assert(1 <= unit * (WORD as nat)) by (nonlinear_arith)
            requires
                unit >= 1,
        ;
    }
}

/// The value of `a + b` words is the product of the values of `a` and of `b` words.
pub proof fn lemma_words_add(a: nat, b: nat)
    ensures
        spec_words(a + b) == spec_words(a) * spec_words(b),
    decreases b,
{
    if b == 0 {
        assert(spec_words(a) * 1 == spec_words(a)) by (nonlinear_arith);
    } else {
        lemma_words_add(a, (b - 1) as nat);
        let x = spec_words(a);
        let y = spec_words((b - 1) as nat);
        assert((x * y) * (WORD as nat) == x * (y * (WORD as nat))) by (nonlinear_arith);
        assert(a + b - 1 == a + (b - 1) as nat);
    }
}

impl Weight512 {
    /// The weight zero.
    pub fn zero() -> (weight: Weight512)
        ensures
            weight@ == 0,
    {
        let weight = Weight512 { limbs: [0, 0, 0, 0, 0, 0, 0, 0] };
        proof {
            reveal_with_fuel(spec_wide_upto, 9);
            assert(forall|k: nat| #![auto] 0 * spec_words(k) == 0) by (nonlinear_arith);
        }
        weight
    }

    /// The weight that a number of 64 bits stands for.
    pub fn from_u64(number: u64) -> (weight: Weight512)
        ensures
            weight@ == number,
    {
        let weight = Weight512 { limbs: [number, 0, 0, 0, 0, 0, 0, 0] };
        proof {
            reveal_with_fuel(spec_wide_upto, 9);
            reveal_with_fuel(spec_words, 2);
            assert(forall|k: nat| #![auto] 0 * spec_words(k) == 0) by (nonlinear_arith);
            assert((number as nat) * 1 == number) by (nonlinear_arith);
        }
        weight
    }

    /// The sum of two weights, or nothing if it does not fit 512 bits.
    pub fn checked_add(&self, other: &Weight512) -> (sum: Option<Weight512>)
        ensures
            match sum {
                Some(sum) => sum@ == self@ + other@,
                None => self@ + other@ >= spec_words(8),
            },
    {
        match wide_checked_add(self.limbs, other.limbs) {
            Some(limbs) => Some(Weight512 { limbs }),
            None => None,
        }
    }

    /// The product of two weights, or nothing if it does not fit 512 bits.
    pub fn checked_mul(&self, other: &Weight512) -> (product: Option<Weight512>)
        ensures
            match product {
                Some(product) => product@ == self@ * other@,
                None => self@ * other@ >= spec_words(8),
            },
    {
        match wide_checked_mul(self.limbs, other.limbs) {
            Some(limbs) => Some(Weight512 { limbs }),
            None => None,
        }
    }

    /// Whether this weight is at least the other.
    pub fn at_least(&self, other: &Weight512) -> (res: bool)
        ensures
            res == (self@ >= other@),
    {
        wide_at_least(self.limbs, other.limbs)
    }
}

} // verus!

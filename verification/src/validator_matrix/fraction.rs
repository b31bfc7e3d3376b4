//! Fractions of the total weight.
//!
//! The fraction that a strict majority has to reach is computed with the sums and
//! products of the `num_rational` crate, of which nothing is proved here.

use vstd::prelude::*;

verus! {

/// The largest numerator and the largest denominator of a fraction: with them, no
/// sum or product that the thresholds take exceeds 64 bits.
pub const MAX_DENOM: u64 = 0x7fff_ffff_ffff_ffff;

/// A fraction that is not negative.
#[derive(Copy, Clone, Debug, PartialEq, Eq, Structural)]
pub struct Fraction {
    /// The numerator.
    pub numer: u64,
    /// The denominator.
    pub denom: u64,
}

/// The sum of two ratios of `num_rational`, `Ratio::new(a.0, a.1) + Ratio::new(b.0,
/// b.1)`, as numerator and denominator: a fraction that equals the sum of the two,
/// with terms no greater than those of the sum taken over the product of the
/// denominators. A denominator of zero would panic, and the 64 bits could
/// overflow where that sum or product exceeds them; the precondition excludes
/// both.
#[verifier::external_body]
fn ratio_sum(a: (u64, u64), b: (u64, u64)) -> (sum: (u64, u64))
    requires
        a.1 > 0,
        b.1 > 0,
        a.0 * b.1 + b.0 * a.1 <= u64::MAX,
        a.1 * b.1 <= u64::MAX,
    ensures
        sum.1 > 0,
        sum.0 * (a.1 * b.1) == sum.1 * (a.0 * b.1 + b.0 * a.1),
        sum.0 <= a.0 * b.1 + b.0 * a.1,
        sum.1 <= a.1 * b.1,
{
    let sum = num_rational::Ratio::new(a.0, a.1) + num_rational::Ratio::new(b.0, b.1);
    (*sum.numer(), *sum.denom())
}

/// The product of two ratios of `num_rational`, `Ratio::new(a.0, a.1) *
/// Ratio::new(b.0, b.1)`, as numerator and denominator: a fraction that equals the
/// product of the two. A denominator of zero would panic, and the 64 bits could
/// overflow where the product of the numerators or of the denominators exceeds
/// them; the precondition excludes both.
#[verifier::external_body]
fn ratio_product(a: (u64, u64), b: (u64, u64)) -> (product: (u64, u64))
    requires
        a.1 > 0,
        b.1 > 0,
        a.0 * b.0 <= u64::MAX,
        a.1 * b.1 <= u64::MAX,
    ensures
        product.1 > 0,
        product.0 * (a.1 * b.1) == product.1 * (a.0 * b.0),
{
    let product = num_rational::Ratio::new(a.0, a.1) * num_rational::Ratio::new(b.0, b.1);
    (*product.numer(), *product.denom())
}

impl Fraction {
    /// The invariant of a fraction: its denominator is not zero, and neither it nor
    /// the numerator is above `MAX_DENOM`.
    pub open spec fn wf(&self) -> bool {
        &&& 0 < self.denom <= MAX_DENOM
        &&& self.numer <= MAX_DENOM
    }

    /// Creates a fraction. There is none with a denominator of zero, or with a
    /// numerator or a denominator above `MAX_DENOM`.
    pub fn new(numer: u64, denom: u64) -> (fraction: Option<Fraction>)
        ensures
            fraction is Some <==> 0 < denom <= MAX_DENOM && numer <= MAX_DENOM,
            fraction matches Some(fraction) ==> fraction.wf() && fraction.numer == numer
                && fraction.denom == denom,
    {
        if denom == 0 || denom > MAX_DENOM || numer > MAX_DENOM {
            None
        } else {
            Some(Fraction { numer, denom })
        }
    }

    /// The numerator.
    pub fn numer(&self) -> (numer: u64)
        ensures
            numer == self.numer,
    {
        self.numer
    }

    /// The denominator.
    pub fn denom(&self) -> (denom: u64)
        ensures
            denom == self.denom,
    {
        self.denom
    }

    /// Half of one plus this fraction, as numerator and denominator: what a strict
    /// majority has to reach.
    pub fn strict(&self) -> (strict: (u64, u64))
        requires
            self.wf(),
        ensures
            strict.1 > 0,
            strict.0 * (2 * self.denom) == strict.1 * (self.denom + self.numer),
    {
        let numer = self.numer;
        let denom = self.denom;
        assert(1 * denom + numer * 1 <= u64::MAX && 1 * denom <= u64::MAX) by (nonlinear_arith)
            requires
                0 < denom <= MAX_DENOM,
                numer <= MAX_DENOM,
        ;
        let more = ratio_sum((1, 1), (numer, denom));
        assert(1 * more.0 <= u64::MAX && 2 * more.1 <= u64::MAX) by (nonlinear_arith)
            requires
                more.0 <= 1 * denom + numer * 1,
                more.1 <= 1 * denom,
                0 < denom <= MAX_DENOM,
                numer <= MAX_DENOM,
        ;
        let strict = ratio_product((1, 2), more);
        assert(strict.0 * (2 * denom) == strict.1 * (denom + numer)) by (nonlinear_arith)
            requires
                more.1 > 0,
                more.0 * (1 * denom) == more.1 * (1 * denom + numer * 1),
                strict.0 * (2 * more.1) == strict.1 * (1 * more.0),
        ;
        strict
    }
}

} // verus!

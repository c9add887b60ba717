//! Exact non-negative fractions.
//!
//! Distances and frequencies in this crate are rational numbers by
//! construction, so they are carried as an integer numerator over a positive
//! integer denominator instead of being rounded into machine floats.

use vstd::prelude::*;

verus! {

/// A non-negative rational number `num / den`.
#[derive(Clone, Copy, Debug, PartialEq, Eq, Structural)]
pub struct Fraction {
    pub num: u64,
    pub den: u64,
}

impl Fraction {
    /// A fraction is well formed when its denominator is positive.
    pub open spec fn wf(self) -> bool {
        self.den > 0
    }

    /// The exact comparison `self < other`, by cross multiplication.
    pub open spec fn spec_lt(self, other: Fraction) -> bool {
        self.num * other.den < other.num * self.den
    }

    pub fn new(num: u64, den: u64) -> (r: Fraction)
        requires
            den > 0,
        ensures
            r.num == num,
            r.den == den,
            r.wf(),
    {
        Fraction { num, den }
    }

    /// The zero fraction.
    pub fn zero() -> (r: Fraction)
        ensures
            r.num == 0,
            r.den == 1,
            r.wf(),
    {
        Fraction { num: 0, den: 1 }
    }

    /// Exact order test between two fractions.
    pub fn lt(&self, other: &Fraction) -> (r: bool)
        requires
            self.wf(),
            other.wf(),
        ensures
            r == self.spec_lt(*other),
    {
        proof {
            assert((self.num as u128) * (other.den as u128) <= u128::MAX
                && (other.num as u128) * (self.den as u128) <= u128::MAX) by (nonlinear_arith)
                requires
                    self.num <= u64::MAX && other.den <= u64::MAX && other.num <= u64::MAX
                        && self.den <= u64::MAX,
            ;
        }
        (self.num as u128) * (other.den as u128) < (other.num as u128) * (self.den as u128)
    }
}

} // verus!

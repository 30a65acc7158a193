//! Exact fractions for amplitudes, decay and mix levels.

use vstd::prelude::*;
use crate::arith::{trunc_div, lemma_product_bound, lemma_trunc_div_shrinks};

verus! {

/// A fraction with a positive denominator.
///
/// Amplitudes, feedback decay, mix levels and volumes are given as such
/// fractions, so that `x` scaled by one is the exact product divided
/// once and rounded toward zero.
#[derive(Clone, Copy, Debug)]
pub struct Ratio {
    num: i32,
    den: u32,
}

impl Ratio {
    /// The numerator.
    pub closed spec fn numer(&self) -> int {
        self.num as int
    }

    /// The denominator.
    pub closed spec fn denom(&self) -> int {
        self.den as int
    }

    /// A fraction is well formed when its denominator is not zero.
    pub open spec fn wf(&self) -> bool {
        self.denom() >= 1
    }

    /// `x` times this fraction, rounded toward zero.
    pub open spec fn scale(&self, x: int) -> int {
        trunc_div(x * self.numer(), self.denom())
    }

    /// Builds `num / den`, or nothing when `den` is zero.
    pub fn new(num: i32, den: u32) -> (r: Option<Ratio>)
        ensures
            den == 0 <==> r is None,
            r matches Some(f) ==> f.wf() && f.numer() == num && f.denom() == den,
    {
        if den == 0 {
            None
        } else {
            Some(Ratio { num, den })
        }
    }

    /// The fraction one.
    pub fn one() -> (r: Ratio)
        ensures
            r.wf(),
            r.numer() == 1,
            r.denom() == 1,
    {
        Ratio { num: 1, den: 1 }
    }

    /// The fraction zero.
    pub fn zero() -> (r: Ratio)
        ensures
            r.wf(),
            r.numer() == 0,
            r.denom() == 1,
    {
        Ratio { num: 0, den: 1 }
    }

    /// Reads the numerator.
    pub fn num(&self) -> (n: i32)
        ensures
            n == self.numer(),
    {
        self.num
    }

    /// Reads the denominator.
    pub fn den(&self) -> (d: u32)
        ensures
            d == self.denom(),
    {
        self.den
    }

    /// Scales a value by this fraction, rounding toward zero.
    pub fn apply(&self, x: i64) -> (y: i128)
        requires
            self.wf(),
        ensures
            y == self.scale(x as int),
            -0x4000_0000_0000_0000_0000_0000 <= y <= 0x4000_0000_0000_0000_0000_0000,
    {
        proof {
            lemma_product_bound(
                x as int,
                self.num as int,
                0x8000_0000_0000_0000,
                0x8000_0000,
            );
            lemma_trunc_div_shrinks(x as int * self.num as int, self.den as int);
        }
        ((x as i128) * (self.num as i128)) / (self.den as i128)
    }
}

} // verus!

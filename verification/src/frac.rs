//! Exact fractions over 128-bit integers.
//!
//! The swept-collision solver reports the fraction of a movement at which
//! contact happens. Carrying it as an exact numerator/denominator pair
//! keeps the solver free of rounding; callers bound the coordinates so
//! that every product below fits in an `i128`.

use vstd::prelude::*;

verus! {

/// The `i128` range, for stating that an intermediate product fits.
pub open spec fn fits_i128(x: int) -> bool {
    -0x8000_0000_0000_0000_0000_0000_0000_0000 <= x
        <= 0x7fff_ffff_ffff_ffff_ffff_ffff_ffff_ffff
}

/// Two numerator/denominator pairs (positive denominators) denote the
/// same rational.
pub open spec fn ratio_eq(n1: int, d1: int, n2: int, d2: int) -> bool {
    n1 * d2 == n2 * d1
}

/// `n1/d1 <= n2/d2`, for positive denominators.
pub open spec fn ratio_le(n1: int, d1: int, n2: int, d2: int) -> bool {
    n1 * d2 <= n2 * d1
}

/// A fraction with a positive denominator.
#[derive(Clone, Copy, Debug)]
pub struct Frac {
    pub num: i128,
    pub den: i128,
}

impl Frac {
    pub open spec fn wf(self) -> bool {
        self.den > 0
    }

    /// The whole number one.
    pub fn one() -> (r: Frac)
        ensures
            r.num == 1 && r.den == 1,
    {
        Frac { num: 1, den: 1 }
    }

    /// Exact equality of the denoted rationals.
    pub fn eq_frac(&self, o: &Frac) -> (r: bool)
        requires
            self.wf(),
            o.wf(),
            fits_i128(self.num * o.den),
            fits_i128(o.num * self.den),
        ensures
            r == ratio_eq(self.num as int, self.den as int, o.num as int, o.den as int),
    {
        self.num * o.den == o.num * self.den
    }

    /// `|self| < |o|`, the solver's ordering of collision fractions.
    pub fn abs_lt(&self, o: &Frac) -> (r: bool)
        requires
            self.wf(),
            o.wf(),
            self.num > -0x8000_0000_0000_0000_0000_0000_0000_0000,
            o.num > -0x8000_0000_0000_0000_0000_0000_0000_0000,
            fits_i128(vstd::math::abs(self.num as int) * o.den),
            fits_i128(vstd::math::abs(o.num as int) * self.den),
        ensures
            r == (vstd::math::abs(self.num as int) * o.den
                < vstd::math::abs(o.num as int) * self.den),
    {
        let a: i128 = if self.num < 0 { -self.num } else { self.num };
        let b: i128 = if o.num < 0 { -o.num } else { o.num };
        a * o.den < b * self.den
    }

    /// `|self| <= |o|`.
    pub fn abs_le(&self, o: &Frac) -> (r: bool)
        requires
            self.wf(),
            o.wf(),
            self.num > -0x8000_0000_0000_0000_0000_0000_0000_0000,
            o.num > -0x8000_0000_0000_0000_0000_0000_0000_0000,
            fits_i128(vstd::math::abs(self.num as int) * o.den),
            fits_i128(vstd::math::abs(o.num as int) * self.den),
        ensures
            r == (vstd::math::abs(self.num as int) * o.den
                <= vstd::math::abs(o.num as int) * self.den),
    {
        let a: i128 = if self.num < 0 { -self.num } else { self.num };
        let b: i128 = if o.num < 0 { -o.num } else { o.num };
        a * o.den <= b * self.den
    }
}

} // verus!

//! Exact rational statistic values.
//!
//! Every average, ratio and percentile this library reports is an exact
//! rational number `num / den` with a positive denominator, so contracts can
//! pin results down without floating point. Callers that need a float divide
//! at the boundary; callers that need a fixed-point integer use [`Frac::scaled`].
use vstd::prelude::*;

verus! {

/// An exact rational value `num / den`, with `den >= 1`.
pub struct Frac {
    pub num: i128,
    pub den: u64,
}

impl Frac {
    /// A structurally valid rational: the denominator is positive.
    pub open spec fn wf(self) -> bool {
        self.den >= 1
    }

    /// The zero value, canonically `0 / 1`.
    pub open spec fn spec_zero() -> Frac {
        Frac { num: 0, den: 1 }
    }

    /// Exactly zero, `0 / 1`.
    pub fn zero() -> (r: Frac)
        ensures
            r == Frac::spec_zero(),
    {
        Frac { num: 0, den: 1 }
    }

    /// The rational `self` rounded down after scaling by `scale`:
    /// `floor(num * scale / den)`. Used by tests and by unverified callers
    /// that want a fixed-point rendering of the value.
    pub fn scaled(&self, scale: u64) -> (r: i128)
        requires
            self.wf(),
            scale >= 1,
            i128::MIN <= self.num * scale <= i128::MAX,
        ensures
            r == (self.num * scale) / (self.den as int),
    {
        let wide: i128 = self.num * (scale as i128);
        div_floor_i128(wide, self.den as i128)
    }
}

/// The exact average of a sample with the given sum and size.
pub fn make_avg(sum: i128, count: u64) -> (r: Frac)
    ensures
        r == avg_frac(sum as int, count as int),
{
    if count == 0 {
        Frac::zero()
    } else {
        Frac { num: sum, den: count }
    }
}

/// The average of a sample with the given sum and size, as an exact rational;
/// an empty sample averages to zero.
pub open spec fn avg_frac(sum: int, count: int) -> Frac {
    if count == 0 {
        Frac::spec_zero()
    } else {
        Frac { num: sum as i128, den: count as u64 }
    }
}

/// `a <= b` on rationals with positive denominators, by cross-multiplication.
pub open spec fn frac_le(a: Frac, b: Frac) -> bool {
    a.num * b.den <= b.num * a.den
}

/// Floor division on `i128` with a positive divisor; agrees with the
/// mathematical (Euclidean) quotient `a / b`.
pub fn div_floor_i128(a: i128, b: i128) -> (r: i128)
    requires
        b > 0,
    ensures
        r == a as int / b as int,
{
    let q: i128 = a / b;
    let rem: i128 = a % b;
    proof {
        let ai = a as int;
        let bi = b as int;
        let d = ai / bi;
        let m = ai % bi;
        vstd::arithmetic::div_mod::lemma_fundamental_div_mod(ai, bi);
        vstd::arithmetic::div_mod::lemma_mod_bound(ai, bi);
        if a < 0 {
            assert(d >= ai) by (nonlinear_arith)
                requires
                    ai == bi * d + m,
                    0 <= m < bi,
                    ai < 0,
                    bi >= 1,
            ;
            if m == 0 {
                assert(-ai == (-d) * bi + 0) by (nonlinear_arith)
                    requires
                        ai == bi * d + m,
                        m == 0,
                ;
                vstd::arithmetic::div_mod::lemma_fundamental_div_mod_converse(-ai, bi, -d, 0);
                assert(q == d);
            } else {
                assert(-ai == (-d - 1) * bi + (bi - m)) by (nonlinear_arith)
                    requires
                        ai == bi * d + m,
                ;
                vstd::arithmetic::div_mod::lemma_fundamental_div_mod_converse(
                    -ai,
                    bi,
                    -d - 1,
                    bi - m,
                );
                assert(q == d + 1);
            }
        }
    }
    if rem != 0 && a < 0 {
        q - 1
    } else {
        q
    }
}

} // verus!

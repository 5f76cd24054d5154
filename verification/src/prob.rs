//! Exact probabilities as rational numbers.
//!
//! Every probability the engine computes is a quotient of small binomial
//! coefficients, so it is kept as an exact `num / den` pair instead of a
//! floating-point approximation; distribution identities then hold
//! exactly, with no tolerance.

use vstd::prelude::*;

verus! {

/// An exact non-negative rational, `num / den`.  Fractions are not
/// reduced; `den` is always at least one.
#[derive(Debug, Clone, Copy, PartialEq, Eq, Structural)]
pub struct Prob {
    /// Numerator.
    pub num: u64,
    /// Denominator, at least one.
    pub den: u64,
}

/// The rational zero, in its canonical form.
pub open spec fn spec_zero_prob() -> Prob {
    Prob { num: 0, den: 1 }
}

/// `a >= b` as rationals, by cross-multiplication.
pub open spec fn spec_prob_ge(a: Prob, b: Prob) -> bool {
    a.num * b.den >= b.num * a.den
}

/// Bound under which cross-multiplication cannot overflow a `u64`.
pub open spec fn spec_prob_small(p: Prob) -> bool {
    &&& p.num <= 0xFFFF_FFFF
    &&& 1 <= p.den <= 0xFFFF_FFFF
}

/// The rational zero.
pub fn zero_prob() -> (r: Prob)
    ensures
        r == spec_zero_prob(),
{
    Prob { num: 0, den: 1 }
}

/// Compares two probabilities exactly, by cross-multiplication.
pub fn prob_ge(a: &Prob, b: &Prob) -> (r: bool)
    requires
        spec_prob_small(*a),
        spec_prob_small(*b),
    ensures
        r == spec_prob_ge(*a, *b),
{
    proof {
        assert(a.num * b.den <= 0xFFFF_FFFF * 0xFFFF_FFFF) by (nonlinear_arith)
            requires
                a.num <= 0xFFFF_FFFF,
                b.den <= 0xFFFF_FFFF,
        {}
        assert(b.num * a.den <= 0xFFFF_FFFF * 0xFFFF_FFFF) by (nonlinear_arith)
            requires
                b.num <= 0xFFFF_FFFF,
                a.den <= 0xFFFF_FFFF,
        {}
    }
    a.num * b.den >= b.num * a.den
}

} // verus!

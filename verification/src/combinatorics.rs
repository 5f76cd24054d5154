//! Exact small-integer combinatorics: n-choose-k and n-pick-k.
//!
//! The deck never holds more than 17 cards, so every quantity fits
//! comfortably in a `u64`; the executable functions mirror the recursive
//! specifications exactly and never overflow.

use vstd::prelude::*;

verus! {

/// Mathematical factorial.
pub open spec fn spec_fact(n: nat) -> nat
    decreases n,
{
    if n == 0 {
        1
    } else {
        n * spec_fact((n - 1) as nat)
    }
}

/// Number of k-element subsets of an n-element set, by Pascal's rule.
/// Selecting more items than are available counts zero ways.
pub open spec fn spec_choose(k: nat, n: nat) -> nat
    decreases n,
{
    if k == 0 {
        1
    } else if k > n {
        0
    } else {
        spec_choose((k - 1) as nat, (n - 1) as nat) + spec_choose(k, (n - 1) as nat)
    }
}

/// Number of k-element ordered selections from an n-element set.
pub open spec fn spec_pick(k: nat, n: nat) -> nat
    decreases n,
{
    if k == 0 {
        1
    } else if k > n {
        0
    } else {
        n * spec_pick((k - 1) as nat, (n - 1) as nat)
    }
}

/// Powers of two, used only to bound binomial coefficients.
pub open spec fn pow2(e: nat) -> nat
    decreases e,
{
    if e == 0 {
        1
    } else {
        2 * pow2((e - 1) as nat)
    }
}

/// Every binomial coefficient is at most the corresponding power of two.
pub proof fn lemma_choose_le_pow2(k: nat, n: nat)
    ensures
        spec_choose(k, n) <= pow2(n),
    decreases n,
{
    lemma_pow2_pos(n);
    if k == 0 {
    } else if k > n {
    } else {
        lemma_choose_le_pow2((k - 1) as nat, (n - 1) as nat);
        lemma_choose_le_pow2(k, (n - 1) as nat);
        assert(pow2(n) == 2 * pow2((n - 1) as nat));
    }
}

/// Powers of two are positive.
pub proof fn lemma_pow2_pos(e: nat)
    ensures
        pow2(e) >= 1,
    decreases e,
{
    if e > 0 {
        lemma_pow2_pos((e - 1) as nat);
    }
}

/// A selection is possible exactly when it does not ask for more items
/// than are available.
pub proof fn lemma_choose_pos(k: nat, n: nat)
    requires
        k <= n,
    ensures
        spec_choose(k, n) >= 1,
    decreases n,
{
    if k != 0 {
        lemma_choose_pos((k - 1) as nat, (n - 1) as nat);
    }
}

/// Impossible selections count zero ways, and there is exactly one way to
/// select nothing.
pub proof fn lemma_choose_edges(k: nat, n: nat)
    ensures
        k > n ==> spec_choose(k, n) == 0,
        spec_choose(0, n) == 1,
{
}

/// Closed form for choosing one item.
pub proof fn lemma_choose_one(n: nat)
    ensures
        spec_choose(1, n) == n,
    decreases n,
{
    if n > 0 {
        lemma_choose_one((n - 1) as nat);
        assert(spec_choose(0, (n - 1) as nat) == 1);
        assert(spec_choose(1, n) == spec_choose(0, (n - 1) as nat) + spec_choose(
            1,
            (n - 1) as nat,
        ));
    }
}

/// Closed form for choosing two items.
pub proof fn lemma_choose_two(n: nat)
    ensures
        2 * spec_choose(2, n) == n * (n - 1),
    decreases n,
{
    if n < 2 {
        assert(spec_choose(2, n) == 0);
        assert(n * (n - 1) == 0) by (nonlinear_arith)
            requires
                0 <= n < 2,
        {}
    } else {
        lemma_choose_two((n - 1) as nat);
        lemma_choose_one((n - 1) as nat);
        assert(spec_choose(2, n) == spec_choose(1, (n - 1) as nat) + spec_choose(
            2,
            (n - 1) as nat,
        ));
        assert(2 * spec_choose(2, n) == n * (n - 1)) by (nonlinear_arith)
            requires
                n >= 2,
                spec_choose(2, n) == spec_choose(1, (n - 1) as nat) + spec_choose(
                    2,
                    (n - 1) as nat,
                ),
                spec_choose(1, (n - 1) as nat) == n - 1,
                2 * spec_choose(2, (n - 1) as nat) == (n - 1) * (n - 2),
        {}
    }
}

/// Closed form for choosing three items.
pub proof fn lemma_choose_three(n: nat)
    ensures
        6 * spec_choose(3, n) == n * (n - 1) * (n - 2),
    decreases n,
{
    if n < 3 {
        assert(spec_choose(3, n) == 0);
        assert(n * (n - 1) * (n - 2) == 0) by (nonlinear_arith)
            requires
                0 <= n < 3,
        {}
    } else {
        lemma_choose_three((n - 1) as nat);
        lemma_choose_two((n - 1) as nat);
        assert(spec_choose(3, n) == spec_choose(2, (n - 1) as nat) + spec_choose(
            3,
            (n - 1) as nat,
        ));
        assert(6 * spec_choose(3, n) == n * (n - 1) * (n - 2)) by (nonlinear_arith)
            requires
                n >= 3,
                spec_choose(3, n) == spec_choose(2, (n - 1) as nat) + spec_choose(
                    3,
                    (n - 1) as nat,
                ),
                2 * spec_choose(2, (n - 1) as nat) == (n - 1) * (n - 2),
                6 * spec_choose(3, (n - 1) as nat) == (n - 1) * (n - 2) * (n - 3),
        {}
    }
}

/// Vandermonde convolution for three-card draws: splitting the pool into
/// two factions splits the ways of drawing three cards into the four
/// faction compositions.
pub proof fn lemma_vandermonde_three(a: nat, b: nat)
    ensures
        spec_choose(3, a + b) == spec_choose(3, a) + spec_choose(2, a) * spec_choose(1, b)
            + spec_choose(1, a) * spec_choose(2, b) + spec_choose(3, b),
{
    lemma_choose_three(a + b);
    lemma_choose_three(a);
    lemma_choose_three(b);
    lemma_choose_two(a);
    lemma_choose_two(b);
    lemma_choose_one(a);
    lemma_choose_one(b);
    assert(6 * spec_choose(3, a + b) == 6 * (spec_choose(3, a) + spec_choose(2, a) * spec_choose(
        1,
        b,
    ) + spec_choose(1, a) * spec_choose(2, b) + spec_choose(3, b))) by (nonlinear_arith)
        requires
            6 * spec_choose(3, (a + b) as nat) == (a + b) * (a + b - 1) * (a + b - 2),
            6 * spec_choose(3, a) == a * (a - 1) * (a - 2),
            6 * spec_choose(3, b) == b * (b - 1) * (b - 2),
            2 * spec_choose(2, a) == a * (a - 1),
            2 * spec_choose(2, b) == b * (b - 1),
            spec_choose(1, a) == a,
            spec_choose(1, b) == b,
    {}
}

/// Exact binomial coefficient.  The bound on `from` keeps every
/// intermediate value inside `u64`, matching the range on which the
/// original 64-bit factorial arithmetic is exact.
pub fn m_choose(take: u64, from: u64) -> (r: u64)
    requires
        from <= 20,
    ensures
        r == spec_choose(take as nat, from as nat),
    decreases from,
{
    if take == 0 {
        1
    } else if take > from {
        0
    } else {
        proof {
            lemma_choose_le_pow2((take - 1) as nat, (from - 1) as nat);
            lemma_choose_le_pow2(take as nat, (from - 1) as nat);
            lemma_pow2_mono((from - 1) as nat, 20);
            assert(pow2(20) == 0x100000) by {
                reveal_with_fuel(pow2, 21);
            }
        }
        let a = m_choose(take - 1, from - 1);
        let b = m_choose(take, from - 1);
        a + b
    }
}

/// Powers of two grow with the exponent.
pub proof fn lemma_pow2_mono(e1: nat, e2: nat)
    requires
        e1 <= e2,
    ensures
        pow2(e1) <= pow2(e2),
    decreases e2,
{
    if e1 < e2 {
        lemma_pow2_mono(e1, (e2 - 1) as nat);
        lemma_pow2_pos((e2 - 1) as nat);
        assert(pow2(e2) == 2 * pow2((e2 - 1) as nat));
    }
}

/// The count of ordered selections never exceeds the full factorial.
pub proof fn lemma_pick_le_fact(k: nat, n: nat)
    ensures
        spec_pick(k, n) <= spec_fact(n),
    decreases n,
{
    lemma_fact_pos(n);
    if k == 0 {
    } else if k > n {
    } else {
        lemma_pick_le_fact((k - 1) as nat, (n - 1) as nat);
        assert(n * spec_pick((k - 1) as nat, (n - 1) as nat) <= n * spec_fact((n - 1) as nat))
            by (nonlinear_arith)
            requires
                n >= 1,
                spec_pick((k - 1) as nat, (n - 1) as nat) <= spec_fact((n - 1) as nat),
        {}
    }
}

/// Factorials are positive.
pub proof fn lemma_fact_pos(n: nat)
    ensures
        spec_fact(n) >= 1,
    decreases n,
{
    if n > 0 {
        lemma_fact_pos((n - 1) as nat);
        assert(n * spec_fact((n - 1) as nat) >= 1) by (nonlinear_arith)
            requires
                n >= 1,
                spec_fact((n - 1) as nat) >= 1,
        {}
    }
}

/// Factorials grow with their argument.
pub proof fn lemma_fact_mono(m: nat, n: nat)
    requires
        m <= n,
    ensures
        spec_fact(m) <= spec_fact(n),
    decreases n,
{
    lemma_fact_pos(m);
    if m < n {
        lemma_fact_mono(m, (n - 1) as nat);
        assert(spec_fact((n - 1) as nat) <= n * spec_fact((n - 1) as nat)) by (nonlinear_arith)
            requires
                n >= 1,
                spec_fact((n - 1) as nat) >= 0,
        {}
        lemma_fact_pos((n - 1) as nat);
    }
}

/// Exact count of ordered k-element selections from `from` items, zero
/// when `pick > from`.  Bounded so the product stays inside `u64`.
pub fn m_pick(pick: u64, from: u64) -> (r: u64)
    requires
        from <= 20,
    ensures
        r == spec_pick(pick as nat, from as nat),
    decreases from,
{
    if pick == 0 {
        1
    } else if pick > from {
        0
    } else {
        let rest = m_pick(pick - 1, from - 1);
        proof {
            lemma_pick_le_fact((pick - 1) as nat, (from - 1) as nat);
            lemma_fact_mono((from - 1) as nat, 19);
            assert(spec_fact(19) == 121645100408832000) by {
                reveal_with_fuel(spec_fact, 21);
            }
            assert(from * rest <= 20 * 121645100408832000) by (nonlinear_arith)
                requires
                    1 <= from <= 20,
                    rest <= 121645100408832000,
            {}
        }
        from * rest
    }
}

} // verus!

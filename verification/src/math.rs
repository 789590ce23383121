//! Fixed-point arithmetic helpers shared by the conversion engine.
//!
//! The engine divides scaled products back down to the component scale. The
//! division used for that is `div_round`: division rounded to the nearest
//! integer, halves rounding up. Its characteristic property, proved in
//! [`lemma_div_round`], is that `b * div_round(a, b)` is within `b / 2` of
//! `a`.

use vstd::prelude::*;

verus! {

/// Division of `a` by `b`, rounded to the nearest integer; halves round up.
pub open spec fn div_round(a: int, b: int) -> int
    recommends
        b >= 1,
{
    (2 * a + b) / (2 * b)
}

/// The rounded quotient is the integer nearest `a / b`: doubling to stay in
/// integers, `2 * b * div_round(a, b)` lies in `(2 * a - b, 2 * a + b]`.
pub proof fn lemma_div_round(a: int, b: int)
    requires
        a >= 0,
        b >= 1,
    ensures
        2 * a - b < 2 * b * div_round(a, b) <= 2 * a + b,
        div_round(a, b) >= 0,
{
    let q = (2 * a + b) / (2 * b);
    vstd::arithmetic::div_mod::lemma_fundamental_div_mod(2 * a + b, 2 * b);
    vstd::arithmetic::div_mod::lemma_mod_division_less_than_divisor(2 * a + b, 2 * b);
    assert(2 * a + b == 2 * b * q + (2 * a + b) % (2 * b));
    vstd::arithmetic::div_mod::lemma_div_pos_is_pos(2 * a + b, 2 * b);
}

/// If `a` is at most `b * k`, the rounded quotient is at most `k`.
pub proof fn lemma_div_round_le(a: int, b: int, k: int)
    requires
        0 <= a,
        1 <= b,
        0 <= k,
        a <= b * k,
    ensures
        div_round(a, b) <= k,
{
    lemma_div_round(a, b);
    let q = div_round(a, b);
    assert(2 * b * q <= 2 * (b * k) + b);
    if q > k {
        assert(q >= k + 1);
        assert(2 * b * q >= 2 * b * (k + 1)) by (nonlinear_arith)
            requires
                b >= 1,
                q >= k + 1,
        ;
        assert(2 * b * (k + 1) == 2 * (b * k) + 2 * b) by (nonlinear_arith);
    }
}

/// Multiples divide back exactly: `div_round(k * b, b) == k`.
pub proof fn lemma_div_round_exact(k: int, b: int)
    requires
        0 <= k,
        1 <= b,
    ensures
        div_round(k * b, b) == k,
{
    lemma_div_round(k * b, b);
    let q = div_round(k * b, b);
    assert(2 * (k * b) - b < 2 * b * q <= 2 * (k * b) + b);
    assert(2 * (k * b) == 2 * b * k) by (nonlinear_arith);
    if q < k {
        assert(2 * b * q <= 2 * b * k - 2 * b) by (nonlinear_arith)
            requires
                b >= 1,
                q <= k - 1,
        ;
    }
    if q > k {
        assert(2 * b * q >= 2 * b * k + 2 * b) by (nonlinear_arith)
            requires
                b >= 1,
                q >= k + 1,
        ;
    }
}

/// A zero numerator divides to zero, whatever the divisor.
pub proof fn lemma_div_round_zero(b: int)
    requires
        1 <= b,
    ensures
        div_round(0, b) == 0,
{
    vstd::arithmetic::div_mod::lemma_basic_div(b, 2 * b);
}

/// If `b * q` is within half of `b` of `a` (stated doubled, to stay in
/// integers), then `q` is the rounded quotient of `a` by `b`.
pub proof fn lemma_div_round_converse(a: int, b: int, q: int)
    requires
        0 <= a,
        1 <= b,
        0 <= q,
        2 * b * q <= 2 * a + b,
        2 * a + b < 2 * b * q + 2 * b,
    ensures
        div_round(a, b) == q,
{
    assert(q * (2 * b) == 2 * b * q) by (nonlinear_arith);
    vstd::arithmetic::div_mod::lemma_fundamental_div_mod_converse(
        2 * a + b,
        2 * b,
        q,
        2 * a + b - q * (2 * b),
    );
}

/// The rounded quotient is monotone in the numerator.
pub proof fn lemma_div_round_monotone(a1: int, a2: int, b: int)
    requires
        0 <= a1 <= a2,
        1 <= b,
    ensures
        div_round(a1, b) <= div_round(a2, b),
{
    vstd::arithmetic::div_mod::lemma_div_is_ordered(2 * a1 + b, 2 * a2 + b, 2 * b);
}

/// Division of `a` by `b`, rounded to the nearest integer; halves round up.
pub(crate) fn div_round_u64(a: u64, b: u64) -> (r: u64)
    requires
        1 <= b,
        2 * a + b <= u64::MAX,
        2 * b <= u64::MAX,
    ensures
        r == div_round(a as int, b as int),
{
    (2 * a + b) / (2 * b)
}

/// Floor division bounds: `d * (x / d)` lies in `(x - d, x]`.
pub proof fn lemma_div_floor(x: int, d: int)
    requires
        x >= 0,
        d >= 1,
    ensures
        x - d < d * (x / d) <= x,
        x / d >= 0,
{
    vstd::arithmetic::div_mod::lemma_fundamental_div_mod(x, d);
    vstd::arithmetic::div_mod::lemma_mod_division_less_than_divisor(x, d);
    vstd::arithmetic::div_mod::lemma_div_pos_is_pos(x, d);
}

/// If `x` is strictly below `d * k`, so is the floor quotient below `k`.
pub proof fn lemma_div_floor_lt(x: int, d: int, k: int)
    requires
        0 <= x,
        1 <= d,
        0 <= k,
        x < d * k,
    ensures
        x / d < k,
{
    lemma_div_floor(x, d);
    if x / d >= k {
        assert(d * (x / d) >= d * k) by (nonlinear_arith)
            requires
                d >= 1,
                x / d >= k,
        ;
    }
}

} // verus!

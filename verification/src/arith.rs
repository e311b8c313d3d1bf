//! Truncating fixed-point division and the facts about it that the
//! transform proofs need.
//!
//! Every scaled multiplication in the crate ends with a division by the
//! fixed-point scale that truncates toward zero. `tdiv` is the
//! mathematical description of that operation.

use vstd::prelude::*;

verus! {

/// The fixed-point scale: values of magnitude `SCALE` stand for 1.0.
pub const SCALE: i64 = 1048576;

/// Division truncated toward zero, the rounding used by every scaled
/// multiplication in the crate. Meaningful for `d > 0`.
pub open spec fn tdiv(a: int, d: int) -> int
    recommends
        d > 0,
{
    if a >= 0 {
        a / d
    } else {
        -((-a) / d)
    }
}

/// Executable counterpart of `tdiv`, computed on magnitudes so that the
/// rounding direction is toward zero for either sign.
pub fn tdiv_i64(a: i64, d: i64) -> (r: i64)
    requires
        d > 0,
        a > i64::MIN,
    ensures
        r == tdiv(a as int, d as int),
{
    if a >= 0 {
        let q: u64 = (a as u64) / (d as u64);
        q as i64
    } else {
        let neg: i64 = -a;
        let q: u64 = (neg as u64) / (d as u64);
        assert(q as int <= neg as int) by (nonlinear_arith)
            requires
                q as int == (neg as u64) as int / (d as u64) as int,
                (d as u64) as int >= 1,
                (neg as u64) as int >= 0,
                neg as int == (neg as u64) as int,
        ;
        -(q as i64)
    }
}

/// Dividing an exact multiple of `d` by `d` recovers the factor: the
/// truncation loses nothing on exact products.
pub proof fn lemma_tdiv_exact(x: int, d: int)
    requires
        d > 0,
    ensures
        tdiv(x * d, d) == x,
{
    if x >= 0 {
        assert(x * d >= 0 && (x * d) / d == x) by (nonlinear_arith)
            requires
                d > 0,
                x >= 0,
        ;
    } else {
        assert(x * d < 0 && -(x * d) == (-x) * d && ((-x) * d) / d == -x) by (nonlinear_arith)
            requires
                d > 0,
                x < 0,
        ;
    }
}

/// Truncation never increases magnitude: a numerator bounded by `m * d`
/// gives a quotient bounded by `m`.
pub proof fn lemma_tdiv_bound(a: int, d: int, m: int)
    requires
        d > 0,
        m >= 0,
        -(m * d) <= a <= m * d,
    ensures
        -m <= tdiv(a, d) <= m,
{
    if a >= 0 {
        assert(0 <= a / d <= m) by (nonlinear_arith)
            requires
                d > 0,
                m >= 0,
                0 <= a <= m * d,
        ;
    } else {
        assert(0 <= (-a) / d <= m) by (nonlinear_arith)
            requires
                d > 0,
                m >= 0,
                0 <= -a <= m * d,
        ;
    }
}

/// The quotient of nonnegative `a` by `d` is unchanged when both carry a
/// common positive factor.
proof fn lemma_div_common_factor_nonneg(a: int, d: int, g: int)
    requires
        d > 0,
        g > 0,
        a >= 0,
    ensures
        (a * g) / (d * g) == a / d,
{
    vstd::arithmetic::div_mod::lemma_fundamental_div_mod(a, d);
    let q = a / d;
    let r = a % d;
    assert(a * g == q * (d * g) + r * g) by (nonlinear_arith)
        requires
            a == d * q + r,
    ;
    assert(0 <= r * g < d * g) by (nonlinear_arith)
        requires
            0 <= r < d,
            g > 0,
    ;
    vstd::arithmetic::div_mod::lemma_fundamental_div_mod_converse_div(a * g, d * g, q, r * g);
}

/// The quotient is unchanged when numerator and denominator carry a
/// common positive factor.
pub proof fn lemma_tdiv_common_factor(a: int, d: int, g: int)
    requires
        d > 0,
        g > 0,
    ensures
        tdiv(a * g, d * g) == tdiv(a, d),
{
    assert(d * g > 0) by (nonlinear_arith)
        requires
            d > 0,
            g > 0,
    ;
    if a >= 0 {
        lemma_div_common_factor_nonneg(a, d, g);
        assert(a * g >= 0) by (nonlinear_arith)
            requires
                a >= 0,
                g > 0,
        ;
    } else {
        lemma_div_common_factor_nonneg(-a, d, g);
        assert(a * g < 0 && -(a * g) == (-a) * g) by (nonlinear_arith)
            requires
                a < 0,
                g > 0,
        ;
    }
}

} // verus!

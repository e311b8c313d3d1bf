//! Fixed-point cosine and sine of `2*pi*k/n`.
//!
//! Angles are kept as the fraction `k/n`, never as a rounded radian
//! value, so the symmetry reductions are exact. Inside the first
//! quadrant the functions are truncated Taylor polynomials evaluated in
//! fixed point; the final value is clamped to `[-SCALE, SCALE]`, the
//! range of a true cosine, so the bound holds by construction. The spec
//! functions are the definition of the crate's trigonometry and the
//! executable code computes exactly them.

use vstd::prelude::*;

use crate::arith::{lemma_tdiv_bound, tdiv, tdiv_i64, SCALE};
use crate::complex::{c_bounded, Complex, ComplexInt};

verus! {

/// `2*pi` at the fixed-point scale, truncated.
pub const TWO_PI_SCALED: i64 = 6588397;

/// Largest denominator the executable trigonometry accepts; keeps every
/// intermediate product far inside `i64`.
pub const MAX_DENOM: u64 = 262144;

/// Clamp to the range of a scaled cosine or sine.
pub open spec fn clamp_scale(v: int) -> int {
    if v > SCALE as int {
        SCALE as int
    } else if v < -(SCALE as int) {
        -(SCALE as int)
    } else {
        v
    }
}

/// Scaled cosine of `2*pi*num/den` for a fraction in the first quadrant
/// (`4*num <= den`): a five-term Taylor polynomial in fixed point.
pub open spec fn quarter_cos(num: int, den: int) -> int
    recommends
        den >= 1,
        0 <= 4 * num <= den,
{
    let x = tdiv(TWO_PI_SCALED as int * num, den);
    let t2 = tdiv(x * x, SCALE as int);
    let t4 = tdiv(t2 * t2, SCALE as int);
    let t6 = tdiv(t4 * t2, SCALE as int);
    let t8 = tdiv(t4 * t4, SCALE as int);
    clamp_scale(
        SCALE as int - tdiv(t2, 2) + tdiv(t4, 24) - tdiv(t6, 720) + tdiv(t8, 40320),
    )
}

/// Scaled sine of `2*pi*num/den` for a fraction in the first quadrant:
/// a four-term Taylor polynomial in fixed point.
pub open spec fn quarter_sin(num: int, den: int) -> int
    recommends
        den >= 1,
        0 <= 4 * num <= den,
{
    let x = tdiv(TWO_PI_SCALED as int * num, den);
    let t2 = tdiv(x * x, SCALE as int);
    let t4 = tdiv(t2 * t2, SCALE as int);
    let t6 = tdiv(t4 * t2, SCALE as int);
    clamp_scale(
        tdiv(x * (SCALE as int - tdiv(t2, 6) + tdiv(t4, 120) - tdiv(t6, 5040)), SCALE as int),
    )
}

/// Scaled cosine of `2*pi*k/n` for `0 <= k <= n`, by folding the angle
/// into the first quadrant: `cos(2*pi - a) == cos(a)` and
/// `cos(a) == -cos(pi - a)`.
pub open spec fn cos2pi(k: int, n: int) -> int
    recommends
        n >= 1,
        0 <= k <= n,
{
    let kf = if 2 * k > n {
        n - k
    } else {
        k
    };
    if 4 * kf <= n {
        quarter_cos(kf, n)
    } else {
        -quarter_cos(n - 2 * kf, 2 * n)
    }
}

/// Scaled sine of `2*pi*k/n` for `0 <= k <= n`, by the same folding:
/// `sin(2*pi - a) == -sin(a)` and `sin(a) == sin(pi - a)`.
pub open spec fn sin2pi(k: int, n: int) -> int
    recommends
        n >= 1,
        0 <= k <= n,
{
    let kf = if 2 * k > n {
        n - k
    } else {
        k
    };
    let s = if 4 * kf <= n {
        quarter_sin(kf, n)
    } else {
        quarter_sin(n - 2 * kf, 2 * n)
    };
    if 2 * k > n {
        -s
    } else {
        s
    }
}

/// The twiddle factor `exp(-2*pi*i*k/n)` in fixed point:
/// `cos(2*pi*k/n) - i*sin(2*pi*k/n)`.
pub open spec fn twiddle(k: int, n: int) -> ComplexInt
    recommends
        n >= 1,
        0 <= k <= n,
{
    ComplexInt { re: cos2pi(k, n), im: -sin2pi(k, n) }
}

/// Cosine and sine values lie in the scaled unit range.
pub proof fn lemma_cos_sin_bounded(k: int, n: int)
    ensures
        -(SCALE as int) <= cos2pi(k, n) <= SCALE as int,
        -(SCALE as int) <= sin2pi(k, n) <= SCALE as int,
{
}

/// Twiddle factors lie in the scaled unit square.
pub proof fn lemma_twiddle_bounded(k: int, n: int)
    ensures
        c_bounded(twiddle(k, n), SCALE as int),
{
    lemma_cos_sin_bounded(k, n);
}

/// The twiddle factor at `k == 0` is exactly 1: the scaled cosine of a
/// zero angle is `SCALE` and the scaled sine is 0.
pub proof fn lemma_twiddle_zero(n: int)
    requires
        n >= 1,
    ensures
        twiddle(0, n) == (ComplexInt { re: SCALE as int, im: 0 }),
{
    vstd::arithmetic::div_mod::lemma_div_of0(n);
    assert(TWO_PI_SCALED as int * 0 == 0);
    assert(tdiv(0, n) == 0);
    assert(cos2pi(0, n) == SCALE as int);
    assert(sin2pi(0, n) == 0);
}

/// The quarter-range values depend only on the ratio `num/den`: a
/// common positive factor drops out of the one division that touches
/// the angle.
proof fn lemma_quarter_common_factor(num: int, den: int, g: int)
    requires
        den >= 1,
        g >= 1,
    ensures
        quarter_cos(num * g, den * g) == quarter_cos(num, den),
        quarter_sin(num * g, den * g) == quarter_sin(num, den),
{
    assert(TWO_PI_SCALED as int * (num * g) == (TWO_PI_SCALED as int * num) * g)
        by (nonlinear_arith);
    crate::arith::lemma_tdiv_common_factor(TWO_PI_SCALED as int * num, den, g);
}

/// Twiddle factors depend only on the ratio `k/n`: the factor for bin
/// `k*g` of a transform of size `n*g` is the factor for bin `k` of a
/// transform of size `n`.
pub proof fn lemma_twiddle_common_factor(k: int, n: int, g: int)
    requires
        n >= 1,
        0 <= k <= n,
        g >= 1,
    ensures
        twiddle(k * g, n * g) == twiddle(k, n),
{
    let kf = if 2 * k > n {
        n - k
    } else {
        k
    };
    assert((2 * (k * g) > n * g) == (2 * k > n)) by (nonlinear_arith)
        requires
            g >= 1,
    ;
    assert(n * g - k * g == (n - k) * g) by (nonlinear_arith);
    assert((4 * (kf * g) <= n * g) == (4 * kf <= n)) by (nonlinear_arith)
        requires
            g >= 1,
    ;
    if 4 * kf <= n {
        lemma_quarter_common_factor(kf, n, g);
    } else {
        assert(n * g - 2 * (kf * g) == (n - 2 * kf) * g) by (nonlinear_arith);
        assert(2 * (n * g) == (2 * n) * g) by (nonlinear_arith);
        lemma_quarter_common_factor(n - 2 * kf, 2 * n, g);
    }
}

/// Clamp, executable.
fn clamp_scale_i64(v: i64) -> (r: i64)
    ensures
        r == clamp_scale(v as int),
{
    if v > SCALE {
        SCALE
    } else if v < -SCALE {
        -SCALE
    } else {
        v
    }
}

/// First-quadrant scaled cosine and sine of `2*pi*num/den`, executable.
fn quarter_cos_sin(num: u64, den: u64) -> (r: (i64, i64))
    requires
        1 <= den <= MAX_DENOM,
        4 * num <= den,
    ensures
        r.0 == quarter_cos(num as int, den as int),
        r.1 == quarter_sin(num as int, den as int),
{
    let xn: i64 = TWO_PI_SCALED * (num as i64);
    let x: i64 = tdiv_i64(xn, den as i64);
    proof {
        assert(xn as int <= 1647100 * den as int) by (nonlinear_arith)
            requires
                xn as int == 6588397 * num as int,
                4 * num as int <= den as int,
                num as int >= 0,
        ;
        lemma_tdiv_bound(xn as int, den as int, 1647100);
    }
    proof {
        assert(0 <= x as int * x as int <= 2588000 * SCALE as int) by (nonlinear_arith)
            requires
                0 <= x as int <= 1647100,
                SCALE == 1048576,
        ;
        lemma_tdiv_bound(x as int * x as int, SCALE as int, 2588000);
    }
    let t2: i64 = tdiv_i64(x * x, SCALE);
    proof {
        assert(-(6390000 * SCALE as int) <= t2 as int * t2 as int <= 6390000 * SCALE as int)
            by (nonlinear_arith)
            requires
                -2588000 <= t2 as int <= 2588000,
                SCALE == 1048576,
        ;
        lemma_tdiv_bound(t2 as int * t2 as int, SCALE as int, 6390000);
    }
    let t4: i64 = tdiv_i64(t2 * t2, SCALE);
    proof {
        assert(-(15800000 * SCALE as int) <= t4 as int * t2 as int <= 15800000 * SCALE as int)
            by (nonlinear_arith)
            requires
                -2588000 <= t2 as int <= 2588000,
                -6390000 <= t4 as int <= 6390000,
                SCALE == 1048576,
        ;
        lemma_tdiv_bound(t4 as int * t2 as int, SCALE as int, 15800000);
        assert(-(39000000 * SCALE as int) <= t4 as int * t4 as int <= 39000000 * SCALE as int)
            by (nonlinear_arith)
            requires
                -6390000 <= t4 as int <= 6390000,
                SCALE == 1048576,
        ;
        lemma_tdiv_bound(t4 as int * t4 as int, SCALE as int, 39000000);
    }
    let t6: i64 = tdiv_i64(t4 * t2, SCALE);
    let t8: i64 = tdiv_i64(t4 * t4, SCALE);
    let c_raw: i64 = SCALE - tdiv_i64(t2, 2) + tdiv_i64(t4, 24) - tdiv_i64(t6, 720) + tdiv_i64(
        t8,
        40320,
    );
    proof {
        lemma_tdiv_bound(t2 as int, 2, 2588000);
        lemma_tdiv_bound(t4 as int, 24, 6390000);
        lemma_tdiv_bound(t6 as int, 720, 15800000);
        lemma_tdiv_bound(t8 as int, 40320, 39000000);
    }
    let s_inner: i64 = SCALE - tdiv_i64(t2, 6) + tdiv_i64(t4, 120) - tdiv_i64(t6, 5040);
    proof {
        lemma_tdiv_bound(t2 as int, 6, 2588000);
        lemma_tdiv_bound(t4 as int, 120, 6390000);
        lemma_tdiv_bound(t6 as int, 5040, 15800000);
    }
    proof {
        assert(-(11000000 * 1647100) <= x as int * s_inner as int <= 11000000 * 1647100)
            by (nonlinear_arith)
            requires
                0 <= x as int <= 1647100,
                -11000000 <= s_inner as int <= 11000000,
        ;
    }
    let s_num: i64 = x * s_inner;
    let s_raw: i64 = tdiv_i64(s_num, SCALE);
    (clamp_scale_i64(c_raw), clamp_scale_i64(s_raw))
}

/// Scaled cosine and sine of `2*pi*k/n` over the whole circle,
/// executable.
pub fn cos_sin_2pi(k: u64, n: u64) -> (r: (i64, i64))
    requires
        1 <= n,
        2 * n <= MAX_DENOM,
        k <= n,
    ensures
        r.0 == cos2pi(k as int, n as int),
        r.1 == sin2pi(k as int, n as int),
{
    let kf: u64 = if 2 * k > n {
        n - k
    } else {
        k
    };
    let (c, s) = if 4 * kf <= n {
        quarter_cos_sin(kf, n)
    } else {
        let (cq, sq) = quarter_cos_sin(n - 2 * kf, 2 * n);
        (-cq, sq)
    };
    proof {
        lemma_cos_sin_bounded(k as int, n as int);
    }
    if 2 * k > n {
        (c, -s)
    } else {
        (c, s)
    }
}

/// The twiddle factor `exp(-2*pi*i*k/n)` in fixed point, executable.
pub fn twiddle_factor(k: usize, n: usize) -> (w: Complex)
    requires
        1 <= n,
        2 * n <= MAX_DENOM,
        2 * k <= n,
    ensures
        w@ == twiddle(k as int, n as int),
        c_bounded(w@, SCALE as int),
{
    let (c, s) = cos_sin_2pi(k as u64, n as u64);
    proof {
        lemma_cos_sin_bounded(k as int, n as int);
    }
    Complex { re: c, im: -s }
}

} // verus!

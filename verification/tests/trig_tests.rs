//! The fixed-point trigonometry against a floating-point reference:
//! the Taylor evaluation with quadrant folding must track the true
//! cosine and sine over the whole circle, and the exact identities the
//! proofs rely on must hold on the nose.

use spectralizer::arith::SCALE;
use spectralizer::complex::Complex;
use spectralizer::trig::{cos_sin_2pi, twiddle_factor};

const TOL: f64 = 4e-4;

/// `cos_sin_2pi(k, n)` tracks `cos(2*pi*k/n)` and `sin(2*pi*k/n)`.
#[test]
fn cos_sin_track_reference_values() {
    for &n in &[3u64, 8, 60, 360, 4096] {
        for k in 0..=n {
            let (c, s) = cos_sin_2pi(k, n);
            let angle = 2.0 * std::f64::consts::PI * k as f64 / n as f64;
            let c_err = (c as f64 / SCALE as f64 - angle.cos()).abs();
            let s_err = (s as f64 / SCALE as f64 - angle.sin()).abs();
            assert!(c_err < TOL, "cos({}/{}): err {}", k, n, c_err);
            assert!(s_err < TOL, "sin({}/{}): err {}", k, n, s_err);
        }
    }
}

/// The zero angle is exact: cosine is exactly the scale, sine exactly
/// zero; the DC-bin law rests on this.
#[test]
fn zero_angle_is_exact() {
    for &n in &[1u64, 2, 7, 512] {
        assert_eq!(cos_sin_2pi(0, n), (SCALE, 0));
        assert_eq!(cos_sin_2pi(n, n), (SCALE, 0));
    }
}

/// The half turn is exact too: folding sends `cos(pi)` to the zero
/// angle of the doubled denominator, so no Taylor error enters.
#[test]
fn half_turn_is_exact() {
    for &n in &[2u64, 8, 1024] {
        let (c, s) = cos_sin_2pi(n / 2, n);
        assert_eq!(c, -SCALE);
        assert_eq!(s, 0);
    }
}

/// Twiddle factors carry the negated sine: `exp(-2*pi*i*k/n)`.
#[test]
fn twiddle_factor_signs() {
    let w: Complex = twiddle_factor(1, 8);
    let inv_sqrt2 = std::f64::consts::FRAC_1_SQRT_2;
    assert!((w.re as f64 / SCALE as f64 - inv_sqrt2).abs() < TOL);
    assert!((w.im as f64 / SCALE as f64 + inv_sqrt2).abs() < TOL);
}

//! Tests for the Hamming window. A buffer filled with the fixed-point
//! scale value turns the windowed samples into the coefficients
//! themselves, so the coefficient laws can be checked directly.

use spectralizer::arith::SCALE;
use spectralizer::window::{
    hamming_window, try_hamming_window, HAMMING_ALPHA_SCALED, HAMMING_BETA_SCALED,
    WINDOW_INPUT_MAX,
};
use spectralizer::errors::SpectralizerError;

/// Window a buffer of `n` samples all equal to `SCALE`: the results are
/// exactly the window coefficients.
fn coefficients(n: usize) -> Vec<i64> {
    let mut x: Vec<i64> = vec![SCALE; n];
    hamming_window(&mut x);
    x
}

/// Both endpoint multipliers equal `alpha - beta` exactly, and the
/// window is largest around the middle.
#[test]
fn endpoint_coefficients_are_exact() {
    let edge = HAMMING_ALPHA_SCALED - HAMMING_BETA_SCALED;
    for n in [2usize, 8, 64, 511] {
        let c = coefficients(n);
        assert_eq!(c[0], edge, "n = {}", n);
        assert_eq!(c[n - 1], edge, "n = {}", n);
        for i in 0..n {
            assert!(edge <= c[i] && c[i] <= SCALE, "n = {}, i = {}", n, i);
        }
    }
    let c = coefficients(64);
    // The multiplier peaks where the cosine bottoms out, near (n-1)/2.
    assert!(c[31] > c[0] && c[32] > c[0]);
    assert!(c[31] > c[8] && c[32] > c[55]);
}

/// The coefficients match a floating-point evaluation of
/// `alpha - beta * cos(2*pi*i/(n-1))` closely.
#[test]
fn coefficients_match_reference_formula() {
    let n = 16usize;
    let c = coefficients(n);
    for i in 0..n {
        let angle = 2.0 * std::f64::consts::PI * i as f64 / (n as f64 - 1.0);
        let expected = 0.53836 - 0.46164 * angle.cos();
        let got = c[i] as f64 / SCALE as f64;
        assert!((got - expected).abs() < 1e-3, "i = {}: {} vs {}", i, got, expected);
    }
}

/// Windowing is not inverse-safe: applying the window twice is not the
/// same as applying it once.
#[test]
fn windowing_twice_is_not_idempotent() {
    let mut once: Vec<i64> = vec![SCALE; 8];
    hamming_window(&mut once);
    let mut twice = once.clone();
    hamming_window(&mut twice);
    assert_ne!(once, twice);
}

/// A degenerate window length fails fast: one sample would divide by
/// zero in the cosine argument.
#[test]
fn short_window_fails_fast() {
    let mut one: Vec<i64> = vec![42];
    assert_eq!(try_hamming_window(&mut one), Err(SpectralizerError::WindowTooShort));
    assert_eq!(one, vec![42]);

    let mut empty: Vec<i64> = vec![];
    assert_eq!(try_hamming_window(&mut empty), Err(SpectralizerError::WindowTooShort));
}

/// An amplitude beyond the windowing range fails fast and leaves the
/// buffer untouched.
#[test]
fn oversized_window_sample_fails_fast() {
    let mut x: Vec<i64> = vec![0, WINDOW_INPUT_MAX + 1];
    assert_eq!(try_hamming_window(&mut x), Err(SpectralizerError::SampleOutOfRange));
    assert_eq!(x, vec![0, WINDOW_INPUT_MAX + 1]);

    let mut ok: Vec<i64> = vec![WINDOW_INPUT_MAX, -WINDOW_INPUT_MAX];
    assert_eq!(try_hamming_window(&mut ok), Ok(()));
}

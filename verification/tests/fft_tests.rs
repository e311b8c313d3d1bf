//! Tests for the complex kernel, the real-input adapter and the
//! engines. Amplitudes are fixed point: a sample value of 65536 here
//! stands for 1.0 in a reference floating-point computation, so an
//! expected bin value `v` corresponds to `v * 65536`.

use spectralizer::complex::Complex;
use spectralizer::engine::{
    try_fft, try_real_fft, FastFourierTransform, PlannedFFT, SpectralizerFFT,
};
use spectralizer::errors::SpectralizerError;

const UNIT: i64 = 65536;

/// `|actual - expected_units * UNIT|` within `tol` fixed-point steps.
fn close(actual: i64, expected_units: f64, tol: i64) -> bool {
    let expected = expected_units * UNIT as f64;
    (actual as f64 - expected).abs() <= tol as f64
}

fn ramp_input() -> Vec<Complex> {
    (0..8).map(|i| Complex { re: i * UNIT, im: 0 }).collect()
}

fn zeros(n: usize) -> Vec<Complex> {
    (0..n).map(|_| Complex { re: 0, im: 0 }).collect()
}

/// Ensures correctness of the recursive kernel in a typical case: the
/// ramp 0..8 must produce the bins a reference DFT computes,
/// `28, -4+9.657i, -4+4i, -4+1.657i, -4, -4-1.657i, -4-4i, -4-9.657i`.
#[test]
fn test_spectralizer_fft() {
    let input = ramp_input();
    let mut output = zeros(8);
    let expected = [
        (28.0, 0.0),
        (-4.0, 9.65685424949238),
        (-4.0, 4.0),
        (-4.0, 1.6568542494923797),
        (-4.0, 0.0),
        (-4.0, -1.6568542494923797),
        (-4.0, -4.0),
        (-4.0, -9.65685424949238),
    ];
    let engine = SpectralizerFFT::new(8);
    engine.fft(&input, &mut output);
    let tol = 2048; // 1/32 of a unit; the fixed-point scale is 2^20
    for (i, &(re, im)) in expected.iter().enumerate() {
        assert!(close(output[i].re, re, tol), "bin {} re {} != {}", i, output[i].re, re);
        assert!(close(output[i].im, im, tol), "bin {} im {} != {}", i, output[i].im, im);
    }
}

/// The planned backend must be indistinguishable from the reference
/// backend: both contracts promise the one `spec_fft` sequence, so the
/// outputs agree bit for bit.
#[test]
fn planned_fft_matches_reference() {
    let input = ramp_input();
    let reference = SpectralizerFFT::new(8);
    let planned = PlannedFFT::new(8);
    let mut out_a = zeros(8);
    let mut out_b = zeros(8);
    reference.fft(&input, &mut out_a);
    planned.fft(&input, &mut out_b);
    for i in 0..8 {
        assert_eq!(out_a[i].re, out_b[i].re);
        assert_eq!(out_a[i].im, out_b[i].im);
    }
}

/// For a one-sample block the transform is the identity, exactly.
#[test]
fn fft_size_one_identity() {
    let engine = SpectralizerFFT::new(1);
    let input = vec![Complex { re: 12345, im: -678 }];
    let mut output = zeros(1);
    engine.fft(&input, &mut output);
    assert_eq!(output[0].re, 12345);
    assert_eq!(output[0].im, -678);

    let mut real_engine = PlannedFFT::new(1);
    let real_in: Vec<i64> = vec![-424242];
    let mut real_out: Vec<i64> = vec![0];
    real_engine.real_fft(&real_in, &mut real_out);
    assert_eq!(real_out[0], -424242);
}

/// The first bin of the real transform is the exact sum of the input
/// samples, with no rounding at all.
#[test]
fn real_fft_dc_bin_is_exact_sum() {
    let input: Vec<i64> = vec![3, -141, 59, 26, -5358, 979, 323, 84, 62, -643, 38, 3279, -50, 2, 88, 419];
    let sum: i64 = input.iter().sum();
    let mut engine = SpectralizerFFT::new(16);
    let mut output: Vec<i64> = vec![0; 16];
    engine.real_fft(&input, &mut output);
    assert_eq!(output[0], sum);

    let mut planned = PlannedFFT::new(16);
    let mut output2: Vec<i64> = vec![0; 16];
    planned.real_fft(&input, &mut output2);
    assert_eq!(output2[0], sum);
}

/// Two calls on one engine must not leak state between them: the second
/// call's output equals what a fresh engine computes from the second
/// input alone.
#[test]
fn repeated_calls_do_not_leak_state() {
    let first: Vec<i64> = (0..32).map(|i| (i * 1000 - 9000) as i64).collect();
    let second: Vec<i64> = (0..32).map(|i| ((31 - i) * 77 + 13) as i64).collect();

    let mut reused = SpectralizerFFT::new(32);
    let mut scratch_out: Vec<i64> = vec![0; 32];
    reused.real_fft(&first, &mut scratch_out);
    let mut reused_out: Vec<i64> = vec![0; 32];
    reused.real_fft(&second, &mut reused_out);

    let mut fresh = SpectralizerFFT::new(32);
    let mut fresh_out: Vec<i64> = vec![0; 32];
    fresh.real_fft(&second, &mut fresh_out);

    assert_eq!(reused_out, fresh_out);
}

/// A mismatched input/output pair fails fast and writes nothing.
#[test]
fn mismatched_lengths_fail_fast() {
    let engine = SpectralizerFFT::new(8);
    let input = ramp_input();
    let mut short_output = zeros(4);
    let r = try_fft(&engine, &input, &mut short_output);
    assert_eq!(r, Err(SpectralizerError::LengthMismatch));
    assert!(short_output.iter().all(|c| c.re == 0 && c.im == 0));

    let mut engine = PlannedFFT::new(8);
    let real_in: Vec<i64> = vec![1; 6];
    let mut real_out: Vec<i64> = vec![0; 8];
    let r = try_real_fft(&mut engine, &real_in, &mut real_out);
    assert_eq!(r, Err(SpectralizerError::LengthMismatch));
    assert!(real_out.iter().all(|&v| v == 0));
}

/// Engine construction checks the power-of-two invariant once.
#[test]
fn construction_rejects_bad_sizes() {
    assert!(matches!(
        SpectralizerFFT::try_new(12),
        Err(SpectralizerError::NotPowerOfTwo)
    ));
    assert!(matches!(
        SpectralizerFFT::try_new(0),
        Err(SpectralizerError::NotPowerOfTwo)
    ));
    assert!(matches!(
        PlannedFFT::try_new(8192),
        Err(SpectralizerError::BlockTooLarge)
    ));
    assert!(SpectralizerFFT::try_new(512).is_ok());
    assert!(PlannedFFT::try_new(1).is_ok());
}

/// An amplitude beyond the fixed-point range fails fast.
#[test]
fn oversized_sample_fails_fast() {
    let mut engine = SpectralizerFFT::new(4);
    let input: Vec<i64> = vec![0, spectralizer::fft::INPUT_MAX + 1, 0, 0];
    let mut output: Vec<i64> = vec![0; 4];
    let r = try_real_fft(&mut engine, &input, &mut output);
    assert_eq!(r, Err(SpectralizerError::SampleOutOfRange));
    assert!(output.iter().all(|&v| v == 0));

    let in_range: Vec<i64> = vec![0, spectralizer::fft::INPUT_MAX, 0, 0];
    let r = try_real_fft(&mut engine, &in_range, &mut output);
    assert_eq!(r, Ok(()));
}

/// Folding a spectrum keeps the first half as absolute values.
#[test]
fn half_magnitudes_folds_first_half() {
    let spectrum: Vec<i64> = vec![28, -4, 7, -4, -9, 3, 0, -1];
    let bars = spectralizer::fft::half_magnitudes(&spectrum);
    assert_eq!(bars, vec![28, 4, 7, 4]);
}

/// The checked complex entry point transforms a good block.
#[test]
fn try_fft_accepts_good_block() {
    let engine = SpectralizerFFT::new(8);
    let input = ramp_input();
    let mut checked = zeros(8);
    assert_eq!(try_fft(&engine, &input, &mut checked), Ok(()));
    let mut direct = zeros(8);
    engine.fft(&input, &mut direct);
    for i in 0..8 {
        assert_eq!(checked[i].re, direct[i].re);
        assert_eq!(checked[i].im, direct[i].im);
    }
}

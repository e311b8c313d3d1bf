//! The external transform backend must agree with the reference DFT
//! values on the same block the kernel tests use, and with the
//! library's own fixed-point engines up to fixed-point resolution.

use rustfft::num_complex::Complex;
use rustfft::FftPlanner;

use spectralizer::engine::{FastFourierTransform, SpectralizerFFT};

/// Ensures correctness of the external transform in a typical case:
/// the same ramp and expected bins as the kernel test.
#[test]
fn test_rust_fft() {
    let mut buffer: Vec<Complex<f64>> = (0..8).map(|i| Complex::new(i as f64, 0f64)).collect();
    let expected = vec![
        Complex::new(28.0, 0.0),
        Complex::new(-4.0, 9.65685424949238),
        Complex::new(-4.0, 4.0),
        Complex::new(-4.0, 1.6568542494923797),
        Complex::new(-4.0, 0.0),
        Complex::new(-4.0, -1.6568542494923797),
        Complex::new(-4.0, -4.0),
        Complex::new(-4.0, -9.65685424949238),
    ];

    let mut planner = FftPlanner::new();
    let fft = planner.plan_fft_forward(8);
    fft.process(&mut buffer);

    for (got, want) in buffer.iter().zip(expected.iter()) {
        assert!((got.re - want.re).abs() < 1e-9, "{} vs {}", got.re, want.re);
        assert!((got.im - want.im).abs() < 1e-9, "{} vs {}", got.im, want.im);
    }
}

/// The fixed-point engine agrees with the floating-point transform up
/// to the fixed-point resolution.
#[test]
fn fixed_point_engine_tracks_float_transform() {
    const UNIT: i64 = 65536;
    let samples: [i64; 16] = [
        310, -250, 987, 400, -112, 55, 800, -923, 14, 330, -640, 72, 255, -87, 91, -403,
    ];

    let mut float_buffer: Vec<Complex<f64>> =
        samples.iter().map(|&v| Complex::new(v as f64, 0.0)).collect();
    let mut planner = FftPlanner::new();
    let fft = planner.plan_fft_forward(16);
    fft.process(&mut float_buffer);

    let fixed_input: Vec<i64> = samples.iter().map(|&v| v * UNIT).collect();
    let mut engine = SpectralizerFFT::new(16);
    let mut fixed_out: Vec<i64> = vec![0; 16];
    engine.real_fft(&fixed_input, &mut fixed_out);

    for i in 0..16 {
        let got = fixed_out[i] as f64 / UNIT as f64;
        let want = float_buffer[i].re;
        let tol = 0.05 + want.abs() * 5e-4;
        assert!((got - want).abs() < tol, "bin {}: {} vs {}", i, got, want);
    }
}

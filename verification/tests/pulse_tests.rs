//! Tests for the capture configuration model, the PCM conversion, and
//! the whole block pipeline from raw samples to spectrum.

use spectralizer::engine::{FastFourierTransform, SpectralizerFFT};
use spectralizer::pulse::{pcm_to_amplitudes, PulseAudio, SAMPLE_FORMAT_S16LE};
use spectralizer::window::hamming_window;

/// The capture configuration asks for mono signed 16-bit samples at the
/// chosen rate.
#[test]
fn capture_config_values() {
    let pa = PulseAudio::new(16384);
    assert_eq!(pa.format, SAMPLE_FORMAT_S16LE);
    assert_eq!(pa.format, 3);
    assert_eq!(pa.rate, 16384);
    assert_eq!(pa.channels, 1);
}

/// One block of 16-bit samples occupies two bytes per sample.
#[test]
fn block_byte_count() {
    let pa = PulseAudio::new(44100);
    assert_eq!(pa.bytes_per_block(512), 1024);
    assert_eq!(pa.bytes_per_block(0), 0);
}

/// Any nonzero return code is an error.
#[test]
fn error_code_classification() {
    assert!(!PulseAudio::is_error(0));
    assert!(PulseAudio::is_error(1));
    assert!(PulseAudio::is_error(-17));
}

/// PCM samples convert value for value, over the whole 16-bit range.
#[test]
fn pcm_conversion_is_value_for_value() {
    let pcm: Vec<i16> = vec![-32768, -1, 0, 1, 32767];
    let amps = pcm_to_amplitudes(&pcm);
    assert_eq!(amps, vec![-32768i64, -1, 0, 1, 32767]);
}

/// The full frame pipeline: raw PCM, window in place, transform; the
/// first bin is exactly the sum of the windowed samples.
#[test]
fn frame_pipeline_dc_bin() {
    let pcm: Vec<i16> = (0..64).map(|i| ((i * 193) % 1024 - 512) as i16).collect();
    let mut amps = pcm_to_amplitudes(&pcm);
    hamming_window(&mut amps);
    let windowed_sum: i64 = amps.iter().sum();
    let mut engine = SpectralizerFFT::new(64);
    let mut spectrum: Vec<i64> = vec![0; 64];
    engine.real_fft(&amps, &mut spectrum);
    assert_eq!(spectrum[0], windowed_sum);
}

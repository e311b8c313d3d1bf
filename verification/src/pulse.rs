//! The audio-capture side of the pipeline, modelled as plain values.
//!
//! The capture device itself is an external collaborator: opening a
//! stream, blocking reads and error strings live outside this crate.
//! What the crate owns are the decisions: which sample format to
//! request, how many bytes one block of 16-bit samples occupies, what
//! counts as a failed call, and how raw PCM samples become the
//! amplitudes the transform takes.

use vstd::prelude::*;

use crate::complex::iseq;
use crate::fft::{reals_bounded, INPUT_MAX};

verus! {

/// Sample-format code for signed 16-bit little-endian PCM, as the
/// capture interface numbers its formats.
pub const SAMPLE_FORMAT_S16LE: i32 = 3;

/// Stream-direction code for recording.
pub const STREAM_DIRECTION_RECORD: i32 = 2;

/// The capture configuration: one mono stream of signed 16-bit samples
/// at a chosen rate. A thin shell around the external capture library
/// opens a stream from exactly these values.
pub struct PulseAudio {
    /// Sample-format code; always `SAMPLE_FORMAT_S16LE`.
    pub format: i32,
    /// Samples per second.
    pub rate: u32,
    /// Channel count; always mono.
    pub channels: u8,
}

impl PulseAudio {
    /// The configuration for a mono 16-bit capture stream at
    /// `sample_rate` samples per second.
    pub fn new(sample_rate: u32) -> (r: PulseAudio)
        ensures
            r.format == SAMPLE_FORMAT_S16LE,
            r.rate == sample_rate,
            r.channels == 1,
    {
        PulseAudio { format: SAMPLE_FORMAT_S16LE, rate: sample_rate, channels: 1 }
    }

    /// How many bytes one block of `samples` 16-bit samples occupies in
    /// a raw read.
    pub fn bytes_per_block(&self, samples: usize) -> (r: usize)
        requires
            samples <= usize::MAX / 2,
        ensures
            r == 2 * samples,
    {
        2 * samples
    }

    /// Whether a capture call's return code reports a failure: any
    /// nonzero code does.
    pub fn is_error(code: i32) -> (r: bool)
        ensures
            r == (code != 0),
    {
        code != 0
    }
}

/// Raw 16-bit PCM samples as transform amplitudes, value for value.
/// Every 16-bit sample fits the transform's input range, so the result
/// can go straight into windowing and `real_fft`.
pub fn pcm_to_amplitudes(pcm: &Vec<i16>) -> (r: Vec<i64>)
    ensures
        r@.len() == pcm@.len(),
        forall|i: int| 0 <= i < pcm@.len() ==> #[trigger] r@[i] == pcm@[i] as i64,
        reals_bounded(iseq(r@), INPUT_MAX as int),
{
    let mut r: Vec<i64> = Vec::new();
    let mut i: usize = 0;
    while i < pcm.len()
        invariant
            i <= pcm@.len(),
            r@.len() == i,
            forall|j: int| 0 <= j < i ==> #[trigger] r@[j] == pcm@[j] as i64,
        decreases pcm@.len() - i,
    {
        r.push(pcm[i] as i64);
        i += 1;
    }
    proof {
        assert forall|j: int| 0 <= j < iseq(r@).len() implies -INPUT_MAX as int <= #[trigger] iseq(
            r@,
        )[j] <= INPUT_MAX as int by {
            assert(r@[j] == pcm@[j] as i64);
        }
    }
    r
}

} // verus!

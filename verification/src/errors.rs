//! Error values for the checked entry points.
//!
//! The transform's contracts treat a bad call — mismatched buffer
//! lengths, a block size that is not a power of two, an amplitude the
//! fixed-point arithmetic cannot carry — as a precondition violation.
//! The checked entry points test those conditions at run time and fail
//! fast with one of these values instead of returning a truncated or
//! partially written buffer.

use vstd::prelude::*;

verus! {

/// Why a checked call was refused.
#[derive(Clone, Copy, Debug, PartialEq, Eq, Structural)]
pub enum SpectralizerError {
    /// Input and output buffers do not both match the engine's size.
    LengthMismatch,
    /// The requested block size is not a power of two.
    NotPowerOfTwo,
    /// The requested block size is beyond what the fixed-point
    /// arithmetic accepts.
    BlockTooLarge,
    /// An amplitude is too large for the fixed-point arithmetic.
    SampleOutOfRange,
    /// A window needs at least two samples.
    WindowTooShort,
}

} // verus!

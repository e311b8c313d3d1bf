//! Fixed-point audio spectrum analysis.
//!
//! The crate turns a block of time-domain samples into frequency-domain
//! bins: a Hamming window is applied in place, the block is promoted to
//! complex values, and a radix-2 decimation-in-time FFT produces the
//! spectrum. All arithmetic is integer fixed point with a scale of
//! `2^20`, so every step has an exact mathematical description that the
//! contracts state and the proofs establish.

pub mod arith;
pub mod complex;
pub mod trig;
pub mod fft;
pub mod engine;
pub mod errors;
pub mod window;
pub mod pulse;

//! Streaming DSP blocks with verified block-level bookkeeping.
//!
//! The centrepiece is an overlap-add FFT filter: a finite-impulse-response
//! filter applied to an unbounded stream of complex samples by
//! frequency-domain multiplication. Samples are carried as IEEE 754
//! single-precision bit patterns; the transform and the per-sample complex
//! arithmetic are supplied by `rustfft` behind a small trusted layer, and
//! everything around them — block sizing, accumulation, overlap-add
//! stitching, tail bookkeeping — is verified.
use vstd::prelude::*;

pub mod complex;
pub mod fft_filter;
pub mod transform;
pub mod xor_const;

verus! {

/// Errors raised by the blocks in this crate.
#[derive(Clone, Copy, Debug, PartialEq, Eq, Structural)]
pub enum Error {
    /// A filter was constructed from an empty tap sequence.
    InvalidFilterSpec,
}

} // verus!

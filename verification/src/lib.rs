//! Verified core of a voice-conversion pipeline: short-time spectral
//! analysis and synthesis, loudness-envelope extraction, sample-rate
//! conversion, and the latent-representation transforms (content blending
//! and pitch shifting) that surround an opaque neural inference engine.
//!
//! All signal values are exact fixed-point integers; the contracts state
//! every result as a closed formula over the inputs.

pub mod convert;
pub mod envelope;
pub mod fft;
pub mod frames;
pub mod latent;
pub mod num;
pub mod plan;
pub mod resample;
pub mod tensor;
pub mod wave;

use vstd::prelude::*;

verus! {

/// Fixed-point one for analysis-window samples.
pub const WINDOW_ONE: i64 = 0x400_0000;

/// Fixed-point one for the cosine and sine tables.
pub const TRIG_ONE: i64 = 0x1000_0000;

/// Fractional resolution that spectrogram cells carry on top of the raw
/// sample scale (one waveform sample unit equals `CELL_ONE` cell units).
pub const CELL_ONE: i64 = 0x1000;

/// Divisor that takes a raw window-times-table accumulation down to
/// spectrogram cell units: `WINDOW_ONE * TRIG_ONE / CELL_ONE`.
pub const CELL_DIV: i128 = 0x400_0000_0000;

/// Largest magnitude a spectrogram cell may hold.
pub const CELL_LIMIT: i64 = 0x200_0000_0000;

/// Largest magnitude a latent tensor value may hold.
pub const VALUE_LIMIT: i64 = 0x2000_0000_0000;

/// Largest magnitude one synthesis frame can contribute to one output
/// sample of the inverse spectral transform.
pub const SEG_LIMIT: i64 = 0x200_0000_0000_0000;

/// Largest magnitude a synthesized output sample may hold.
pub const SIGNAL_LIMIT: i64 = 0x4000_0000_0000_0000;

/// Fixed-point one for the blend factor: a blend factor of `ALPHA_ONE`
/// keeps the original content untouched, `0` takes the matched content.
pub const ALPHA_ONE: u32 = 0x1_0000;

/// Fixed-point one of the log-pitch (semitone) scale that voiced pitch
/// frames and the pitch-shift amount are expressed in.
pub const PITCH_ONE: i64 = 0x1_0000;

/// Fixed-point one of the log-magnitude scale the decoder reports in.
pub const LOG_ONE: i64 = 0x1_0000;

/// Ceiling on decoder log-magnitudes: values at or above six are saturated
/// to exactly six before exponentiation, guarding against degenerate model
/// output.
pub const LOG_CEILING: i64 = 0x6_0000;

/// Failures of the pipeline, in the order they are detected: dimension
/// disagreement between co-dependent tensors, a failure reported by the
/// external inference engine, and numerically invalid input.
#[derive(Clone, Copy, Debug, PartialEq, Eq, Structural)]
pub enum ConvertError {
    /// Array dimensions disagree between co-dependent tensors.
    ShapeMismatch,
    /// The external inference engine failed to produce a result.
    InferenceError,
    /// Numerically invalid input, such as a zero sample rate.
    DomainError,
}

} // verus!

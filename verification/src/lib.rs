//! Offline preparation of PCM audio for a frame-based voice transport.
//!
//! A buffer of channel-interleaved samples goes through silence trimming,
//! gain, a feedback-delay reverb and linear-interpolation resampling, and
//! comes out as little-endian 16-bit stereo bytes at 48 kHz, padded to
//! whole transport frames.
//!
//! All arithmetic is on integers. Factors such as an amplitude or a mix
//! level are exact fractions. A value is rounded, toward zero, only where
//! a sample is written out; the one exception is the reverb, whose delay
//! line holds values in units of 2^-32 of a sample and rounds at that
//! resolution.

pub mod align;
pub mod arith;
pub mod audio;
pub mod buffer;
pub mod convert;
pub mod decode;
pub mod gain;
pub mod mixer;
pub mod pipeline;
pub mod ratio;
pub mod resample;
pub mod reverb;
pub mod trim;

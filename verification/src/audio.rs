//! The shape of a recording, the fixed output format, and the ways in
//! which an input is refused.

use vstd::prelude::*;

verus! {

/// Sample rate of the output, in frames per second.
pub const TARGET_RATE: u32 = 48000;

/// Size of one transport frame in bytes: 20 ms of 48 kHz stereo 16-bit
/// audio.
pub const FRAME_BYTES: usize = 3840;

/// Bytes of silence appended before alignment: half a second of output,
/// that is 24000 stereo frames of four bytes.
pub const TAIL_SILENCE_BYTES: usize = 96000;

/// Length of the fade-out at the end of a trimmed recording, in
/// milliseconds.
pub const FADE_MS: u32 = 20;

/// Milliseconds in a second.
pub const MS_PER_SECOND: u32 = 1000;

/// How the samples of a recording are stored.
#[derive(Clone, Copy, Debug, PartialEq, Eq, Structural)]
pub enum SampleFormat {
    /// Signed 16-bit integers.
    Int16,
    /// 32-bit floating point.
    Float32,
}

/// The shape of a recording, as read from its container.
#[derive(Clone, Copy, Debug, PartialEq, Eq, Structural)]
pub struct AudioSpec {
    /// Number of interleaved channels.
    pub channel_count: u16,
    /// Frames per second.
    pub sample_rate: u32,
    /// Storage of the samples in the container.
    pub sample_format: SampleFormat,
}

impl AudioSpec {
    /// A recording has at least one channel and a positive sample rate.
    pub open spec fn wf(&self) -> bool {
        self.channel_count >= 1 && self.sample_rate > 0
    }

    /// Tells whether the recording has a channel and a positive rate.
    pub fn is_valid(&self) -> (b: bool)
        ensures
            b == self.wf(),
    {
        self.channel_count >= 1 && self.sample_rate > 0
    }
}

/// Why an input was refused.
#[derive(Clone, Copy, Debug, PartialEq, Eq, Structural)]
pub enum AudioError {
    /// The container could not be decoded.
    Decode,
    /// The samples are not stored as integers.
    UnsupportedFormat,
    /// The channel count is zero, or above two where only mono and stereo
    /// can be handled.
    UnsupportedChannels,
    /// The sample rate is zero.
    InvalidRate,
    /// The buffer does not hold a whole number of frames.
    RaggedBuffer,
    /// Two recordings that are to be mixed differ in channel count or in
    /// sample rate.
    MismatchedSpecs,
}

} // verus!

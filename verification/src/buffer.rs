//! The sample buffer that enters the pipeline: channel-interleaved
//! samples with the shape of their recording.

use vstd::prelude::*;
use crate::audio::{AudioError, AudioSpec};

verus! {

/// Channel-interleaved samples of one decoded recording: sample `i`
/// belongs to channel `i mod channel_count`. The pipeline takes the
/// buffer over; what the stages hand on between them are values over a
/// common scale, which the pipeline holds itself.
pub struct SampleBuffer {
    samples: Vec<i32>,
    spec: AudioSpec,
}

/// Why samples of the given count and shape make no buffer, if they do
/// not: a buffer has a channel, a positive rate and whole frames.
pub open spec fn buffer_refusal(len: int, spec: AudioSpec) -> Option<AudioError> {
    if spec.channel_count == 0 {
        Some(AudioError::UnsupportedChannels)
    } else if spec.sample_rate == 0 {
        Some(AudioError::InvalidRate)
    } else if len % (spec.channel_count as int) != 0 {
        Some(AudioError::RaggedBuffer)
    } else {
        None
    }
}

impl SampleBuffer {
    /// The samples.
    pub closed spec fn view(&self) -> Seq<i32> {
        self.samples@
    }

    /// The shape of the recording.
    pub closed spec fn shape(&self) -> AudioSpec {
        self.spec
    }

    /// The shape is that of a recording and the samples fill whole
    /// frames.
    pub open spec fn wf(&self) -> bool {
        self.shape().wf() && self@.len() % (self.shape().channel_count as nat) == 0
    }

    /// Makes a buffer of decoded samples, or says why they make none.
    pub fn new(samples: Vec<i32>, spec: AudioSpec) -> (r: Result<SampleBuffer, AudioError>)
        ensures
            match buffer_refusal(samples@.len() as int, spec) {
                Some(e) => r == Err::<SampleBuffer, AudioError>(e),
                None => r matches Ok(b) && b.wf() && b@ == samples@ && b.shape() == spec,
            },
    {
        if spec.channel_count == 0 {
            Err(AudioError::UnsupportedChannels)
        } else if spec.sample_rate == 0 {
            Err(AudioError::InvalidRate)
        } else if samples.len() % (spec.channel_count as usize) != 0 {
            Err(AudioError::RaggedBuffer)
        } else {
            Ok(SampleBuffer { samples, spec })
        }
    }

    /// Reads the samples.
    pub fn samples(&self) -> (s: &[i32])
        ensures
            s@ == self@,
    {
        self.samples.as_slice()
    }

    /// Reads the shape of the recording.
    pub fn spec(&self) -> (s: AudioSpec)
        ensures
            s == self.shape(),
    {
        self.spec
    }

    /// Counts the frames.
    pub fn frames(&self) -> (n: usize)
        requires
            self.wf(),
        ensures
            n == self@.len() / (self.shape().channel_count as nat),
    {
        self.samples.len() / (self.spec.channel_count as usize)
    }
}

} // verus!

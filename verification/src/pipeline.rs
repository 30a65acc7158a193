//! The Pipeline Orchestrator: trim, gain, reverb, resample and align, in
//! that order, on a decoded recording.
//!
//! Between the stages a sample is a numerator over a scale that the
//! whole buffer shares, so that fade and gain are exact. Without reverb
//! an output sample is rounded once, where it is quantised. The reverb
//! works in fine units, 2^-32 of a sample: its input is rounded to that
//! resolution, and so is what it feeds back and what it hands on.

use vstd::prelude::*;
use crate::align::{aligned, align_frames, lemma_aligned_is_framed};
use crate::arith::{sat64, saturate64, trunc_div, lemma_product_bound, FINE_ONE};
use crate::audio::{AudioError, AudioSpec, FRAME_BYTES};
use crate::buffer::SampleBuffer;
use crate::ratio::Ratio;
use crate::resample::{
    resampled,
    resampled_scaled,
    resample_scaled,
    resample_to_pcm,
    within_limit,
    NUM_LIMIT,
    SCALE_LIMIT,
};
use crate::reverb::{delay_frames, reverbed, reverb_stage};
use crate::trim::{
    fade_len,
    fade_length,
    fade_scale,
    fade_start,
    fade_weight,
    trimmed,
    trim_span,
};

verus! {

/// What the caller chooses for one run of the pipeline.
#[derive(Clone, Copy, Debug)]
pub struct Settings {
    /// Amplitude of the Gain Stage.
    pub amplitude: Ratio,
    /// Samples whose magnitude does not exceed that of this level count
    /// as silent.
    pub silence_threshold: i32,
    /// Whether the Reverb Stage runs.
    pub reverb_enabled: bool,
    /// Delay of the reverb in milliseconds.
    pub reverb_delay_ms: u32,
    /// Decay of the reverb's feedback.
    pub reverb_decay: Ratio,
    /// Share of the wet signal in the reverb's output.
    pub reverb_mix: Ratio,
}

impl Settings {
    /// The three fractions are well formed.
    pub open spec fn wf(&self) -> bool {
        self.amplitude.wf() && self.reverb_decay.wf() && self.reverb_mix.wf()
    }

    /// Settings that change nothing: unit gain, a threshold of zero and
    /// no reverb.
    pub fn neutral() -> (s: Settings)
        ensures
            s.wf(),
            s.amplitude.numer() == 1,
            s.amplitude.denom() == 1,
            s.silence_threshold == 0,
            !s.reverb_enabled,
            s.reverb_delay_ms == 0,
            s.reverb_decay.numer() == 0,
            s.reverb_mix.numer() == 0,
    {
        Settings {
            amplitude: Ratio::one(),
            silence_threshold: 0,
            reverb_enabled: false,
            reverb_delay_ms: 0,
            reverb_decay: Ratio::zero(),
            reverb_mix: Ratio::zero(),
        }
    }
}

/// Longest fade that the stages take, in interleaved samples: more than
/// any sample rate gives for two channels.
pub const FADE_LIMIT: u64 = 0x1000_0000;

/// Why a recording of `len` samples with the given shape is refused, if
/// it is: only mono and stereo can be resampled, the rate must be
/// positive, and the buffer must hold whole frames.
pub open spec fn refusal(len: int, spec: AudioSpec) -> Option<AudioError> {
    if spec.channel_count == 0 || spec.channel_count > 2 {
        Some(AudioError::UnsupportedChannels)
    } else if spec.sample_rate == 0 {
        Some(AudioError::InvalidRate)
    } else if len % (spec.channel_count as int) != 0 {
        Some(AudioError::RaggedBuffer)
    } else {
        None
    }
}

/// The numerator of a trimmed sample after fade and gain: the sample
/// times its fade weight times the numerator of the amplitude.
pub open spec fn weighted_num(x: int, pos: int, len: int, fade: int, amplitude: Ratio) -> int {
    x * fade_weight(pos, len, fade) * amplitude.numer()
}

/// The scale that goes with those numerators: the fade scale times the
/// denominator of the amplitude.
pub open spec fn weighted_scale(fade: int, amplitude: Ratio) -> int {
    fade_scale(fade) * amplitude.denom()
}

/// A trimmed buffer after fade and gain, as numerators over
/// `weighted_scale`: sample `j` is exactly
/// `t[j] * (fade weight / fade scale) * amplitude`.
pub open spec fn weighted(t: Seq<i32>, fade: int, amplitude: Ratio) -> Seq<i128> {
    Seq::new(
        t.len(),
        |j: int| weighted_num(t[j] as int, j, t.len() as int, fade, amplitude) as i128,
    )
}

/// The value `n / scale` in fine units, rounded toward zero at that
/// resolution and limited to the range of a fine value.
pub open spec fn fine_value(n: int, scale: int) -> int {
    sat64(trunc_div(n * FINE_ONE, scale))
}

/// A buffer of numerators over one scale, in fine units.
pub open spec fn fine_values(n: Seq<i128>, scale: int) -> Seq<i64> {
    Seq::new(n.len(), |j: int| fine_value(n[j] as int, scale) as i64)
}

/// Fine values as numerators over the scale `FINE_ONE`.
pub open spec fn fine_wide(f: Seq<i64>) -> Seq<i128> {
    Seq::new(f.len(), |j: int| f[j] as i128)
}

/// The samples after trimming, fade and gain, as numerators over
/// `weighted_scale`.
pub open spec fn staged(s: Seq<i32>, spec: AudioSpec, settings: Settings) -> Seq<i128> {
    weighted(
        trimmed(s, spec.channel_count as int, settings.silence_threshold as int),
        fade_len(spec.sample_rate as int, spec.channel_count as int),
        settings.amplitude,
    )
}

/// The scale of the staged numerators.
pub open spec fn staged_scale(spec: AudioSpec, settings: Settings) -> int {
    weighted_scale(
        fade_len(spec.sample_rate as int, spec.channel_count as int),
        settings.amplitude,
    )
}

/// The formatted stream of an accepted recording. Without reverb each
/// output sample is the exact value of fade, gain and interpolation,
/// rounded once. With reverb the staged values enter the Reverb Stage in
/// fine units, and the interpolation of what leaves it is rounded once.
pub open spec fn formatted(s: Seq<i32>, spec: AudioSpec, settings: Settings) -> Seq<u8> {
    let channels = spec.channel_count as int;
    let rate = spec.sample_rate as int;
    if settings.reverb_enabled {
        resampled_scaled(
            fine_wide(
                reverbed(
                    fine_values(staged(s, spec, settings), staged_scale(spec, settings)),
                    channels,
                    delay_frames(rate, settings.reverb_delay_ms as int),
                    settings.reverb_decay,
                    settings.reverb_mix,
                ),
            ),
            FINE_ONE as int,
            channels,
            rate,
        )
    } else {
        resampled_scaled(staged(s, spec, settings), staged_scale(spec, settings), channels, rate)
    }
}

/// The output of the pipeline for an accepted recording: nothing for an
/// empty one, otherwise the formatted stream, aligned.
pub open spec fn processed(s: Seq<i32>, spec: AudioSpec, settings: Settings) -> Seq<u8> {
    if s.len() == 0 {
        Seq::<u8>::empty()
    } else {
        aligned(formatted(s, spec, settings))
    }
}

/// The formatted and aligned stream of an accepted recording, without
/// trimming, gain or reverb.
pub open spec fn loaded(s: Seq<i32>, spec: AudioSpec) -> Seq<u8> {
    aligned(resampled(s, spec.channel_count as int, spec.sample_rate as int))
}

/// A result with the bytes of its vector in place of the vector.
pub open spec fn bytes_of(r: Result<Vec<u8>, AudioError>) -> Result<Seq<u8>, AudioError> {
    match r {
        Ok(bytes) => Ok(bytes@),
        Err(e) => Err(e),
    }
}

/// What the pipeline returns for a decoded recording: the reason for
/// which it is refused, or its processed bytes.
pub open spec fn pipeline_result(s: Seq<i32>, spec: AudioSpec, settings: Settings) -> Result<
    Seq<u8>,
    AudioError,
> {
    match refusal(s.len() as int, spec) {
        Some(e) => Err(e),
        None => Ok(processed(s, spec, settings)),
    }
}

/// What loading returns for a decoded recording: the reason for which
/// it is refused, or its formatted and aligned bytes.
pub open spec fn load_result(s: Seq<i32>, spec: AudioSpec) -> Result<Seq<u8>, AudioError> {
    match refusal(s.len() as int, spec) {
        Some(e) => Err(e),
        None => Ok(loaded(s, spec)),
    }
}

/// Fade and gain on a trimmed buffer, exactly: each sample becomes a
/// numerator over the common scale `weighted_scale`.
pub fn fade_and_gain(cut: &[i32], fade: u64, amplitude: Ratio) -> (nums: Vec<i128>)
    requires
        amplitude.wf(),
        fade <= FADE_LIMIT,
    ensures
        nums@ == weighted(cut@, fade as int, amplitude),
        within_limit(nums@),
{
    let len: usize = cut.len();
    let whole: u64 = if fade > 0 {
        fade
    } else {
        1
    };
    let start: usize = if (len as u64) > fade {
        (len as u64 - fade) as usize
    } else {
        0
    };
    let num: i128 = amplitude.num() as i128;
    let mut nums: Vec<i128> = Vec::new();
    let mut pos: usize = 0;
    while pos < len
        invariant
            fade <= FADE_LIMIT,
            len == cut@.len(),
            whole == fade_scale(fade as int),
            start == fade_start(len as int, fade as int),
            num == amplitude.numer(),
            -0x8000_0000 <= num <= 0x7fff_ffff,
            pos <= len,
            nums@.len() == pos,
            forall|j: int|
                0 <= j < pos ==> nums@[j] == #[trigger] weighted(cut@, fade as int, amplitude)[j],
            forall|j: int| 0 <= j < pos ==> -NUM_LIMIT <= #[trigger] nums@[j] <= NUM_LIMIT,
        decreases len - pos,
    {
        let weight: u64 = if fade > 0 && pos >= start {
            (len - pos) as u64
        } else {
            whole
        };
        assert(weight == fade_weight(pos as int, len as int, fade as int));
        let x: i128 = cut[pos] as i128;
        proof {
            lemma_product_bound(x as int, weight as int, 0x8000_0000, 0x1000_0000);
            lemma_product_bound(
                x as int * weight as int,
                num as int,
                0x8000_0000 * 0x1000_0000int,
                0x8000_0000,
            );
        }
        nums.push(x * (weight as i128) * num);
        pos += 1;
    }
    assert(nums@ =~= weighted(cut@, fade as int, amplitude));
    nums
}

/// Brings numerators over one scale to fine units.
pub fn to_fine_values(nums: &[i128], scale: u128) -> (out: Vec<i64>)
    requires
        1 <= scale <= SCALE_LIMIT,
        within_limit(nums@),
    ensures
        out@ == fine_values(nums@, scale as int),
{
    let mut out: Vec<i64> = Vec::new();
    let mut i: usize = 0;
    while i < nums.len()
        invariant
            1 <= scale <= SCALE_LIMIT,
            within_limit(nums@),
            i <= nums@.len(),
            out@.len() == i,
            forall|j: int| 0 <= j < i ==> out@[j] == fine_values(nums@, scale as int)[j],
        decreases nums@.len() - i,
    {
        let n: i128 = nums[i];
        proof {
            lemma_product_bound(n as int, FINE_ONE as int, NUM_LIMIT as int, FINE_ONE as int);
        }
        out.push(saturate64((n * (FINE_ONE as i128)) / (scale as i128)));
        i += 1;
    }
    assert(out@ =~= fine_values(nums@, scale as int));
    out
}

/// Takes fine values as numerators over the scale `FINE_ONE`.
pub fn widen_fine(fine: &[i64]) -> (out: Vec<i128>)
    ensures
        out@ == fine_wide(fine@),
        within_limit(out@),
{
    let mut out: Vec<i128> = Vec::new();
    let mut i: usize = 0;
    while i < fine.len()
        invariant
            i <= fine@.len(),
            out@.len() == i,
            forall|j: int| 0 <= j < i ==> out@[j] == fine@[j] as i128,
        decreases fine@.len() - i,
    {
        out.push(fine[i] as i128);
        i += 1;
    }
    assert(out@ =~= fine_wide(fine@));
    out
}

/// Runs the stages on a buffer, in their fixed order: trim, gain,
/// reverb where enabled, resample and format, align. An empty buffer
/// gives an empty output, with no silence or padding added.
pub fn process_buffer(buffer: SampleBuffer, settings: Settings) -> (r: Result<Vec<u8>, AudioError>)
    requires
        buffer.wf(),
        settings.wf(),
    ensures
        bytes_of(r) == pipeline_result(buffer@, buffer.shape(), settings),
        r matches Ok(bytes) ==> bytes@.len() % (FRAME_BYTES as nat) == 0,
{
    let spec: AudioSpec = buffer.spec();
    let channels: u16 = spec.channel_count;
    let rate: u32 = spec.sample_rate;
    if channels > 2 {
        return Err(AudioError::UnsupportedChannels);
    }
    if buffer.samples().len() == 0 {
        return Ok(Vec::new());
    }
    let cut: Vec<i32> = trim_span(buffer.samples(), channels, settings.silence_threshold);
    let fade: u64 = fade_length(rate, channels);
    assert(fade <= FADE_LIMIT) by (nonlinear_arith)
        requires
            fade == ((rate * 20) / 1000) * channels,
            rate <= 0xffff_ffff,
            channels <= 2,
            FADE_LIMIT == 0x1000_0000,
    ;
    let nums: Vec<i128> = fade_and_gain(cut.as_slice(), fade, settings.amplitude);
    let whole: u128 = if fade > 0 {
        fade as u128
    } else {
        1
    };
    let den: u128 = settings.amplitude.den() as u128;
    proof {
        lemma_product_bound(whole as int, den as int, 0x1000_0000, 0xffff_ffff);
        assert(whole * den >= 1) by (nonlinear_arith)
            requires
                whole >= 1,
                den >= 1,
        ;
    }
    let scale: u128 = whole * den;
    let formatted: Result<Vec<u8>, AudioError> = if settings.reverb_enabled {
        let fine: Vec<i64> = to_fine_values(nums.as_slice(), scale);
        let wet: Vec<i64> = reverb_stage(
            fine.as_slice(),
            channels,
            rate,
            settings.reverb_delay_ms,
            settings.reverb_decay,
            settings.reverb_mix,
        );
        let wide: Vec<i128> = widen_fine(wet.as_slice());
        resample_scaled(wide.as_slice(), FINE_ONE as u128, channels, rate)
    } else {
        resample_scaled(nums.as_slice(), scale, channels, rate)
    };
    match formatted {
        Err(e) => Err(e),
        Ok(stream) => {
            let mut bytes: Vec<u8> = stream;
            align_frames(&mut bytes);
            Ok(bytes)
        },
    }
}

/// Runs the whole pipeline on a decoded recording and returns the PCM
/// bytes: 48 kHz, stereo, 16-bit little-endian, a whole number of
/// transport frames.
pub fn process_samples(samples: Vec<i32>, spec: AudioSpec, settings: Settings) -> (r: Result<
    Vec<u8>,
    AudioError,
>)
    requires
        settings.wf(),
    ensures
        bytes_of(r) == pipeline_result(samples@, spec, settings),
        r matches Ok(bytes) ==> bytes@.len() % (FRAME_BYTES as nat) == 0,
{
    match SampleBuffer::new(samples, spec) {
        Err(e) => if spec.channel_count > 2 {
            Err(AudioError::UnsupportedChannels)
        } else {
            Err(e)
        },
        Ok(buffer) => process_buffer(buffer, settings),
    }
}

/// Formats and aligns a decoded recording as it is: no trimming, gain or
/// reverb. Even an empty recording gets its trailing silence.
pub fn load_pcm_data(samples: Vec<i32>, spec: AudioSpec) -> (r: Result<Vec<u8>, AudioError>)
    ensures
        bytes_of(r) == load_result(samples@, spec),
        r matches Ok(bytes) ==> bytes@.len() % (FRAME_BYTES as nat) == 0,
{
    if spec.channel_count > 2 {
        return Err(AudioError::UnsupportedChannels);
    }
    match SampleBuffer::new(samples, spec) {
        Err(e) => Err(e),
        Ok(buffer) => match resample_to_pcm(
            buffer.samples(),
            spec.channel_count,
            spec.sample_rate,
        ) {
            Err(e) => Err(e),
            Ok(formatted) => {
                let mut bytes: Vec<u8> = formatted;
                align_frames(&mut bytes);
                Ok(bytes)
            },
        },
    }
}

/// The output of the pipeline is always a whole number of transport
/// frames.
pub proof fn lemma_output_is_framed(s: Seq<i32>, spec: AudioSpec, settings: Settings)
    ensures
        processed(s, spec, settings).len() % (FRAME_BYTES as nat) == 0,
        loaded(s, spec).len() % (FRAME_BYTES as nat) == 0,
{
    lemma_aligned_is_framed(formatted(s, spec, settings));
    lemma_aligned_is_framed(resampled(s, spec.channel_count as int, spec.sample_rate as int));
}

/// Before the fade sets in, the Gain Stage is exact and linear: the
/// staged value of a sample `x` is `x` times the amplitude, with nothing
/// rounded.
pub proof fn lemma_gain_is_linear(x: int, pos: int, len: int, fade: int, amplitude: Ratio)
    requires
        amplitude.wf(),
        !(fade > 0 && pos >= fade_start(len, fade)),
    ensures
        weighted_num(x, pos, len, fade, amplitude) * amplitude.denom() == x * amplitude.numer()
            * weighted_scale(fade, amplitude),
{
    let w = fade_scale(fade);
    let n = amplitude.numer();
    let d = amplitude.denom();
    assert(x * w * n * d == x * n * (w * d)) by (nonlinear_arith);
}

/// With an amplitude of one, which is what 0 dB stands for, the staged
/// value of a sample before the fade is the sample itself.
pub proof fn lemma_unit_gain_keeps_value(x: int, pos: int, len: int, fade: int, amplitude: Ratio)
    requires
        amplitude.wf(),
        amplitude.numer() == amplitude.denom(),
        !(fade > 0 && pos >= fade_start(len, fade)),
    ensures
        weighted_num(x, pos, len, fade, amplitude) == x * weighted_scale(fade, amplitude),
{
    let w = fade_scale(fade);
    let n = amplitude.numer();
    assert(x * w * n == x * (w * n)) by (nonlinear_arith);
}

} // verus!

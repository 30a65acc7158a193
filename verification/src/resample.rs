//! The Resampler/Formatter: linear interpolation to 48 kHz, mono
//! duplicated to stereo, quantised to little-endian 16-bit samples.

use vstd::prelude::*;
use crate::audio::{AudioError, TARGET_RATE};
use crate::arith::{clamp16, trunc_div, saturate16, lemma_trunc_div_cancel, lemma_product_bound};

verus! {

/// Number of output frames that the source length asks for: the source
/// frame count divided by the rate ratio, rounded up.
pub open spec fn dst_frames(src_frames: int, rate: int) -> int {
    (src_frames * TARGET_RATE + rate - 1) / rate
}

/// Source position of output frame `i`, in units of 1/48000 of a source
/// frame.
pub open spec fn src_pos(i: int, rate: int) -> int {
    i * rate
}

/// The source frame at or before the position of output frame `i`.
pub open spec fn src_index(i: int, rate: int) -> int {
    src_pos(i, rate) / (TARGET_RATE as int)
}

/// How far output frame `i` lies past its source frame, in units of
/// 1/48000 of a source frame.
pub open spec fn src_phase(i: int, rate: int) -> int {
    src_pos(i, rate) % (TARGET_RATE as int)
}

/// Number of output frames produced. Output stops at the first frame
/// whose source frame has no successor, so the last source frame is
/// never reached.
pub open spec fn out_frames(src_frames: int, rate: int) -> int {
    if src_frames <= 0 {
        0
    } else {
        ((src_frames - 1) * TARGET_RATE + rate - 1) / rate
    }
}

/// Largest magnitude of a numerator that the resampler takes: 2^94.
pub const NUM_LIMIT: i128 = 0x4000_0000_0000_0000_0000_0000;

/// Largest scale that the resampler takes: 2^64.
pub const SCALE_LIMIT: u128 = 0x1_0000_0000_0000_0000;

/// The value at `phase / 48000` of the way from `p0 / scale` to
/// `p1 / scale`, rounded toward zero once, to a whole sample.
pub open spec fn lerp_scaled(p0: int, p1: int, phase: int, scale: int) -> int {
    trunc_div(p0 * TARGET_RATE + (p1 - p0) * phase, scale * TARGET_RATE)
}

/// The value at `phase / 48000` of the way from `p0` to `p1`, rounded
/// toward zero.
pub open spec fn lerp(p0: int, p1: int, phase: int) -> int {
    lerp_scaled(p0, p1, phase, 1)
}

/// Whole samples as numerators over a scale of one.
pub open spec fn wide_of(s: Seq<i32>) -> Seq<i128> {
    Seq::new(s.len(), |i: int| s[i] as i128)
}

/// Every numerator is within the limit that the resampler takes.
pub open spec fn within_limit(n: Seq<i128>) -> bool {
    forall|i: int| 0 <= i < n.len() ==> -NUM_LIMIT <= #[trigger] n[i] <= NUM_LIMIT
}

/// The source channel that feeds output side `side` (0 left, 1 right):
/// a mono source feeds both sides.
pub open spec fn source_channel(channels: int, side: int) -> int {
    if channels == 1 {
        0
    } else {
        side
    }
}

/// The quantised sample of output frame `i` on side `side`, for source
/// values given as numerators over one scale: the interpolated value is
/// rounded once, to a whole sample, and limited to the 16-bit range.
pub open spec fn out_sample_scaled(
    n: Seq<i128>,
    scale: int,
    channels: int,
    rate: int,
    i: int,
    side: int,
) -> int {
    let f = src_index(i, rate);
    let c = source_channel(channels, side);
    clamp16(
        lerp_scaled(
            n[f * channels + c] as int,
            n[(f + 1) * channels + c] as int,
            src_phase(i, rate),
            scale,
        ),
    )
}

/// The quantised sample of output frame `i` on side `side`, for a source
/// in whole samples.
pub open spec fn out_sample(s: Seq<i32>, channels: int, rate: int, i: int, side: int) -> int {
    out_sample_scaled(wide_of(s), 1, channels, rate, i, side)
}

/// Byte `k` (0 low, 1 high) of the little-endian two's complement form
/// of a 16-bit sample.
pub open spec fn le_byte(v: int, k: int) -> u8 {
    let u = if v < 0 {
        v + 65536
    } else {
        v
    };
    if k == 0 {
        (u % 256) as u8
    } else {
        (u / 256) as u8
    }
}

/// Byte `j` of the formatted stream: four bytes per output frame, the
/// left sample first, each sample low byte first.
pub open spec fn out_byte_scaled(
    n: Seq<i128>,
    scale: int,
    channels: int,
    rate: int,
    j: int,
) -> u8 {
    le_byte(out_sample_scaled(n, scale, channels, rate, j / 4, (j % 4) / 2), j % 2)
}

/// The formatted stream of source values given as numerators over one
/// scale.
pub open spec fn resampled_scaled(n: Seq<i128>, scale: int, channels: int, rate: int) -> Seq<u8> {
    Seq::new(
        (4 * out_frames(n.len() as int / channels, rate)) as nat,
        |j: int| out_byte_scaled(n, scale, channels, rate, j),
    )
}

/// The formatted stream of a source buffer in whole samples.
pub open spec fn resampled(s: Seq<i32>, channels: int, rate: int) -> Seq<u8> {
    resampled_scaled(wide_of(s), 1, channels, rate)
}

/// The frames produced are exactly those that the source length asks for
/// and whose source frame has a successor.
pub proof fn lemma_out_frames_stop(src_frames: int, rate: int, i: int)
    requires
        src_frames >= 0,
        rate >= 1,
        i >= 0,
    ensures
        i < out_frames(src_frames, rate) <==> (i < dst_frames(src_frames, rate) && src_index(
            i,
            rate,
        ) + 1 < src_frames),
        0 <= out_frames(src_frames, rate) <= dst_frames(src_frames, rate),
{
    let n = src_frames;
    if n <= 0 {
        assert(dst_frames(n, rate) >= 0) by (nonlinear_arith)
            requires
                n == 0,
                rate >= 1,
                dst_frames(n, rate) == (n * 48000 + rate - 1) / rate,
        ;
        assert(src_index(i, rate) >= 0) by (nonlinear_arith)
            requires
                i >= 0,
                rate >= 1,
                src_index(i, rate) == (i * rate) / 48000,
        ;
    } else {
        let a = (n - 1) * 48000;
        let q = out_frames(n, rate);
        let d = dst_frames(n, rate);
        assert(q * rate <= a + rate - 1 && a + rate - 1 < q * rate + rate && q >= 0)
            by (nonlinear_arith)
            requires
                a >= 0,
                rate >= 1,
                q == (a + rate - 1) / rate,
        ;
        assert(q <= d) by (nonlinear_arith)
            requires
                a >= 0,
                rate >= 1,
                q == (a + rate - 1) / rate,
                d == (a + 48000 + rate - 1) / rate,
        ;
        let p = i * rate;
        assert(p >= 0) by (nonlinear_arith)
            requires
                p == i * rate,
                i >= 0,
                rate >= 1,
        ;
        if i < q {
            assert(p < a) by (nonlinear_arith)
                requires
                    p == i * rate,
                    i + 1 <= q,
                    q * rate <= a + rate - 1,
                    rate >= 1,
            ;
            assert(p / 48000 < n - 1) by (nonlinear_arith)
                requires
                    0 <= p < a,
                    a == (n - 1) * 48000,
            ;
        } else {
            assert(p >= a) by (nonlinear_arith)
                requires
                    p == i * rate,
                    i >= q,
                    a + rate - 1 < q * rate + rate,
                    rate >= 1,
            ;
            assert(p / 48000 >= n - 1) by (nonlinear_arith)
                requires
                    p >= a,
                    a == (n - 1) * 48000,
            ;
        }
    }
}

/// Splits a 16-bit sample into its little-endian bytes.
pub fn sample_le_bytes(v: i16) -> (b: (u8, u8))
    ensures
        b.0 == le_byte(v as int, 0),
        b.1 == le_byte(v as int, 1),
{
    let u: i32 = if v < 0 {
        v as i32 + 65536
    } else {
        v as i32
    };
    ((u % 256) as u8, (u / 256) as u8)
}

/// Interpolates between two source values, given as numerators over
/// `scale`, and quantises the result: rounded toward zero once, limited
/// to the 16-bit range.
pub fn interpolate_scaled(p0: i128, p1: i128, phase: u32, scale: u128) -> (v: i16)
    requires
        phase < TARGET_RATE,
        -NUM_LIMIT <= p0 <= NUM_LIMIT,
        -NUM_LIMIT <= p1 <= NUM_LIMIT,
        1 <= scale <= SCALE_LIMIT,
    ensures
        v == clamp16(lerp_scaled(p0 as int, p1 as int, phase as int, scale as int)),
{
    let step: i128 = p1 - p0;
    proof {
        lemma_product_bound(step as int, phase as int, 2 * NUM_LIMIT, TARGET_RATE as int);
        lemma_product_bound(p0 as int, TARGET_RATE as int, NUM_LIMIT as int, TARGET_RATE as int);
        lemma_product_bound(
            scale as int,
            TARGET_RATE as int,
            SCALE_LIMIT as int,
            TARGET_RATE as int,
        );
        assert(scale * TARGET_RATE >= 1) by (nonlinear_arith)
            requires
                scale >= 1,
                TARGET_RATE == 48000,
        ;
    }
    let wide: i128 = p0 * (TARGET_RATE as i128) + step * (phase as i128);
    saturate16(wide / ((scale as i128) * (TARGET_RATE as i128)))
}

/// Interpolates between two source samples and quantises the result:
/// limited to the 16-bit range, rounded toward zero.
pub fn interpolate(p0: i32, p1: i32, phase: u32) -> (v: i16)
    requires
        phase < TARGET_RATE,
    ensures
        v == clamp16(lerp(p0 as int, p1 as int, phase as int)),
{
    interpolate_scaled(p0 as i128, p1 as i128, phase, 1)
}

/// Widens whole samples to numerators.
pub fn widen_to_nums(samples: &[i32]) -> (out: Vec<i128>)
    ensures
        out@ == wide_of(samples@),
        within_limit(out@),
{
    let mut out: Vec<i128> = Vec::new();
    let mut i: usize = 0;
    while i < samples.len()
        invariant
            i <= samples@.len(),
            out@.len() == i,
            forall|j: int| 0 <= j < i ==> out@[j] == samples@[j] as i128,
        decreases samples@.len() - i,
    {
        out.push(samples[i] as i128);
        i += 1;
    }
    assert(out@ =~= wide_of(samples@));
    out
}

/// Why a recording of the given shape cannot be resampled, if it cannot:
/// the interpolation handles one or two channels and needs a positive
/// source rate.
pub open spec fn resample_refusal(channels: int, sample_rate: int) -> Option<AudioError> {
    if channels != 1 && channels != 2 {
        Some(AudioError::UnsupportedChannels)
    } else if sample_rate <= 0 {
        Some(AudioError::InvalidRate)
    } else {
        None
    }
}

/// Resamples a mono or stereo buffer to 48 kHz stereo and serialises it
/// as little-endian 16-bit samples. The last source frame only serves
/// as the far end of an interpolation: no output frame starts at it.
/// Any other channel count, and a rate of zero, are refused.
pub fn resample_to_pcm(samples: &[i32], channels: u16, sample_rate: u32) -> (r: Result<
    Vec<u8>,
    AudioError,
>)
    ensures
        match resample_refusal(channels as int, sample_rate as int) {
            Some(e) => r == Err::<Vec<u8>, AudioError>(e),
            None => r matches Ok(out) && out@ == resampled(
                samples@,
                channels as int,
                sample_rate as int,
            ),
        },
{
    let nums: Vec<i128> = widen_to_nums(samples);
    resample_scaled(nums.as_slice(), 1, channels, sample_rate)
}

/// Resamples source values given as numerators over one scale, so that
/// nothing is rounded before the output sample is. Any channel count
/// but one and two, and a rate of zero, are refused.
pub fn resample_scaled(samples: &[i128], scale: u128, channels: u16, sample_rate: u32) -> (r:
    Result<Vec<u8>, AudioError>)
    requires
        1 <= scale <= SCALE_LIMIT,
        within_limit(samples@),
    ensures
        match resample_refusal(channels as int, sample_rate as int) {
            Some(e) => r == Err::<Vec<u8>, AudioError>(e),
            None => r matches Ok(out) && out@ == resampled_scaled(
                samples@,
                scale as int,
                channels as int,
                sample_rate as int,
            ),
        },
{
    if channels != 1 && channels != 2 {
        Err(AudioError::UnsupportedChannels)
    } else if sample_rate == 0 {
        Err(AudioError::InvalidRate)
    } else {
        Ok(resample_frames(samples, scale, channels, sample_rate))
    }
}

/// The resampler proper, on a shape that it handles.
fn resample_frames(samples: &[i128], scale: u128, channels: u16, sample_rate: u32) -> (out: Vec<
    u8,
>)
    requires
        channels == 1 || channels == 2,
        sample_rate >= 1,
        1 <= scale <= SCALE_LIMIT,
        within_limit(samples@),
    ensures
        out@ == resampled_scaled(samples@, scale as int, channels as int, sample_rate as int),
{
    let ch: usize = channels as usize;
    let len: usize = samples.len();
    let src_frames: usize = len / ch;
    let rate: u128 = sample_rate as u128;
    let n_out: u128 = if src_frames == 0 {
        0
    } else {
        ((src_frames - 1) as u128 * (TARGET_RATE as u128) + (rate - 1)) / rate
    };
    proof {
        lemma_out_frames_stop(src_frames as int, rate as int, 0);
        assert(src_frames * ch <= len) by (nonlinear_arith)
            requires
                src_frames == len / ch,
                ch >= 1,
        ;
        assert(n_out <= src_frames * 48000) by (nonlinear_arith)
            requires
                n_out == out_frames(src_frames as int, rate as int),
                out_frames(src_frames as int, rate as int) <= dst_frames(
                    src_frames as int,
                    rate as int,
                ),
                dst_frames(src_frames as int, rate as int) == (src_frames * 48000 + rate - 1)
                    / (rate as int),
                rate >= 1,
        ;
    }
    let mut out: Vec<u8> = Vec::new();
    let mut i: u128 = 0;
    while i < n_out
        invariant
            channels == 1 || channels == 2,
            ch == channels,
            len == samples@.len(),
            src_frames == len / ch,
            src_frames * ch <= len,
            rate == sample_rate,
            rate >= 1,
            1 <= scale <= SCALE_LIMIT,
            within_limit(samples@),
            n_out == out_frames(src_frames as int, rate as int),
            n_out <= src_frames * 48000,
            i <= n_out,
            out@.len() == 4 * i,
            forall|j: int|
                0 <= j < out@.len() ==> out@[j] == #[trigger] out_byte_scaled(
                    samples@,
                    scale as int,
                    channels as int,
                    sample_rate as int,
                    j,
                ),
        decreases n_out - i,
    {
        proof {
            lemma_out_frames_stop(src_frames as int, rate as int, i as int);
            lemma_product_bound(
                i as int,
                rate as int,
                0xffff_ffff_ffff_ffff * 48000int,
                0xffff_ffff,
            );
        }
        let pos: u128 = i * rate;
        let f: usize = (pos / (TARGET_RATE as u128)) as usize;
        let phase: u32 = (pos % (TARGET_RATE as u128)) as u32;
        assert(f == src_index(i as int, sample_rate as int));
        assert(phase == src_phase(i as int, sample_rate as int));
        assert(f + 1 < src_frames);
        assert((f + 2) * ch <= src_frames * ch && f * ch + ch == (f + 1) * ch && (f + 1) * ch
            + ch == (f + 2) * ch) by (nonlinear_arith)
            requires
                f + 2 <= src_frames,
                ch >= 1,
        ;
        let left: i16 = interpolate_scaled(samples[f * ch], samples[(f + 1) * ch], phase, scale);
        let right: i16 = if ch == 1 {
            left
        } else {
            interpolate_scaled(samples[f * ch + 1], samples[(f + 1) * ch + 1], phase, scale)
        };
        assert(left == out_sample_scaled(
            samples@,
            scale as int,
            channels as int,
            sample_rate as int,
            i as int,
            0,
        ));
        assert(right == out_sample_scaled(
            samples@,
            scale as int,
            channels as int,
            sample_rate as int,
            i as int,
            1,
        ));
        let lb: (u8, u8) = sample_le_bytes(left);
        let rb: (u8, u8) = sample_le_bytes(right);
        let ghost before = out@;
        out.push(lb.0);
        out.push(lb.1);
        out.push(rb.0);
        out.push(rb.1);
        proof {
            let base = 4 * i as int;
            assert forall|j: int| 0 <= j < out@.len() implies out@[j] == #[trigger] out_byte_scaled(
                samples@,
                scale as int,
                channels as int,
                sample_rate as int,
                j,
            ) by {
                if j < base {
                    assert(out@[j] == before[j]);
                } else {
                    assert(j / 4 == i as int);
                    assert(j == base || j == base + 1 || j == base + 2 || j == base + 3);
                }
            }
        }
        i += 1;
    }
    assert(out@ =~= resampled_scaled(
        samples@,
        scale as int,
        channels as int,
        sample_rate as int,
    ));
    out
}

/// At the output rate itself every output frame is its source frame,
/// limited to the 16-bit range, and only the last source frame is left
/// out.
pub proof fn lemma_unity_rate_is_identity(s: Seq<i32>, channels: int, i: int, side: int)
    requires
        channels == 1 || channels == 2,
        0 <= i < out_frames(s.len() as int / channels, TARGET_RATE as int),
        side == 0 || side == 1,
    ensures
        out_frames(s.len() as int / channels, TARGET_RATE as int) == s.len() as int / channels
            - 1,
        out_sample(s, channels, TARGET_RATE as int, i, side) == clamp16(
            s[i * channels + source_channel(channels, side)] as int,
        ),
{
    let c = source_channel(channels, side);
    let len = s.len() as int;
    assert(i + 1 < len / channels);
    assert(0 <= i * channels + c && (i + 1) * channels + c < len) by (nonlinear_arith)
        requires
            0 <= i,
            i + 2 <= len / channels,
            0 <= c < channels,
            channels >= 1,
            len >= 0,
    ;
    let p0 = s[i * channels + c] as int;
    let p1 = s[(i + 1) * channels + c] as int;
    assert(wide_of(s)[i * channels + c] == p0);
    assert(wide_of(s)[(i + 1) * channels + c] == p1);
    assert(src_index(i, 48000) == i && src_phase(i, 48000) == 0);
    assert((p1 - p0) * 0 == 0);
    lemma_trunc_div_cancel(p0, 48000);
}

} // verus!

//! The Overlay Mixer: a second recording laid over a base recording
//! after a start delay, each with its own volume.

use vstd::prelude::*;
use crate::arith::{clamp16, trunc_div, saturate16, lemma_product_bound};
use crate::audio::{AudioError, AudioSpec, MS_PER_SECOND};
use crate::ratio::Ratio;

verus! {

/// Number of frames in `delay_ms` milliseconds at the given sample rate,
/// rounded down.
pub open spec fn offset_frames(sample_rate: int, delay_ms: int) -> int {
    (sample_rate * delay_ms) / (MS_PER_SECOND as int)
}

/// Number of interleaved samples by which the overlay starts late.
pub open spec fn overlay_offset(sample_rate: int, delay_ms: int, channels: int) -> int {
    offset_frames(sample_rate, delay_ms) * channels
}

/// Length of the mix: it ends where the later of the two sources ends.
pub open spec fn mixed_len(base_len: int, overlay_len: int, offset: int) -> int {
    if base_len >= overlay_len + offset {
        base_len
    } else {
        overlay_len + offset
    }
}

/// The sample of a source at index `i`, zero outside the source.
pub open spec fn sample_or_zero(s: Seq<i16>, i: int) -> int {
    if 0 <= i < s.len() {
        s[i] as int
    } else {
        0
    }
}

/// The sum of a base and an overlay sample, each times its volume,
/// rounded toward zero and limited to the 16-bit range.
pub open spec fn mixed_sample(b: int, o: int, base_vol: Ratio, overlay_vol: Ratio) -> int {
    clamp16(
        trunc_div(
            b * base_vol.numer() * overlay_vol.denom() + o * overlay_vol.numer()
                * base_vol.denom(),
            base_vol.denom() * overlay_vol.denom(),
        ),
    )
}

/// The mix of two sources, the overlay starting `offset` samples late.
pub open spec fn mixed(
    base: Seq<i16>,
    overlay: Seq<i16>,
    offset: int,
    base_vol: Ratio,
    overlay_vol: Ratio,
) -> Seq<i16> {
    Seq::new(
        mixed_len(base.len() as int, overlay.len() as int, offset) as nat,
        |i: int|
            mixed_sample(
                sample_or_zero(base, i),
                sample_or_zero(overlay, i - offset),
                base_vol,
                overlay_vol,
            ) as i16,
    )
}

/// Computes the number of interleaved samples by which the overlay
/// starts late.
pub fn overlay_start(sample_rate: u32, delay_ms: u32, channels: u16) -> (n: u128)
    ensures
        n == overlay_offset(sample_rate as int, delay_ms as int, channels as int),
        n <= 0xffff_ffff_ffff_ffff * 0xffff,
{
    proof {
        lemma_product_bound(sample_rate as int, delay_ms as int, 0xffff_ffff, 0xffff_ffff);
    }
    let frames: u128 = (sample_rate as u128 * delay_ms as u128) / (MS_PER_SECOND as u128);
    proof {
        lemma_product_bound(frames as int, channels as int, 0xffff_ffff_ffff_ffff, 0xffff);
    }
    frames * (channels as u128)
}

/// Mixes one base sample with one overlay sample.
pub fn mix_sample(b: i16, o: i16, base_vol: Ratio, overlay_vol: Ratio) -> (v: i16)
    requires
        base_vol.wf(),
        overlay_vol.wf(),
    ensures
        v == mixed_sample(b as int, o as int, base_vol, overlay_vol),
{
    let bn: i128 = base_vol.num() as i128;
    let bd: i128 = base_vol.den() as i128;
    let on: i128 = overlay_vol.num() as i128;
    let od: i128 = overlay_vol.den() as i128;
    proof {
        lemma_product_bound(b as int, bn as int, 0x8000, 0x8000_0000);
        lemma_product_bound(b as int * bn as int, od as int, 0x8000 * 0x8000_0000int, 0xffff_ffff);
        lemma_product_bound(o as int, on as int, 0x8000, 0x8000_0000);
        lemma_product_bound(o as int * on as int, bd as int, 0x8000 * 0x8000_0000int, 0xffff_ffff);
        lemma_product_bound(bd as int, od as int, 0xffff_ffff, 0xffff_ffff);
        assert(bd * od >= 1) by (nonlinear_arith)
            requires
                bd >= 1,
                od >= 1,
        ;
    }
    let wide: i128 = (b as i128) * bn * od + (o as i128) * on * bd;
    saturate16(wide / (bd * od))
}

/// Lays `overlay` over `base`, starting `delay_ms` milliseconds in. Both
/// sources are taken to have the given rate and channel count.
pub fn mix_wavs(
    base: &[i16],
    overlay: &[i16],
    sample_rate: u32,
    channels: u16,
    delay_ms: u32,
    base_vol: Ratio,
    overlay_vol: Ratio,
) -> (out: Vec<i16>)
    requires
        base_vol.wf(),
        overlay_vol.wf(),
    ensures
        out@ == mixed(
            base@,
            overlay@,
            overlay_offset(sample_rate as int, delay_ms as int, channels as int),
            base_vol,
            overlay_vol,
        ),
{
    let offset: u128 = overlay_start(sample_rate, delay_ms, channels);
    let len1: u128 = base.len() as u128;
    let len2: u128 = overlay.len() as u128;
    let total: u128 = if len1 >= len2 + offset {
        len1
    } else {
        len2 + offset
    };
    let mut out: Vec<i16> = Vec::new();
    let mut i: u128 = 0;
    while i < total
        invariant
            base_vol.wf(),
            overlay_vol.wf(),
            len1 == base@.len(),
            len2 == overlay@.len(),
            len1 <= usize::MAX,
            len2 <= usize::MAX,
            total == mixed_len(len1 as int, len2 as int, offset as int),
            i <= total,
            out@.len() == i,
            forall|j: int|
                0 <= j < i ==> out@[j] == #[trigger] mixed(
                    base@,
                    overlay@,
                    offset as int,
                    base_vol,
                    overlay_vol,
                )[j],
        decreases total - i,
    {
        let b: i16 = if i < len1 {
            base[i as usize]
        } else {
            0
        };
        let o: i16 = if i >= offset && i - offset < len2 {
            overlay[(i - offset) as usize]
        } else {
            0
        };
        assert(b == sample_or_zero(base@, i as int));
        assert(o == sample_or_zero(overlay@, i as int - offset as int));
        out.push(mix_sample(b, o, base_vol, overlay_vol));
        i += 1;
    }
    assert(out@ =~= mixed(base@, overlay@, offset as int, base_vol, overlay_vol));
    out
}

/// Two recordings can be mixed when they agree in channel count and in
/// sample rate.
pub open spec fn same_layout(a: AudioSpec, b: AudioSpec) -> bool {
    a.channel_count == b.channel_count && a.sample_rate == b.sample_rate
}

/// Mixes two recordings after checking that they share one layout;
/// recordings that do not are refused.
pub fn mix_recordings(
    base: &[i16],
    base_spec: AudioSpec,
    overlay: &[i16],
    overlay_spec: AudioSpec,
    delay_ms: u32,
    base_vol: Ratio,
    overlay_vol: Ratio,
) -> (r: Result<Vec<i16>, AudioError>)
    requires
        base_vol.wf(),
        overlay_vol.wf(),
    ensures
        !same_layout(base_spec, overlay_spec) ==> r == Err::<Vec<i16>, AudioError>(
            AudioError::MismatchedSpecs,
        ),
        same_layout(base_spec, overlay_spec) ==> (r matches Ok(out) && out@ == mixed(
            base@,
            overlay@,
            overlay_offset(
                base_spec.sample_rate as int,
                delay_ms as int,
                base_spec.channel_count as int,
            ),
            base_vol,
            overlay_vol,
        )),
{
    if base_spec.channel_count != overlay_spec.channel_count || base_spec.sample_rate
        != overlay_spec.sample_rate {
        Err(AudioError::MismatchedSpecs)
    } else {
        Ok(
            mix_wavs(
                base,
                overlay,
                base_spec.sample_rate,
                base_spec.channel_count,
                delay_ms,
                base_vol,
                overlay_vol,
            ),
        )
    }
}

} // verus!

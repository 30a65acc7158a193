//! The Reverb Stage: a single-tap feedback delay line per channel, mixed
//! with the dry signal.
//!
//! The delay line carries its values in fine units, 2^-32 of a sample:
//! what is fed back is rounded toward zero at that resolution, once per
//! lap, and a sample is rounded to a whole unit only where it is written
//! out.

use vstd::prelude::*;
use crate::arith::{
    clamp16,
    sat64,
    trunc_div,
    saturate16,
    saturate64,
    FINE_ONE,
    lemma_product_bound,
    lemma_trunc_div_cancel,
    lemma_mod_step,
    lemma_mod_shift,
    lemma_mod_distinct,
    lemma_mod_small,
    lemma_frame_channel_unique,
};
use crate::audio::MS_PER_SECOND;
use crate::convert::copy_range;
use crate::ratio::Ratio;

verus! {

/// Length of the delay line in frames: the delay at the given sample
/// rate, rounded to the nearest frame, a half frame upward.
pub open spec fn delay_frames(sample_rate: int, delay_ms: int) -> int {
    (sample_rate * delay_ms + MS_PER_SECOND / 2) / (MS_PER_SECOND as int)
}

/// Index of the sample of channel `channel` in frame `frame`.
pub open spec fn interleaved_index(frame: int, channels: int, channel: int) -> int {
    frame * channels + channel
}

/// What enters the delay line for an input sample: the input plus the
/// delayed value times the decay.
pub open spec fn fed_back(input: int, delayed: int, decay: Ratio) -> int {
    sat64(input + decay.scale(delayed))
}

/// The wet signal at sample `n`, in fine units: the input plus the
/// decayed wet signal of the same channel one delay earlier, which is
/// `stride` samples back, and silence before the start.
pub open spec fn wet_at(x: Seq<i64>, stride: int, decay: Ratio, n: int) -> int
    decreases n,
{
    if n < 0 || stride <= 0 {
        0
    } else if n < stride {
        fed_back(x[n] as int, 0, decay)
    } else {
        fed_back(x[n] as int, wet_at(x, stride, decay, n - stride), decay)
    }
}

/// The wet signal of a whole buffer.
pub open spec fn wet_of(x: Seq<i64>, stride: int, decay: Ratio) -> Seq<i64> {
    Seq::new(x.len(), |n: int| wet_at(x, stride, decay, n) as i64)
}

/// The dry and the wet value blended, `dry * (1 - mix) + wet * mix`, all
/// three in fine units.
pub open spec fn blended(dry: int, wet: int, mix: Ratio) -> int {
    sat64(trunc_div(dry * (mix.denom() - mix.numer()) + wet * mix.numer(), mix.denom()))
}

/// A dry sample in whole units and a wet value in fine units blended and
/// written out: `dry * (1 - mix) + wet * mix`, rounded toward zero once,
/// to a whole unit, and limited to the 16-bit range.
pub open spec fn blended_sample(dry: int, wet: int, mix: Ratio) -> int {
    clamp16(
        trunc_div(
            dry * FINE_ONE * (mix.denom() - mix.numer()) + wet * mix.numer(),
            mix.denom() * FINE_ONE,
        ),
    )
}

/// 16-bit samples in fine units.
pub open spec fn fine_of(s: Seq<i16>) -> Seq<i64> {
    Seq::new(s.len(), |i: int| (s[i] * FINE_ONE) as i64)
}

/// Sample `n` of the reverberated buffer, in fine units.
pub open spec fn reverbed_sample(
    x: Seq<i64>,
    channels: int,
    delay: int,
    decay: Ratio,
    mix: Ratio,
    n: int,
) -> int {
    blended(x[n] as int, wet_at(x, delay * channels, decay, n), mix)
}

/// The buffer after the reverb with a delay line of `delay` frames, in
/// fine units. A delay of no frames leaves the buffer as it is.
pub open spec fn reverbed(
    x: Seq<i64>,
    channels: int,
    delay: int,
    decay: Ratio,
    mix: Ratio,
) -> Seq<i64> {
    if delay <= 0 {
        x
    } else {
        Seq::new(x.len(), |n: int| reverbed_sample(x, channels, delay, decay, mix, n) as i64)
    }
}

/// A 16-bit recording after the reverb: each sample is the blend of the
/// dry sample with the wet signal of the recording, rounded once where
/// it is written. A delay of no frames leaves the recording as it is.
pub open spec fn reverb_applied(
    s: Seq<i16>,
    channels: int,
    delay: int,
    decay: Ratio,
    mix: Ratio,
) -> Seq<i16> {
    if delay <= 0 {
        s
    } else {
        Seq::new(
            s.len(),
            |n: int|
                blended_sample(
                    s[n] as int,
                    wet_at(fine_of(s), delay * channels, decay, n),
                    mix,
                ) as i16,
        )
    }
}

/// The slot after `slot` in a ring of `len` slots.
pub open spec fn next_slot(slot: int, len: int) -> int {
    if slot + 1 == len {
        0
    } else {
        slot + 1
    }
}

/// The delay line of one channel: a ring of past wet values, in fine
/// units, and the cursor of the slot that is read and overwritten next.
pub struct DelayLine {
    ring: Vec<i64>,
    cursor: usize,
}

impl DelayLine {
    /// The slots of the ring.
    pub closed spec fn slots(&self) -> Seq<i64> {
        self.ring@
    }

    /// The slot under the cursor.
    pub closed spec fn position(&self) -> int {
        self.cursor as int
    }

    /// The cursor points at a slot of the ring.
    pub open spec fn wf(&self) -> bool {
        0 <= self.position() < self.slots().len()
    }

    /// A silent delay line of `len` slots, or nothing for a length of
    /// zero: a line without slots cannot delay anything.
    pub fn new(len: usize) -> (r: Option<DelayLine>)
        ensures
            len == 0 <==> r is None,
            r matches Some(line) ==> line.wf() && line.slots().len() == len && line.position()
                == 0 && forall|j: int| 0 <= j < len ==> line.slots()[j] == 0,
    {
        if len == 0 {
            return None;
        }
        let mut ring: Vec<i64> = Vec::new();
        let mut k: usize = 0;
        while k < len
            invariant
                k <= len,
                ring@.len() == k,
                forall|j: int| 0 <= j < k ==> ring@[j] == 0,
            decreases len - k,
        {
            ring.push(0i64);
            k += 1;
        }
        Some(DelayLine { ring, cursor: 0 })
    }

    /// Takes one input sample: reads the delayed value under the cursor,
    /// stores the new wet value in its place, moves the cursor on and
    /// returns the wet value.
    pub fn feed(&mut self, input: i64, decay: Ratio) -> (wet: i64)
        requires
            old(self).wf(),
            decay.wf(),
        ensures
            final(self).wf(),
            wet == fed_back(input as int, old(self).slots()[old(self).position()] as int, decay),
            final(self).slots() == old(self).slots().update(old(self).position(), wet),
            final(self).position() == next_slot(
                old(self).position(),
                old(self).slots().len() as int,
            ),
    {
        let len: usize = self.ring.len();
        let delayed: i64 = self.ring[self.cursor];
        let wet: i64 = saturate64(input as i128 + decay.apply(delayed));
        self.ring.set(self.cursor, wet);
        self.cursor = if self.cursor + 1 == len {
            0
        } else {
            self.cursor + 1
        };
        wet
    }
}

/// Blends a dry and a wet value, both in fine units.
pub fn blend(dry: i64, wet: i64, mix: Ratio) -> (v: i64)
    requires
        mix.wf(),
    ensures
        v == blended(dry as int, wet as int, mix),
{
    let num: i128 = mix.num() as i128;
    let den: i128 = mix.den() as i128;
    proof {
        lemma_product_bound(
            dry as int,
            den as int - num as int,
            0x8000_0000_0000_0000,
            0x1_8000_0000,
        );
        lemma_product_bound(wet as int, num as int, 0x8000_0000_0000_0000, 0x8000_0000);
    }
    let wide: i128 = (dry as i128) * (den - num) + (wet as i128) * num;
    saturate64(wide / den)
}

/// Blends a dry 16-bit sample with a wet value in fine units and rounds
/// the result to a whole sample.
pub fn blend_to_sample(dry: i16, wet: i64, mix: Ratio) -> (v: i16)
    requires
        mix.wf(),
    ensures
        v == blended_sample(dry as int, wet as int, mix),
{
    let num: i128 = mix.num() as i128;
    let den: i128 = mix.den() as i128;
    let fine: i128 = (dry as i128) * (FINE_ONE as i128);
    proof {
        lemma_product_bound(fine as int, den as int - num as int, 0x8000_0000_0000, 0x1_8000_0000);
        lemma_product_bound(wet as int, num as int, 0x8000_0000_0000_0000, 0x8000_0000);
        lemma_product_bound(den as int, FINE_ONE as int, 0xffff_ffff, 0x1_0000_0000);
        assert(den * FINE_ONE >= 1) by (nonlinear_arith)
            requires
                den >= 1,
                FINE_ONE == 0x1_0000_0000,
        ;
    }
    let wide: i128 = fine * (den - num) + (wet as i128) * num;
    saturate16(wide / (den * (FINE_ONE as i128)))
}

/// Brings 16-bit samples to fine units.
pub fn to_fine(samples: &[i16]) -> (out: Vec<i64>)
    ensures
        out@ == fine_of(samples@),
{
    let mut out: Vec<i64> = Vec::new();
    let mut i: usize = 0;
    while i < samples.len()
        invariant
            i <= samples@.len(),
            out@.len() == i,
            forall|j: int| 0 <= j < i ==> out@[j] == fine_of(samples@)[j],
        decreases samples@.len() - i,
    {
        out.push((samples[i] as i64) * FINE_ONE);
        i += 1;
    }
    assert(out@ =~= fine_of(samples@));
    out
}

/// Computes the length of the delay line in frames.
pub fn delay_length(sample_rate: u32, delay_ms: u32) -> (n: u64)
    ensures
        n == delay_frames(sample_rate as int, delay_ms as int),
{
    proof {
        lemma_product_bound(sample_rate as int, delay_ms as int, 0xffff_ffff, 0xffff_ffff);
    }
    ((sample_rate as u64) * (delay_ms as u64) + (MS_PER_SECOND / 2) as u64) / (MS_PER_SECOND as u64)
}

/// While the delay reaches back before the start of the buffer, the
/// wet signal is the input itself.
pub proof fn lemma_wet_before_first_lap(x: Seq<i64>, stride: int, decay: Ratio, n: int)
    requires
        decay.wf(),
        0 <= n < x.len(),
        n < stride,
    ensures
        wet_at(x, stride, decay, n) == x[n],
{
    assert(0int * decay.numer() == 0);
    assert(0int / decay.denom() == 0) by (nonlinear_arith)
        requires
            decay.denom() >= 1,
    ;
}

/// Computes the wet signal of a buffer in fine units: every channel
/// goes through a delay line of its own, `delay` frames long. A delay
/// of no frames makes no delay line, and so no wet signal.
pub fn wet_signal(samples: &[i64], channels: u16, delay: u64, decay: Ratio) -> (r: Option<
    Vec<i64>,
>)
    requires
        channels >= 1,
        decay.wf(),
    ensures
        delay == 0 <==> r is None,
        r matches Some(out) ==> out@ == wet_of(samples@, delay * channels, decay),
{
    if delay == 0 {
        None
    } else {
        Some(wet_lines(samples, channels, delay, decay))
    }
}

/// The wet signal for a delay of at least one frame.
fn wet_lines(samples: &[i64], channels: u16, delay: u64, decay: Ratio) -> (out: Vec<i64>)
    requires
        channels >= 1,
        delay >= 1,
        decay.wf(),
    ensures
        out@ == wet_of(samples@, delay * channels, decay),
{
    let len: usize = samples.len();
    let mut out: Vec<i64> = copy_range(samples, 0, len);
    assert(out@ =~= samples@);
    let ch: usize = channels as usize;
    proof {
        lemma_product_bound(delay as int, ch as int, 0xffff_ffff_ffff_ffff, 0xffff);
    }
    let stride: u128 = (delay as u128) * (ch as u128);
    let ghost want = wet_of(samples@, delay * channels, decay);
    if stride >= len as u128 {
        // Every tap lies before the start: the wet signal is the input.
        proof {
            assert forall|m: int| 0 <= m < len implies out@[m] == want[m] by {
                lemma_wet_before_first_lap(samples@, stride as int, decay, m);
            }
            assert(out@ =~= want);
        }
        return out;
    }
    assert(1 <= delay <= stride && stride >= 1) by (nonlinear_arith)
        requires
            stride == delay * ch,
            delay >= 1,
            ch >= 1,
    ;
    let d: usize = delay as usize;
    let mut c: usize = 0;
    while c < ch
        invariant
            channels >= 1,
            ch == channels,
            decay.wf(),
            len == samples@.len(),
            out@.len() == len,
            d == delay,
            d >= 1,
            stride == d * ch,
            stride >= 1,
            want == wet_of(samples@, delay * channels, decay),
            c <= ch,
            forall|k: int, e: int|
                0 <= e < c && 0 <= k && #[trigger] interleaved_index(k, ch as int, e) < len
                    ==> out@[interleaved_index(k, ch as int, e)] == want[interleaved_index(
                    k,
                    ch as int,
                    e,
                )],
        decreases ch - c,
    {
        let mut line: DelayLine = match DelayLine::new(d) {
            Some(line) => line,
            None => {
                return out;
            },
        };
        let mut n: usize = if c < len {
            c
        } else {
            len
        };
        let ghost mut q: int = 0;
        assert(0 * ch + c == c) by (nonlinear_arith);
        while n < len
            invariant
                channels >= 1,
                ch == channels,
                decay.wf(),
                    len == samples@.len(),
                out@.len() == len,
                d == delay,
                d >= 1,
                stride == d * ch,
                stride >= 1,
                want == wet_of(samples@, delay * channels, decay),
                c < ch,
                q >= 0,
                n <= len,
                n <= interleaved_index(q, ch as int, c as int),
                n < len ==> n == interleaved_index(q, ch as int, c as int),
                line.wf(),
                line.slots().len() == d,
                line.position() == q % (d as int),
                forall|k: int|
                    0 <= k < q && q - d <= k ==> line.slots()[k % (d as int)] == #[trigger] wet_at(
                        samples@,
                        stride as int,
                        decay,
                        interleaved_index(k, ch as int, c as int),
                    ),
                forall|j: int| q <= j < d ==> line.slots()[j] == 0,
                forall|k: int, e: int|
                    0 <= e < c && 0 <= k && #[trigger] interleaved_index(k, ch as int, e) < len
                        ==> out@[interleaved_index(k, ch as int, e)] == want[interleaved_index(
                        k,
                        ch as int,
                        e,
                    )],
                forall|k: int|
                    0 <= k < q ==> out@[#[trigger] interleaved_index(k, ch as int, c as int)]
                        == want[interleaved_index(k, ch as int, c as int)],
            decreases len - n,
        {
            let x: i64 = samples[n];
            let ghost before = line;
            let ghost out_before = out@;
            let wet: i64 = line.feed(x, decay);
            proof {
                let dd = d as int;
                let cc = ch as int;
                lemma_mod_step(q, dd);
                if q >= dd {
                    lemma_mod_shift(q, dd);
                    assert(interleaved_index(q - dd, cc, c as int) == n - stride && n >= stride)
                        by (nonlinear_arith)
                        requires
                            n == q * cc + c,
                            stride == dd * cc,
                            interleaved_index(q - dd, cc, c as int) == (q - dd) * cc + c,
                            q >= dd,
                            cc >= 1,
                            c >= 0,
                    ;
                    assert(before.slots()[(q - dd) % dd] == wet_at(
                        samples@,
                        stride as int,
                        decay,
                        interleaved_index(q - dd, cc, c as int),
                    ));
                } else {
                    lemma_mod_small(q, dd);
                    assert(n < stride) by (nonlinear_arith)
                        requires
                            n == q * cc + c,
                            stride == dd * cc,
                            0 <= q < dd,
                            0 <= c < cc,
                    ;
                }
                assert(wet == wet_at(samples@, stride as int, decay, n as int));
                assert forall|k: int| 0 <= k < q + 1 && q + 1 - dd <= k implies line.slots()[k
                    % dd] == #[trigger] wet_at(
                    samples@,
                    stride as int,
                    decay,
                    interleaved_index(k, cc, c as int),
                ) by {
                    if k < q {
                        lemma_mod_distinct(k, q, dd);
                        lemma_mod_step(k, dd);
                    }
                }
                assert forall|j: int| q + 1 <= j < dd implies line.slots()[j] == 0 by {
                    lemma_mod_small(q, dd);
                }
            }
            out.set(n, wet);
            proof {
                let cc = ch as int;
                assert(out@[n as int] == want[n as int]);
                assert forall|k: int, e: int|
                    0 <= e < c && 0 <= k && #[trigger] interleaved_index(k, cc, e)
                        < len implies out@[interleaved_index(k, cc, e)] == want[interleaved_index(
                    k,
                    cc,
                    e,
                )] by {
                    if interleaved_index(k, cc, e) == n {
                        lemma_frame_channel_unique(k, e, q, c as int, cc);
                    }
                    assert(out_before[interleaved_index(k, cc, e)] == want[interleaved_index(
                        k,
                        cc,
                        e,
                    )]);
                }
                assert forall|k: int| 0 <= k < q + 1 implies out@[#[trigger] interleaved_index(
                    k,
                    cc,
                    c as int,
                )] == want[interleaved_index(k, cc, c as int)] by {
                    if k < q {
                        assert(0 <= interleaved_index(k, cc, c as int) < n) by (nonlinear_arith)
                            requires
                                0 <= k < q,
                                n == q * cc + c,
                                interleaved_index(k, cc, c as int) == k * cc + c,
                                cc >= 1,
                                c >= 0,
                        ;
                        assert(out_before[interleaved_index(k, cc, c as int)]
                            == want[interleaved_index(k, cc, c as int)]);
                    }
                }
                assert(interleaved_index(q + 1, cc, c as int) == n + cc) by (nonlinear_arith)
                    requires
                        n == q * cc + c,
                        interleaved_index(q + 1, cc, c as int) == (q + 1) * cc + c,
                ;
            }
            n = if len - n > ch {
                n + ch
            } else {
                len
            };
            proof {
                q = q + 1;
            }
        }
        proof {
            let cc = ch as int;
            assert forall|k: int, e: int|
                0 <= e < c + 1 && 0 <= k && #[trigger] interleaved_index(k, cc, e)
                    < len implies out@[interleaved_index(k, cc, e)] == want[interleaved_index(
                k,
                cc,
                e,
            )] by {
                if e == c {
                    if k >= q {
                        assert(interleaved_index(k, cc, e) >= interleaved_index(q, cc, c as int))
                            by (nonlinear_arith)
                            requires
                                k >= q,
                                e == c,
                                cc >= 1,
                                interleaved_index(k, cc, e) == k * cc + e,
                                interleaved_index(q, cc, c as int) == q * cc + c,
                        ;
                    }
                }
            }
        }
        c += 1;
    }
    proof {
        let cc = ch as int;
        assert forall|m: int| 0 <= m < len implies out@[m] == want[m] by {
            let k = m / cc;
            let e = m % cc;
            assert(m == k * cc + e && 0 <= e < cc && k >= 0) by (nonlinear_arith)
                requires
                    k == m / cc,
                    e == m % cc,
                    cc >= 1,
                    m >= 0,
            ;
            assert(interleaved_index(k, cc, e) == m);
        }
        assert(out@ =~= want);
    }
    out
}

/// The Reverb Stage on a buffer in fine units: the wet signal of every
/// channel, blended with the dry one. A delay that rounds to no frame at
/// all leaves the buffer unchanged.
pub fn reverb_stage(
    samples: &[i64],
    channels: u16,
    sample_rate: u32,
    delay_ms: u32,
    decay: Ratio,
    mix: Ratio,
) -> (out: Vec<i64>)
    requires
        channels >= 1,
        decay.wf(),
        mix.wf(),
    ensures
        out@ == reverbed(
            samples@,
            channels as int,
            delay_frames(sample_rate as int, delay_ms as int),
            decay,
            mix,
        ),
{
    let len: usize = samples.len();
    let delay: u64 = delay_length(sample_rate, delay_ms);
    if delay == 0 {
        let same: Vec<i64> = copy_range(samples, 0, len);
        assert(same@ =~= samples@);
        return same;
    }
    let wet: Vec<i64> = wet_lines(samples, channels, delay, decay);
    let ghost want = reverbed(samples@, channels as int, delay as int, decay, mix);
    let mut out: Vec<i64> = Vec::new();
    let mut n: usize = 0;
    while n < len
        invariant
            mix.wf(),
            delay >= 1,
            len == samples@.len(),
            wet@ == wet_of(samples@, delay * channels, decay),
            want == reverbed(samples@, channels as int, delay as int, decay, mix),
            n <= len,
            out@.len() == n,
            forall|m: int| 0 <= m < n ==> out@[m] == want[m],
        decreases len - n,
    {
        out.push(blend(samples[n], wet[n], mix));
        n += 1;
    }
    assert(out@ =~= want);
    out
}

/// Applies the reverb to a 16-bit recording. The delay line works in
/// fine units and without the 16-bit limit; each output sample is
/// rounded once, where it is written, and limited to the 16-bit range.
pub fn apply_reverb(
    samples: &[i16],
    channels: u16,
    sample_rate: u32,
    delay_ms: u32,
    decay: Ratio,
    mix: Ratio,
) -> (out: Vec<i16>)
    requires
        channels >= 1,
        decay.wf(),
        mix.wf(),
    ensures
        out@ == reverb_applied(
            samples@,
            channels as int,
            delay_frames(sample_rate as int, delay_ms as int),
            decay,
            mix,
        ),
{
    let len: usize = samples.len();
    let delay: u64 = delay_length(sample_rate, delay_ms);
    if delay == 0 {
        let same: Vec<i16> = copy_range(samples, 0, len);
        assert(same@ =~= samples@);
        return same;
    }
    let fine: Vec<i64> = to_fine(samples);
    let wet: Vec<i64> = wet_lines(fine.as_slice(), channels, delay, decay);
    let ghost want = reverb_applied(samples@, channels as int, delay as int, decay, mix);
    let mut out: Vec<i16> = Vec::new();
    let mut n: usize = 0;
    while n < len
        invariant
            mix.wf(),
            delay >= 1,
            len == samples@.len(),
            wet@ == wet_of(fine_of(samples@), delay * channels, decay),
            want == reverb_applied(samples@, channels as int, delay as int, decay, mix),
            n <= len,
            out@.len() == n,
            forall|m: int| 0 <= m < n ==> out@[m] == want[m],
        decreases len - n,
    {
        out.push(blend_to_sample(samples[n], wet[n], mix));
        n += 1;
    }
    assert(out@ =~= want);
    out
}

/// Blending a value with itself gives the value back, whatever the mix.
pub proof fn lemma_blend_same(x: int, mix: Ratio)
    requires
        mix.wf(),
        i64::MIN <= x <= i64::MAX,
    ensures
        blended(x, x, mix) == x,
{
    let num = mix.numer();
    let den = mix.denom();
    assert(x * (den - num) + x * num == x * den) by (nonlinear_arith);
    lemma_trunc_div_cancel(x, den);
}

/// Blending a whole sample with itself in fine units and writing it out
/// gives the sample back, whatever the mix.
pub proof fn lemma_blend_sample_same(x: int, mix: Ratio)
    requires
        mix.wf(),
        i16::MIN <= x <= i16::MAX,
    ensures
        blended_sample(x, x * FINE_ONE, mix) == x,
{
    let num = mix.numer();
    let den = mix.denom();
    assert(x * FINE_ONE * (den - num) + x * FINE_ONE * num == x * (den * FINE_ONE))
        by (nonlinear_arith);
    assert(den * FINE_ONE >= 1) by (nonlinear_arith)
        requires
            den >= 1,
            FINE_ONE == 0x1_0000_0000,
    ;
    lemma_trunc_div_cancel(x, den * FINE_ONE);
}

/// With a decay of zero nothing is fed back: the wet signal is the
/// input.
pub proof fn lemma_zero_decay_wet_is_dry(x: Seq<i64>, stride: int, decay: Ratio, n: int)
    requires
        stride >= 1,
        decay.wf(),
        decay.numer() == 0,
        0 <= n < x.len(),
    ensures
        wet_at(x, stride, decay, n) == x[n],
{
    let w = if n < stride {
        0
    } else {
        wet_at(x, stride, decay, n - stride)
    };
    assert(w * decay.numer() == 0) by (nonlinear_arith)
        requires
            decay.numer() == 0,
    ;
    assert(0int / decay.denom() == 0) by (nonlinear_arith)
        requires
            decay.denom() >= 1,
    ;
    assert(decay.scale(w) == 0);
}

/// With a decay of zero the reverb returns its input exactly, for every
/// mix, every channel count and every delay: on a buffer in fine units
/// and on a 16-bit recording alike.
pub proof fn lemma_zero_decay_is_identity(
    x: Seq<i64>,
    s: Seq<i16>,
    channels: int,
    delay: int,
    decay: Ratio,
    mix: Ratio,
)
    requires
        channels >= 1,
        decay.wf(),
        mix.wf(),
        decay.numer() == 0,
    ensures
        reverbed(x, channels, delay, decay, mix) == x,
        reverb_applied(s, channels, delay, decay, mix) == s,
{
    if delay > 0 {
        let stride = delay * channels;
        assert(stride >= 1) by (nonlinear_arith)
            requires
                stride == delay * channels,
                delay >= 1,
                channels >= 1,
        ;
        assert forall|n: int| 0 <= n < x.len() implies reverbed(
            x,
            channels,
            delay,
            decay,
            mix,
        )[n] == x[n] by {
            lemma_zero_decay_wet_is_dry(x, stride, decay, n);
            lemma_blend_same(x[n] as int, mix);
        }
        assert(reverbed(x, channels, delay, decay, mix) =~= x);
        assert forall|n: int| 0 <= n < s.len() implies reverb_applied(
            s,
            channels,
            delay,
            decay,
            mix,
        )[n] == s[n] by {
            lemma_zero_decay_wet_is_dry(fine_of(s), stride, decay, n);
            lemma_blend_sample_same(s[n] as int, mix);
        }
        assert(reverb_applied(s, channels, delay, decay, mix) =~= s);
    }
}

} // verus!

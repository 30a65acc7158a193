//! Silence trimming: the span between the first and the last loud frame,
//! with a linear fade-out over its last 20 ms.

use vstd::prelude::*;
use crate::arith::{
    magnitude,
    trunc_div,
    lemma_weighted_shrinks,
    lemma_product_bound,
    lemma_trunc_div_cancel,
};
use crate::audio::{FADE_MS, MS_PER_SECOND};
use crate::convert::{copy_range, widen, widened};

verus! {

/// A sample is loud when its magnitude exceeds that of the threshold.
pub open spec fn is_loud(sample: int, threshold: int) -> bool {
    magnitude(sample) > magnitude(threshold)
}

/// The sample of channel `c` in frame `f` of an interleaved buffer.
pub open spec fn sample_of(s: Seq<i32>, channels: int, f: int, c: int) -> int {
    s[f * channels + c] as int
}

/// A frame is loud when at least one of its channels is; it is silent
/// only if every channel is within the threshold.
pub open spec fn frame_is_loud(s: Seq<i32>, channels: int, f: int, threshold: int) -> bool {
    exists|c: int| 0 <= c < channels && is_loud(#[trigger] sample_of(s, channels, f, c), threshold)
}

/// `start..end` is the span of frames that trimming keeps: no loud frame
/// lies outside it and, unless it is empty, its first and last frames are
/// loud. A buffer without a loud frame has the empty span at its end.
pub open spec fn is_trim_span(
    s: Seq<i32>,
    channels: int,
    threshold: int,
    start: int,
    end: int,
) -> bool {
    let frames = s.len() as int / channels;
    &&& 0 <= start <= end <= frames
    &&& forall|f: int| 0 <= f < start ==> !#[trigger] frame_is_loud(s, channels, f, threshold)
    &&& forall|f: int| end <= f < frames ==> !#[trigger] frame_is_loud(s, channels, f, threshold)
    &&& start < end ==> frame_is_loud(s, channels, start, threshold) && frame_is_loud(
        s,
        channels,
        end - 1,
        threshold,
    )
    &&& start == end ==> start == frames
}

/// The span of frames that trimming keeps, as its first frame and the
/// frame after its last.
pub open spec fn trim_bounds(s: Seq<i32>, channels: int, threshold: int) -> (int, int) {
    choose|a: int, b: int| is_trim_span(s, channels, threshold, a, b)
}

/// First frame of the span that trimming keeps.
pub open spec fn trim_start(s: Seq<i32>, channels: int, threshold: int) -> int {
    trim_bounds(s, channels, threshold).0
}

/// End of the span that trimming keeps: one past its last frame.
pub open spec fn trim_end(s: Seq<i32>, channels: int, threshold: int) -> int {
    trim_bounds(s, channels, threshold).1
}

/// The buffer without its leading and trailing silent frames.
pub open spec fn trimmed(s: Seq<i32>, channels: int, threshold: int) -> Seq<i32> {
    s.subrange(
        trim_start(s, channels, threshold) * channels,
        trim_end(s, channels, threshold) * channels,
    )
}

/// Two spans that both qualify are the same span.
pub proof fn lemma_trim_span_unique(
    s: Seq<i32>,
    channels: int,
    threshold: int,
    a: int,
    b: int,
    c: int,
    d: int,
)
    requires
        channels >= 1,
        is_trim_span(s, channels, threshold, a, b),
        is_trim_span(s, channels, threshold, c, d),
    ensures
        a == c,
        b == d,
{
    let frames = s.len() as int / channels;
    if a < b {
        assert(frame_is_loud(s, channels, a, threshold));
        assert(frame_is_loud(s, channels, b - 1, threshold));
        if c == d {
            assert(c == frames);
            assert(false);
        }
        assert(frame_is_loud(s, channels, c, threshold));
        assert(frame_is_loud(s, channels, d - 1, threshold));
    } else {
        if c < d {
            assert(frame_is_loud(s, channels, c, threshold));
            assert(false);
        }
    }
}

/// A span that qualifies is the one that `trim_start` and `trim_end` name.
pub proof fn lemma_trim_span_is_chosen(
    s: Seq<i32>,
    channels: int,
    threshold: int,
    a: int,
    b: int,
)
    requires
        channels >= 1,
        is_trim_span(s, channels, threshold, a, b),
    ensures
        trim_start(s, channels, threshold) == a,
        trim_end(s, channels, threshold) == b,
{
    let (c, d) = trim_bounds(s, channels, threshold);
    assert(is_trim_span(s, channels, threshold, c, d));
    lemma_trim_span_unique(s, channels, threshold, a, b, c, d);
}

/// Frame `f` with `channels` samples lies inside a buffer of `len`
/// samples that holds more than `f` whole frames.
proof fn lemma_frame_in_bounds(len: int, channels: int, f: int)
    requires
        channels >= 1,
        0 <= f < len / channels,
        len >= 0,
    ensures
        0 <= f * channels,
        f * channels + channels <= len,
        (len / channels) * channels <= len,
{
    assert((len / channels) * channels <= len) by (nonlinear_arith)
        requires
            channels >= 1,
            len >= 0,
    ;
    assert(f * channels + channels <= (len / channels) * channels && 0 <= f * channels)
        by (nonlinear_arith)
        requires
            channels >= 1,
            0 <= f < len / channels,
    ;
}

/// Tells whether a sample is loud.
pub fn sample_is_loud(sample: i32, threshold: i32) -> (b: bool)
    ensures
        b == is_loud(sample as int, threshold as int),
{
    let m: i64 = if sample < 0 {
        -(sample as i64)
    } else {
        sample as i64
    };
    let t: i64 = if threshold < 0 {
        -(threshold as i64)
    } else {
        threshold as i64
    };
    m > t
}

/// Tells whether frame `f` holds a loud sample in any channel.
pub fn frame_loud(samples: &[i32], channels: u16, f: usize, threshold: i32) -> (b: bool)
    requires
        channels >= 1,
        f < samples@.len() / (channels as nat),
    ensures
        b == frame_is_loud(samples@, channels as int, f as int, threshold as int),
{
    let ch: usize = channels as usize;
    let len: usize = samples.len();
    proof {
        lemma_frame_in_bounds(len as int, channels as int, f as int);
    }
    let base: usize = f * ch;
    let mut c: usize = 0;
    while c < ch
        invariant
            channels >= 1,
            ch == channels,
            base == f * ch,
            len == samples@.len(),
            base + ch <= len,
            c <= ch,
            forall|k: int|
                0 <= k < c ==> !is_loud(
                    #[trigger] sample_of(samples@, channels as int, f as int, k),
                    threshold as int,
                ),
        decreases ch - c,
    {
        if sample_is_loud(samples[base + c], threshold) {
            assert(is_loud(
                sample_of(samples@, channels as int, f as int, c as int),
                threshold as int,
            ));
            return true;
        }
        c += 1;
    }
    false
}

/// Finds the span of frames that trimming keeps.
pub fn find_trim_span(samples: &[i32], channels: u16, threshold: i32) -> (span: (usize, usize))
    requires
        channels >= 1,
    ensures
        is_trim_span(
            samples@,
            channels as int,
            threshold as int,
            span.0 as int,
            span.1 as int,
        ),
        span.0 == trim_start(samples@, channels as int, threshold as int),
        span.1 == trim_end(samples@, channels as int, threshold as int),
{
    let frames: usize = samples.len() / (channels as usize);
    let mut start: usize = 0;
    while start < frames && !frame_loud(samples, channels, start, threshold)
        invariant
            channels >= 1,
            frames == samples@.len() / (channels as nat),
            start <= frames,
            forall|f: int|
                0 <= f < start ==> !#[trigger] frame_is_loud(
                    samples@,
                    channels as int,
                    f,
                    threshold as int,
                ),
        decreases frames - start,
    {
        start += 1;
    }
    let mut end: usize = frames;
    while end > start && !frame_loud(samples, channels, end - 1, threshold)
        invariant
            channels >= 1,
            frames == samples@.len() / (channels as nat),
            start <= end <= frames,
            forall|f: int|
                end <= f < frames ==> !#[trigger] frame_is_loud(
                    samples@,
                    channels as int,
                    f,
                    threshold as int,
                ),
        decreases end,
    {
        end -= 1;
    }
    proof {
        if start == end {
            // The forward scan never stops short of a loud frame, so an
            // empty span means that it ran to the end.
            if start < frames {
                assert(frame_is_loud(samples@, channels as int, start as int, threshold as int));
                assert(false);
            }
        }
        lemma_trim_span_is_chosen(
            samples@,
            channels as int,
            threshold as int,
            start as int,
            end as int,
        );
    }
    (start, end)
}

/// Removes the silent frames before the first and after the last loud
/// frame. A buffer without a loud frame becomes empty.
pub fn trim_span(samples: &[i32], channels: u16, threshold: i32) -> (out: Vec<i32>)
    requires
        channels >= 1,
    ensures
        out@ == trimmed(samples@, channels as int, threshold as int),
{
    let (start, end) = find_trim_span(samples, channels, threshold);
    let total: usize = samples.len();
    proof {
        let len = total as int;
        let ch = channels as int;
        assert((len / ch) * ch <= len) by (nonlinear_arith)
            requires
                ch >= 1,
                len >= 0,
        ;
        assert(0 <= start * ch <= end * ch <= (len / ch) * ch) by (nonlinear_arith)
            requires
                ch >= 1,
                0 <= start <= end <= len / ch,
        ;
    }
    let ch: usize = channels as usize;
    copy_range(samples, start * ch, end * ch)
}

/// Number of frames over which the tail fades out: 20 ms at the given
/// sample rate, rounded down.
pub open spec fn fade_frames(sample_rate: int) -> int {
    (sample_rate * FADE_MS) / (MS_PER_SECOND as int)
}

/// Number of interleaved samples over which the tail fades out.
pub open spec fn fade_len(sample_rate: int, channels: int) -> int {
    fade_frames(sample_rate) * channels
}

/// Index of the first sample that the fade touches in a buffer of `len`
/// samples.
pub open spec fn fade_start(len: int, fade: int) -> int {
    if len > fade {
        len - fade
    } else {
        0
    }
}

/// The scale of the fade weights: the fade length, or one where the fade
/// has no length.
pub open spec fn fade_scale(fade: int) -> int {
    if fade > 0 {
        fade
    } else {
        1
    }
}

/// The weight of the sample at index `pos` of a buffer of `len` samples,
/// over `fade_scale(fade)`: inside the fade the number of samples from it
/// to the end of the buffer, itself counted, and the whole scale before
/// it.
pub open spec fn fade_weight(pos: int, len: int, fade: int) -> int {
    if fade > 0 && pos >= fade_start(len, fade) {
        len - pos
    } else {
        fade_scale(fade)
    }
}

/// The sample at index `pos` of a buffer of `len` samples after the
/// fade-out over its last `fade` samples. The gain of a sample is the
/// number of samples from it to the end of the buffer, itself counted,
/// over `fade`: it is one where the fade starts and would be zero one
/// step past the last sample.
pub open spec fn faded_sample(x: int, pos: int, len: int, fade: int) -> int {
    if fade > 0 && pos >= fade_start(len, fade) {
        trunc_div(x * (len - pos), fade)
    } else {
        x
    }
}

/// The buffer after the fade-out over its last `fade` samples.
pub open spec fn faded(s: Seq<i32>, fade: int) -> Seq<i32> {
    Seq::new(s.len(), |i: int| faded_sample(s[i] as int, i, s.len() as int, fade) as i32)
}

/// The fade never raises the magnitude of a sample, so a faded sample
/// fits where the sample did.
pub proof fn lemma_fade_shrinks(x: int, pos: int, len: int, fade: int)
    requires
        0 <= pos < len,
    ensures
        magnitude(faded_sample(x, pos, len, fade)) <= magnitude(x),
        x >= 0 ==> 0 <= faded_sample(x, pos, len, fade) <= x,
        x <= 0 ==> x <= faded_sample(x, pos, len, fade) <= 0,
{
    if fade > 0 && pos >= fade_start(len, fade) {
        lemma_weighted_shrinks(x, len - pos, fade);
    }
}

/// A faded sample is the sample times its fade weight over the fade
/// scale, rounded toward zero.
pub proof fn lemma_faded_sample_is_weighted(x: int, pos: int, len: int, fade: int)
    ensures
        faded_sample(x, pos, len, fade) == trunc_div(
            x * fade_weight(pos, len, fade),
            fade_scale(fade),
        ),
        0 <= pos < len ==> 0 <= fade_weight(pos, len, fade) <= fade_scale(fade),
{
    if !(fade > 0 && pos >= fade_start(len, fade)) {
        lemma_trunc_div_cancel(x, fade_scale(fade));
    }
}

/// Computes the number of interleaved samples over which the tail fades.
pub fn fade_length(sample_rate: u32, channels: u16) -> (n: u64)
    ensures
        n == fade_len(sample_rate as int, channels as int),
{
    let frames: u64 = (sample_rate as u64 * FADE_MS as u64) / (MS_PER_SECOND as u64);
    assert(frames * (channels as u64) <= 0xffff_ffff * 0xffff) by (nonlinear_arith)
        requires
            frames <= 0xffff_ffff,
            channels <= 0xffff,
    ;
    frames * (channels as u64)
}

/// Applies the fade-out to the last `fade` samples of the buffer, or to
/// all of it when it is shorter.
pub fn fade_out(samples: &mut Vec<i32>, fade: u64)
    ensures
        final(samples)@ == faded(old(samples)@, fade as int),
{
    let len: usize = samples.len();
    if fade == 0 || len == 0 {
        assert(samples@ =~= faded(samples@, fade as int));
        return ;
    }
    let start: usize = if (len as u64) > fade {
        (len as u64 - fade) as usize
    } else {
        0
    };
    let mut pos: usize = start;
    while pos < len
        invariant
            fade > 0,
            len == old(samples)@.len(),
            samples@.len() == len,
            start == fade_start(len as int, fade as int),
            start <= pos <= len,
            forall|i: int|
                0 <= i < pos ==> samples@[i] == #[trigger] faded(old(samples)@, fade as int)[i],
            forall|i: int| pos <= i < len ==> samples@[i] == old(samples)@[i],
        decreases len - pos,
    {
        let x: i32 = samples[pos];
        let remaining: u64 = (len - pos) as u64;
        proof {
            lemma_fade_shrinks(x as int, pos as int, len as int, fade as int);
            lemma_product_bound(
                x as int,
                remaining as int,
                0x8000_0000,
                0xffff_ffff_ffff_ffff,
            );
        }
        let wide: i128 = (x as i128) * (remaining as i128);
        let q: i128 = wide / (fade as i128);
        assert(q == faded_sample(x as int, pos as int, len as int, fade as int));
        samples.set(pos, q as i32);
        pos += 1;
    }
    assert(samples@ =~= faded(old(samples)@, fade as int));
}

/// Trims a 16-bit recording and fades out its tail. Every sample of the
/// result is the sample that the Silence Trimmer gives for the same
/// recording: the fade only lowers magnitudes, so nothing is cut off by
/// the 16-bit range.
pub fn trim_silence(samples: &[i16], channels: u16, sample_rate: u32, threshold_level: i16) -> (out:
    Vec<i16>)
    requires
        channels >= 1,
    ensures
        widened(out@) == faded(
            trimmed(widened(samples@), channels as int, threshold_level as int),
            fade_len(sample_rate as int, channels as int),
        ),
{
    let wide: Vec<i32> = widen(samples);
    let mut cut: Vec<i32> = trim_span(wide.as_slice(), channels, threshold_level as i32);
    let fade: u64 = fade_length(sample_rate, channels);
    let ghost kept = cut@;
    proof {
        lemma_trim_span_exists(wide@, channels as int, threshold_level as int);
        let (a, b) = trim_bounds(wide@, channels as int, threshold_level as int);
        let len = wide@.len() as int;
        let ch = channels as int;
        assert(0 <= a * ch <= b * ch <= len) by (nonlinear_arith)
            requires
                ch >= 1,
                0 <= a <= b <= len / ch,
                len >= 0,
        ;
        assert forall|i: int| 0 <= i < kept.len() implies i16::MIN <= #[trigger] kept[i] <= i16::MAX by {
            assert(kept[i] == wide@[a * ch + i]);
        }
    }
    fade_out(&mut cut, fade);
    let mut out: Vec<i16> = Vec::new();
    let mut i: usize = 0;
    while i < cut.len()
        invariant
            i <= cut@.len(),
            cut@ == faded(kept, fade as int),
            forall|j: int| 0 <= j < kept.len() ==> i16::MIN <= #[trigger] kept[j] <= i16::MAX,
            out@.len() == i,
            forall|j: int| 0 <= j < i ==> out@[j] as int == cut@[j],
        decreases cut@.len() - i,
    {
        proof {
            lemma_fade_shrinks(kept[i as int] as int, i as int, kept.len() as int, fade as int);
        }
        out.push(cut[i] as i16);
        i += 1;
    }
    assert(widened(out@) =~= cut@);
    out
}

/// A buffer in which no sample is loud trims to the empty buffer, and
/// the fade-out leaves it empty.
pub proof fn lemma_quiet_buffer_trims_to_empty(
    s: Seq<i32>,
    channels: int,
    threshold: int,
    fade: int,
)
    requires
        channels >= 1,
        forall|i: int| 0 <= i < s.len() ==> !is_loud(#[trigger] s[i] as int, threshold),
    ensures
        trimmed(s, channels, threshold) == Seq::<i32>::empty(),
        faded(trimmed(s, channels, threshold), fade) == Seq::<i32>::empty(),
{
    let len = s.len() as int;
    let frames = len / channels;
    assert forall|f: int| 0 <= f < frames implies !#[trigger] frame_is_loud(
        s,
        channels,
        f,
        threshold,
    ) by {
        lemma_frame_in_bounds(len, channels, f);
        if frame_is_loud(s, channels, f, threshold) {
            let c = choose|c: int|
                0 <= c < channels && is_loud(#[trigger] sample_of(s, channels, f, c), threshold);
            assert(!is_loud(s[f * channels + c] as int, threshold));
        }
    }
    assert(frames >= 0) by (nonlinear_arith)
        requires
            frames == len / channels,
            len >= 0,
            channels >= 1,
    ;
    assert(is_trim_span(s, channels, threshold, frames, frames));
    lemma_trim_span_is_chosen(s, channels, threshold, frames, frames);
    assert(0 <= frames * channels <= len) by (nonlinear_arith)
        requires
            frames == len / channels,
            len >= 0,
            channels >= 1,
    ;
    assert(trimmed(s, channels, threshold) =~= Seq::<i32>::empty());
    assert(faded(trimmed(s, channels, threshold), fade) =~= Seq::<i32>::empty());
}

/// Trimming is idempotent: the trimmed buffer starts and ends with a loud
/// frame, so trimming it again with the same threshold removes nothing.
pub proof fn lemma_trim_idempotent(s: Seq<i32>, channels: int, threshold: int)
    requires
        channels >= 1,
    ensures
        trimmed(trimmed(s, channels, threshold), channels, threshold) == trimmed(
            s,
            channels,
            threshold,
        ),
{
    lemma_trim_span_exists(s, channels, threshold);
    let (a, b) = trim_bounds(s, channels, threshold);
    assert(is_trim_span(s, channels, threshold, a, b));
    let len = s.len() as int;
    let frames = len / channels;
    let t = trimmed(s, channels, threshold);
    let n = b - a;
    assert((len / channels) * channels <= len) by (nonlinear_arith)
        requires
            channels >= 1,
            len >= 0,
    ;
    assert(0 <= a * channels <= b * channels <= frames * channels && b * channels - a * channels
        == n * channels) by (nonlinear_arith)
        requires
            channels >= 1,
            0 <= a <= b <= frames,
            n == b - a,
    ;
    assert(t.len() == n * channels);
    assert((n * channels) / channels == n) by (nonlinear_arith)
        requires
            channels >= 1,
            n >= 0,
    ;
    assert forall|g: int| 0 <= g < n implies #[trigger] frame_is_loud(t, channels, g, threshold)
        == frame_is_loud(s, channels, a + g, threshold) by {
        assert(0 <= g * channels && g * channels + channels <= n * channels && (a + g) * channels
            == a * channels + g * channels) by (nonlinear_arith)
            requires
                channels >= 1,
                0 <= g < n,
        ;
        assert forall|c: int| 0 <= c < channels implies #[trigger] sample_of(t, channels, g, c)
            == sample_of(s, channels, a + g, c) by {}
        if frame_is_loud(t, channels, g, threshold) {
            let c = choose|c: int|
                0 <= c < channels && is_loud(#[trigger] sample_of(t, channels, g, c), threshold);
            assert(is_loud(sample_of(s, channels, a + g, c), threshold));
        }
        if frame_is_loud(s, channels, a + g, threshold) {
            let c = choose|c: int|
                0 <= c < channels && is_loud(
                    #[trigger] sample_of(s, channels, a + g, c),
                    threshold,
                );
            assert(is_loud(sample_of(t, channels, g, c), threshold));
        }
    }
    if n > 0 {
        assert(frame_is_loud(t, channels, 0, threshold) == frame_is_loud(
            s,
            channels,
            a + 0,
            threshold,
        ));
        assert(frame_is_loud(t, channels, n - 1, threshold) == frame_is_loud(
            s,
            channels,
            a + (n - 1),
            threshold,
        ));
    }
    assert(is_trim_span(t, channels, threshold, 0, n));
    lemma_trim_span_is_chosen(t, channels, threshold, 0, n);
    assert(0 * channels == 0) by (nonlinear_arith);
    assert(trimmed(t, channels, threshold) =~= t);
}

/// A fade of no length changes nothing.
pub proof fn lemma_no_fade_is_identity(s: Seq<i32>)
    ensures
        faded(s, 0) == s,
{
    assert(faded(s, 0) =~= s);
}

/// Where the fade-out leaves the trimmed buffer as it is, as a fade of no
/// length does, the whole Silence Trimmer is idempotent. Where the fade
/// lowers a sample, a second pass fades the tail again and may cut it
/// shorter.
pub proof fn lemma_trimmer_idempotent_where_fade_is_idle(
    s: Seq<i32>,
    channels: int,
    threshold: int,
    fade: int,
)
    requires
        channels >= 1,
        faded(trimmed(s, channels, threshold), fade) == trimmed(s, channels, threshold),
    ensures
        faded(trimmed(faded(trimmed(s, channels, threshold), fade), channels, threshold), fade)
            == faded(trimmed(s, channels, threshold), fade),
{
    lemma_trim_idempotent(s, channels, threshold);
}

/// Every buffer has a span that trimming keeps.
pub proof fn lemma_trim_span_exists(s: Seq<i32>, channels: int, threshold: int)
    requires
        channels >= 1,
    ensures
        exists|a: int, b: int| is_trim_span(s, channels, threshold, a, b),
{
    let len = s.len() as int;
    let frames = len / channels;
    assert(frames >= 0) by (nonlinear_arith)
        requires
            frames == len / channels,
            len >= 0,
            channels >= 1,
    ;
    let a = first_loud_from(s, channels, threshold, 0);
    lemma_first_loud_from(s, channels, threshold, 0);
    if a == frames {
        assert(is_trim_span(s, channels, threshold, frames, frames));
    } else {
        let b = last_loud_before(s, channels, threshold, frames);
        lemma_last_loud_before(s, channels, threshold, frames, a);
        assert(is_trim_span(s, channels, threshold, a, b));
    }
}

/// The first loud frame at or after `f`, or the frame count if there is
/// none.
spec fn first_loud_from(s: Seq<i32>, channels: int, threshold: int, f: int) -> int
    decreases s.len() as int / channels - f,
{
    if f >= s.len() as int / channels {
        s.len() as int / channels
    } else if frame_is_loud(s, channels, f, threshold) {
        f
    } else {
        first_loud_from(s, channels, threshold, f + 1)
    }
}

/// One past the last loud frame before `e`, or zero if there is none.
spec fn last_loud_before(s: Seq<i32>, channels: int, threshold: int, e: int) -> int
    decreases e,
{
    if e <= 0 {
        0
    } else if frame_is_loud(s, channels, e - 1, threshold) {
        e
    } else {
        last_loud_before(s, channels, threshold, e - 1)
    }
}

proof fn lemma_first_loud_from(s: Seq<i32>, channels: int, threshold: int, f: int)
    requires
        0 <= f <= s.len() as int / channels,
    ensures
        f <= first_loud_from(s, channels, threshold, f) <= s.len() as int / channels,
        forall|g: int|
            f <= g < first_loud_from(s, channels, threshold, f) ==> !#[trigger] frame_is_loud(
                s,
                channels,
                g,
                threshold,
            ),
        first_loud_from(s, channels, threshold, f) < s.len() as int / channels ==> frame_is_loud(
            s,
            channels,
            first_loud_from(s, channels, threshold, f),
            threshold,
        ),
    decreases s.len() as int / channels - f,
{
    if f < s.len() as int / channels && !frame_is_loud(s, channels, f, threshold) {
        lemma_first_loud_from(s, channels, threshold, f + 1);
    }
}

proof fn lemma_last_loud_before(s: Seq<i32>, channels: int, threshold: int, e: int, a: int)
    requires
        0 <= a < e <= s.len() as int / channels,
        frame_is_loud(s, channels, a, threshold),
    ensures
        a < last_loud_before(s, channels, threshold, e) <= e,
        forall|g: int|
            last_loud_before(s, channels, threshold, e) <= g < e ==> !#[trigger] frame_is_loud(
                s,
                channels,
                g,
                threshold,
            ),
        frame_is_loud(s, channels, last_loud_before(s, channels, threshold, e) - 1, threshold),
    decreases e,
{
    if !frame_is_loud(s, channels, e - 1, threshold) {
        lemma_last_loud_before(s, channels, threshold, e - 1, a);
    }
}

} // verus!

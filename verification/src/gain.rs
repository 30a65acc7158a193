//! Gain on a 16-bit recording: every sample times an amplitude.

use vstd::prelude::*;
use crate::arith::{clamp16, saturate16, lemma_trunc_div_cancel};
use crate::ratio::Ratio;

verus! {

/// A 16-bit recording with every sample scaled by the amplitude and
/// limited to the 16-bit range.
pub open spec fn gain_applied(s: Seq<i16>, amplitude: Ratio) -> Seq<i16> {
    Seq::new(s.len(), |i: int| clamp16(amplitude.scale(s[i] as int)) as i16)
}

/// Scales a 16-bit recording by the amplitude; each sample is limited to
/// the 16-bit range right after scaling.
pub fn apply_gain(samples: &[i16], amplitude: Ratio) -> (out: Vec<i16>)
    requires
        amplitude.wf(),
    ensures
        out@ == gain_applied(samples@, amplitude),
{
    let mut out: Vec<i16> = Vec::new();
    let mut i: usize = 0;
    while i < samples.len()
        invariant
            amplitude.wf(),
            i <= samples@.len(),
            out@.len() == i,
            forall|j: int| 0 <= j < i ==> out@[j] == gain_applied(samples@, amplitude)[j],
        decreases samples@.len() - i,
    {
        out.push(saturate16(amplitude.apply(samples[i] as i64)));
        i += 1;
    }
    assert(out@ =~= gain_applied(samples@, amplitude));
    out
}

/// An amplitude of one, which is what 0 dB stands for, leaves every
/// sample unchanged; so does any fraction whose numerator equals its
/// denominator.
pub proof fn lemma_unity_gain_is_identity(s: Seq<i16>, amplitude: Ratio)
    requires
        amplitude.wf(),
        amplitude.numer() == amplitude.denom(),
    ensures
        gain_applied(s, amplitude) == s,
{
    assert forall|i: int| 0 <= i < s.len() implies gain_applied(s, amplitude)[i] == s[i] by {
        lemma_trunc_div_cancel(s[i] as int, amplitude.denom());
    }
    assert(gain_applied(s, amplitude) =~= s);
}

/// Gain is linear on a constant buffer: every sample of the result is the
/// one value `x` times the amplitude, rounded toward zero, as long as
/// that fits 16 bits.
pub proof fn lemma_gain_of_constant(s: Seq<i16>, x: int, amplitude: Ratio, i: int)
    requires
        amplitude.wf(),
        forall|j: int| 0 <= j < s.len() ==> s[j] == x,
        0 <= i < s.len(),
        i16::MIN <= amplitude.scale(x) <= i16::MAX,
    ensures
        gain_applied(s, amplitude)[i] == amplitude.scale(x),
{
}

} // verus!

//! Copies and conversions of sample buffers.

use vstd::prelude::*;

verus! {

/// Copies the samples from index `from` up to `to`.
pub fn copy_range<T: Copy>(samples: &[T], from: usize, to: usize) -> (out: Vec<T>)
    requires
        from <= to <= samples@.len(),
    ensures
        out@ == samples@.subrange(from as int, to as int),
{
    let mut out: Vec<T> = Vec::new();
    let mut i: usize = from;
    while i < to
        invariant
            from <= i <= to <= samples@.len(),
            out@ == samples@.subrange(from as int, i as int),
        decreases to - i,
    {
        out.push(samples[i]);
        i += 1;
    }
    out
}

/// The samples of a 16-bit buffer as 32-bit samples.
pub open spec fn widened(s: Seq<i16>) -> Seq<i32> {
    Seq::new(s.len(), |i: int| s[i] as i32)
}

/// Widens 16-bit samples to 32 bits.
pub fn widen(samples: &[i16]) -> (out: Vec<i32>)
    ensures
        out@ == widened(samples@),
{
    let mut out: Vec<i32> = Vec::new();
    let mut i: usize = 0;
    while i < samples.len()
        invariant
            i <= samples@.len(),
            out@.len() == i,
            forall|j: int| 0 <= j < i ==> out@[j] == samples@[j] as i32,
        decreases samples@.len() - i,
    {
        out.push(samples[i] as i32);
        i += 1;
    }
    assert(out@ =~= widened(samples@));
    out
}

} // verus!

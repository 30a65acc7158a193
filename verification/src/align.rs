//! The Frame Aligner: half a second of trailing silence, and zero bytes
//! up to a whole number of transport frames.

use vstd::prelude::*;
use crate::audio::{FRAME_BYTES, TAIL_SILENCE_BYTES};

verus! {

/// `n` zero bytes.
pub open spec fn zeros(n: int) -> Seq<u8> {
    Seq::new(n as nat, |i: int| 0u8)
}

/// Number of zero bytes that bring a stream of `len` bytes up to a whole
/// number of transport frames.
pub open spec fn frame_padding(len: int) -> int {
    (FRAME_BYTES - len % (FRAME_BYTES as int)) % (FRAME_BYTES as int)
}

/// The stream followed by the trailing silence and the frame padding.
pub open spec fn aligned(bytes: Seq<u8>) -> Seq<u8> {
    bytes + zeros(TAIL_SILENCE_BYTES + frame_padding(bytes.len() + TAIL_SILENCE_BYTES))
}

/// Appends `count` zero bytes.
pub fn push_zeros(bytes: &mut Vec<u8>, count: usize)
    ensures
        final(bytes)@ == old(bytes)@ + zeros(count as int),
{
    let mut k: usize = 0;
    while k < count
        invariant
            k <= count,
            bytes@ == old(bytes)@ + zeros(k as int),
        decreases count - k,
    {
        bytes.push(0u8);
        k += 1;
        assert(bytes@ =~= old(bytes)@ + zeros(k as int));
    }
    assert(bytes@ =~= old(bytes)@ + zeros(count as int));
}

/// Appends half a second of silence and pads the stream with zero bytes
/// to a multiple of the transport frame size.
pub fn align_frames(bytes: &mut Vec<u8>)
    ensures
        final(bytes)@ == aligned(old(bytes)@),
        final(bytes)@.len() % (FRAME_BYTES as nat) == 0,
        final(bytes)@.len() >= old(bytes)@.len() + TAIL_SILENCE_BYTES,
        final(bytes)@.len() < old(bytes)@.len() + TAIL_SILENCE_BYTES + FRAME_BYTES,
{
    push_zeros(bytes, TAIL_SILENCE_BYTES);
    let remainder: usize = bytes.len() % FRAME_BYTES;
    let padding: usize = if remainder != 0 {
        FRAME_BYTES - remainder
    } else {
        0
    };
    assert(padding == frame_padding(old(bytes)@.len() + TAIL_SILENCE_BYTES));
    push_zeros(bytes, padding);
    assert(bytes@ =~= aligned(old(bytes)@));
}

/// An aligned stream is a whole number of transport frames.
pub proof fn lemma_aligned_is_framed(bytes: Seq<u8>)
    ensures
        aligned(bytes).len() % (FRAME_BYTES as nat) == 0,
        aligned(bytes).len() >= bytes.len() + TAIL_SILENCE_BYTES,
{
    let n = bytes.len() + TAIL_SILENCE_BYTES;
    assert((n + frame_padding(n)) % (FRAME_BYTES as int) == 0);
}

} // verus!

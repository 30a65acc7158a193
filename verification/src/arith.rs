//! Integer arithmetic shared by the stages: division rounded toward zero
//! and saturation to the 32-bit and 16-bit sample ranges.

use vstd::prelude::*;

verus! {

/// The quotient of `a` by a positive `b`, rounded toward zero.
pub open spec fn trunc_div(a: int, b: int) -> int {
    if a >= 0 {
        a / b
    } else {
        -((-a) / b)
    }
}

/// `x` limited to the closed interval from `lo` to `hi`.
pub open spec fn clamp(x: int, lo: int, hi: int) -> int {
    if x < lo {
        lo
    } else if x > hi {
        hi
    } else {
        x
    }
}

/// One whole sample in fine units: the reverb and the stages after it
/// carry values in units of 2^-32 of a sample.
pub const FINE_ONE: i64 = 0x1_0000_0000;

/// `x` limited to the range of a value in fine units.
pub open spec fn sat64(x: int) -> int {
    clamp(x, i64::MIN as int, i64::MAX as int)
}

/// `x` limited to the range of a 16-bit PCM sample.
pub open spec fn clamp16(x: int) -> int {
    clamp(x, i16::MIN as int, i16::MAX as int)
}

/// The magnitude of `x`.
pub open spec fn magnitude(x: int) -> int {
    if x < 0 {
        -x
    } else {
        x
    }
}

/// Limits a wide value to the range of a value in fine units.
pub fn saturate64(x: i128) -> (r: i64)
    ensures
        r == sat64(x as int),
{
    if x < i64::MIN as i128 {
        i64::MIN
    } else if x > i64::MAX as i128 {
        i64::MAX
    } else {
        x as i64
    }
}

/// Limits a wide value to the range of a 16-bit PCM sample.
pub fn saturate16(x: i128) -> (r: i16)
    ensures
        r == clamp16(x as int),
{
    if x < i16::MIN as i128 {
        i16::MIN
    } else if x > i16::MAX as i128 {
        i16::MAX
    } else {
        x as i16
    }
}

/// A quotient rounded toward zero is no larger in magnitude than the
/// dividend.
pub proof fn lemma_trunc_div_shrinks(a: int, b: int)
    requires
        b >= 1,
    ensures
        magnitude(trunc_div(a, b)) <= magnitude(a),
        a >= 0 ==> trunc_div(a, b) >= 0,
        a <= 0 ==> trunc_div(a, b) <= 0,
{
    assert(a >= 0 ==> 0 <= a / b <= a) by (nonlinear_arith)
        requires
            b >= 1,
    ;
    assert(a < 0 ==> 0 <= (-a) / b <= -a) by (nonlinear_arith)
        requires
            b >= 1,
    ;
}

/// Dividing an exact multiple gives the other factor back.
pub proof fn lemma_trunc_div_cancel(x: int, d: int)
    requires
        d >= 1,
    ensures
        trunc_div(x * d, d) == x,
{
    assert(x >= 0 ==> x * d >= 0 && (x * d) / d == x) by (nonlinear_arith)
        requires
            d >= 1,
    ;
    assert(x < 0 ==> x * d < 0 && (-(x * d)) / d == -x) by (nonlinear_arith)
        requires
            d >= 1,
    ;
}

/// Scaling by a weight between zero and the divisor keeps the sign and
/// does not raise the magnitude.
pub proof fn lemma_weighted_shrinks(x: int, w: int, d: int)
    requires
        0 <= w <= d,
        d >= 1,
    ensures
        magnitude(trunc_div(x * w, d)) <= magnitude(x),
        x >= 0 ==> 0 <= trunc_div(x * w, d) <= x,
        x <= 0 ==> x <= trunc_div(x * w, d) <= 0,
{
    assert(x >= 0 ==> x * w >= 0 && (x * w) / d <= x) by (nonlinear_arith)
        requires
            0 <= w <= d,
            d >= 1,
    ;
    assert(x < 0 ==> x * w <= 0 && (-(x * w)) / d <= -x) by (nonlinear_arith)
        requires
            0 <= w <= d,
            d >= 1,
    ;
    if x >= 0 {
        assert(0 <= (x * w) / d) by (nonlinear_arith)
            requires
                x * w >= 0,
                d >= 1,
        ;
    } else {
        assert(0 <= (-(x * w)) / d) by (nonlinear_arith)
            requires
                x * w <= 0,
                d >= 1,
        ;
    }
}

/// A product is bounded by the product of the bounds of its factors.
pub proof fn lemma_product_bound(a: int, b: int, ma: int, mb: int)
    requires
        -ma <= a <= ma,
        -mb <= b <= mb,
    ensures
        -(ma * mb) <= a * b <= ma * mb,
{
    assert(-(ma * mb) <= a * b <= ma * mb) by (nonlinear_arith)
        requires
            -ma <= a <= ma,
            -mb <= b <= mb,
    ;
}

/// Stepping a position by one steps its residue by one, wrapping at the
/// modulus.
pub proof fn lemma_mod_step(q: int, d: int)
    requires
        q >= 0,
        d >= 1,
    ensures
        0 <= q % d < d,
        (q + 1) % d == if q % d + 1 == d {
            0
        } else {
            q % d + 1
        },
{
    assert(0 <= q % d < d && (q + 1) % d == if q % d + 1 == d {
        0
    } else {
        q % d + 1
    }) by (nonlinear_arith)
        requires
            q >= 0,
            d >= 1,
    ;
}

/// A position and the one a whole modulus before it share a residue.
pub proof fn lemma_mod_shift(q: int, d: int)
    requires
        q >= d,
        d >= 1,
    ensures
        (q - d) % d == q % d,
{
    assert((q - d) % d == q % d) by (nonlinear_arith)
        requires
            q >= d,
            d >= 1,
    ;
}

/// Two positions less than a modulus apart have different residues.
pub proof fn lemma_mod_distinct(k: int, q: int, d: int)
    requires
        0 <= k < q,
        q - k < d,
    ensures
        k % d != q % d,
{
    assert(k % d != q % d) by (nonlinear_arith)
        requires
            0 <= k < q,
            q - k < d,
    ;
}

/// A position below the modulus is its own residue.
pub proof fn lemma_mod_small(q: int, d: int)
    requires
        0 <= q < d,
    ensures
        q % d == q,
{
    assert(q % d == q) by (nonlinear_arith)
        requires
            0 <= q < d,
    ;
}

/// An index splits in one way only into a frame and a channel.
pub proof fn lemma_frame_channel_unique(k: int, c: int, q: int, e: int, channels: int)
    requires
        0 <= c < channels,
        0 <= e < channels,
        k * channels + c == q * channels + e,
    ensures
        k == q,
        c == e,
{
    assert(k == q) by (nonlinear_arith)
        requires
            0 <= c < channels,
            0 <= e < channels,
            k * channels + c == q * channels + e,
    ;
    assert(k * channels == q * channels);
}

} // verus!

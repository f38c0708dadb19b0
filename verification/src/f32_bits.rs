//! Single-precision values held by their IEEE-754 encoding.
//!
//! The library keeps a few settings that the drawing side reads as `f32`
//! (layer opacity, playback speed, zoom). It stores each as the 32-bit
//! encoding that `f32::to_bits` gives and `f32::from_bits` reads back, and
//! decides on them through the order that IEEE-754 gives the encoded values:
//! the sign is the top bit, and among values of one sign the magnitude grows
//! with the remaining 31 bits. Zero has two encodings, which compare equal.
//! A NaN compares with nothing.
use vstd::prelude::*;

verus! {

/// Encoding of `0.0`.
pub const ZERO: u32 = 0x0000_0000;

/// Encoding of `1.0`.
pub const ONE: u32 = 0x3F80_0000;

/// The encoding stands for a NaN: every exponent bit set and a nonzero
/// fraction, whatever the sign.
pub open spec fn is_nan(b: u32) -> bool {
    b % 0x8000_0000 > 0x7F80_0000
}

/// Position of an encoded non-NaN value on the number line: values compare
/// as their keys do (both zeros get key 0).
pub open spec fn key(b: u32) -> int {
    if b < 0x8000_0000 { b as int } else { -((b - 0x8000_0000) as int) }
}

/// `a < b` as `f32` comparison gives it: false whenever either is NaN.
pub open spec fn less(a: u32, b: u32) -> bool {
    !is_nan(a) && !is_nan(b) && key(a) < key(b)
}

/// What `f32::clamp(x, lo, hi)` returns, for bounds that are not NaN and in
/// order: `lo` below the interval, `hi` above it, else `x` itself (a NaN
/// too).
pub open spec fn clamped(x: u32, lo: u32, hi: u32) -> u32 {
    if less(x, lo) { lo } else if less(hi, x) { hi } else { x }
}

/// Whether the encoding stands for a NaN.
pub fn nan(b: u32) -> (r: bool)
    ensures
        r == is_nan(b),
{
    b % 0x8000_0000 > 0x7F80_0000
}

/// `a < b` on encoded values.
pub fn lt(a: u32, b: u32) -> (r: bool)
    ensures
        r == less(a, b),
{
    if nan(a) || nan(b) {
        return false;
    }
    let a_neg = a >= 0x8000_0000;
    let b_neg = b >= 0x8000_0000;
    if !a_neg && !b_neg {
        a < b
    } else if a_neg && b_neg {
        b - 0x8000_0000 < a - 0x8000_0000
    } else if a_neg {
        // a <= -0, b >= +0: less unless both are zeros
        !(a == 0x8000_0000 && b == 0)
    } else {
        false
    }
}

/// `f32::clamp` on encoded values.
pub fn clamp(x: u32, lo: u32, hi: u32) -> (r: u32)
    requires
        !is_nan(lo),
        !is_nan(hi),
        key(lo) <= key(hi),
    ensures
        r == clamped(x, lo, hi),
{
    if lt(x, lo) {
        lo
    } else if lt(hi, x) {
        hi
    } else {
        x
    }
}

} // verus!

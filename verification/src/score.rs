//! IEEE-754 single-precision scores carried as their bit patterns.
//!
//! Scores and confidences keep the exact bit pattern of a 32-bit float, so
//! every comparison the analysis pipeline makes can be decided on integers.
//! For any two non-NaN patterns, the order of the floats they encode is the
//! order of their signed magnitudes (`f32_key`); NaN is unordered.
use vstd::prelude::*;

verus! {

/// Bit pattern of the float `1.0`.
pub const ONE_BITS: u32 = 0x3f80_0000;

/// Bit pattern of the float `0.0`.
pub const ZERO_BITS: u32 = 0;

pub open spec fn f32_exponent(bits: u32) -> u32 {
    (bits >> 23u32) & 0xffu32
}

pub open spec fn f32_mantissa(bits: u32) -> u32 {
    bits & 0x7f_ffffu32
}

pub open spec fn f32_magnitude(bits: u32) -> u32 {
    bits & 0x7fff_ffffu32
}

pub open spec fn f32_negative(bits: u32) -> bool {
    (bits & 0x8000_0000u32) != 0
}

pub open spec fn f32_is_finite(bits: u32) -> bool {
    f32_exponent(bits) != 0xff
}

pub open spec fn f32_is_nan(bits: u32) -> bool {
    f32_exponent(bits) == 0xff && f32_mantissa(bits) != 0
}

/// Signed magnitude: the float order on non-NaN values is the integer order on keys.
pub open spec fn f32_key(bits: u32) -> int {
    if f32_negative(bits) {
        -(f32_magnitude(bits) as int)
    } else {
        f32_magnitude(bits) as int
    }
}

/// `a < b` on the floats encoded by `a` and `b`.
pub open spec fn f32_lt(a: u32, b: u32) -> bool {
    !f32_is_nan(a) && !f32_is_nan(b) && f32_key(a) < f32_key(b)
}

/// `a <= b` on the floats encoded by `a` and `b`.
pub open spec fn f32_le(a: u32, b: u32) -> bool {
    !f32_is_nan(a) && !f32_is_nan(b) && f32_key(a) <= f32_key(b)
}

/// A bit pattern no greater than that of `1.0` encodes a finite float in `0.0..=1.0`
/// whose order key is the pattern itself.
pub proof fn lemma_unit_interval_bits(bits: u32)
    requires
        bits <= ONE_BITS,
    ensures
        f32_is_finite(bits),
        !f32_is_nan(bits),
        !f32_negative(bits),
        f32_magnitude(bits) == bits,
        f32_key(bits) == bits as int,
{
    assert(((bits >> 23u32) & 0xffu32) != 0xff) by (bit_vector)
        requires
            bits <= 0x3f80_0000u32,
    ;
    assert((bits & 0x8000_0000u32) == 0) by (bit_vector)
        requires
            bits <= 0x3f80_0000u32,
    ;
    assert((bits & 0x7fff_ffffu32) == bits) by (bit_vector)
        requires
            bits <= 0x3f80_0000u32,
    ;
}

/// The order key of a float bit pattern.
pub fn score_key(bits: u32) -> (r: i64)
    ensures
        r == f32_key(bits),
{
    let magnitude = bits & 0x7fff_ffffu32;
    if (bits & 0x8000_0000u32) != 0 {
        -(magnitude as i64)
    } else {
        magnitude as i64
    }
}

/// Whether a bit pattern encodes NaN.
pub fn score_is_nan(bits: u32) -> (r: bool)
    ensures
        r == f32_is_nan(bits),
{
    ((bits >> 23u32) & 0xffu32) == 0xff && (bits & 0x7f_ffffu32) != 0
}

/// Float `a < b` decided on bit patterns.
pub fn score_lt(a: u32, b: u32) -> (r: bool)
    ensures
        r == f32_lt(a, b),
{
    let a_nan = ((a >> 23u32) & 0xffu32) == 0xff && (a & 0x7f_ffffu32) != 0;
    let b_nan = ((b >> 23u32) & 0xffu32) == 0xff && (b & 0x7f_ffffu32) != 0;
    if a_nan || b_nan {
        return false;
    }
    let a_mag = a & 0x7fff_ffffu32;
    let b_mag = b & 0x7fff_ffffu32;
    let a_neg = (a & 0x8000_0000u32) != 0;
    let b_neg = (b & 0x8000_0000u32) != 0;
    if a_neg {
        if b_neg {
            b_mag < a_mag
        } else {
            a_mag != 0 || b_mag != 0
        }
    } else {
        if b_neg {
            false
        } else {
            a_mag < b_mag
        }
    }
}

/// Float `a <= b` decided on bit patterns.
pub fn score_le(a: u32, b: u32) -> (r: bool)
    ensures
        r == f32_le(a, b),
{
    let a_nan = ((a >> 23u32) & 0xffu32) == 0xff && (a & 0x7f_ffffu32) != 0;
    let b_nan = ((b >> 23u32) & 0xffu32) == 0xff && (b & 0x7f_ffffu32) != 0;
    if a_nan || b_nan {
        return false;
    }
    let a_mag = a & 0x7fff_ffffu32;
    let b_mag = b & 0x7fff_ffffu32;
    let a_neg = (a & 0x8000_0000u32) != 0;
    let b_neg = (b & 0x8000_0000u32) != 0;
    if a_neg {
        if b_neg {
            b_mag <= a_mag
        } else {
            true
        }
    } else {
        if b_neg {
            a_mag == 0 && b_mag == 0
        } else {
            a_mag <= b_mag
        }
    }
}

} // verus!

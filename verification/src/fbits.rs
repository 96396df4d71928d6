//! IEEE-754 single-precision values travel through this library as their raw
//! bit patterns (`u32`), so that comparisons and reductions can be stated and
//! verified as integer logic. Conversion between native floats and bit
//! patterns happens outside the library (`f32::to_bits` / `f32::from_bits`
//! are bijective on bit patterns, so nothing is lost).

use vstd::prelude::*;

verus! {

/// Bit pattern of `+infinity`, the seed of the minimum fold.
pub const POS_INF_BITS: u32 = 0x7F80_0000;

/// Bit pattern of `-infinity`, the seed of the maximum fold.
pub const NEG_INF_BITS: u32 = 0xFF80_0000;

/// Bit pattern of `+0.0`, the default temperature when a capture cannot be
/// decoded.
pub const ZERO_BITS: u32 = 0;

/// Magnitude (absolute-value) part of a bit pattern: everything but the sign.
pub open spec fn spec_mag(b: u32) -> u32 {
    b & 0x7FFF_FFFF
}

/// The sign bit.
pub open spec fn spec_is_neg(b: u32) -> bool {
    b & 0x8000_0000 != 0
}

/// A NaN pattern: exponent all ones, mantissa non-zero.
pub open spec fn spec_is_nan(b: u32) -> bool {
    b & 0x7F80_0000 == 0x7F80_0000 && b & 0x007F_FFFF != 0
}

/// IEEE-754 `<=` on two non-NaN single-precision bit patterns. `-0.0` and
/// `+0.0` compare equal; otherwise negatives order by descending magnitude
/// and non-negatives by ascending magnitude.
pub open spec fn spec_le(a: u32, b: u32) -> bool {
    if spec_mag(a) == 0 && spec_mag(b) == 0 {
        true
    } else if spec_is_neg(a) && !spec_is_neg(b) {
        true
    } else if !spec_is_neg(a) && spec_is_neg(b) {
        false
    } else if !spec_is_neg(a) {
        spec_mag(a) <= spec_mag(b)
    } else {
        spec_mag(b) <= spec_mag(a)
    }
}

/// The minimum of two bit patterns with NaN ignored (a NaN operand yields
/// the other operand); between `-0.0` and `+0.0` the first operand is kept.
pub open spec fn spec_min(a: u32, b: u32) -> u32 {
    if spec_is_nan(a) {
        b
    } else if spec_is_nan(b) {
        a
    } else if spec_le(a, b) {
        a
    } else {
        b
    }
}

/// The maximum of two bit patterns with NaN ignored; between `-0.0` and
/// `+0.0` the first operand is kept.
pub open spec fn spec_max(a: u32, b: u32) -> u32 {
    if spec_is_nan(a) {
        b
    } else if spec_is_nan(b) {
        a
    } else if spec_le(b, a) {
        a
    } else {
        b
    }
}

/// Left fold of `spec_min` over a sequence, seeded at `+infinity` (never at
/// `0` or at the first element, so all-negative data reduces correctly).
pub open spec fn spec_fold_min(s: Seq<u32>) -> u32
    decreases s.len(),
{
    if s.len() == 0 {
        POS_INF_BITS
    } else {
        spec_min(spec_fold_min(s.drop_last()), s.last())
    }
}

/// Left fold of `spec_max` over a sequence, seeded at `-infinity`.
pub open spec fn spec_fold_max(s: Seq<u32>) -> u32
    decreases s.len(),
{
    if s.len() == 0 {
        NEG_INF_BITS
    } else {
        spec_max(spec_fold_max(s.drop_last()), s.last())
    }
}

/// Executable NaN test on a bit pattern.
pub fn bits_is_nan(b: u32) -> (r: bool)
    ensures
        r == spec_is_nan(b),
{
    b & 0x7F80_0000 == 0x7F80_0000 && b & 0x007F_FFFF != 0
}

/// Executable IEEE-754 `<=` on two non-NaN bit patterns.
pub fn bits_le(a: u32, b: u32) -> (r: bool)
    requires
        !spec_is_nan(a),
        !spec_is_nan(b),
    ensures
        r == spec_le(a, b),
{
    let ma: u32 = a & 0x7FFF_FFFF;
    let mb: u32 = b & 0x7FFF_FFFF;
    let na: bool = a & 0x8000_0000 != 0;
    let nb: bool = b & 0x8000_0000 != 0;
    if ma == 0 && mb == 0 {
        true
    } else if na && !nb {
        true
    } else if !na && nb {
        false
    } else if !na {
        ma <= mb
    } else {
        mb <= ma
    }
}

/// Executable minimum with NaN ignored, as `spec_min`.
pub fn bits_min(a: u32, b: u32) -> (r: u32)
    ensures
        r == spec_min(a, b),
{
    if bits_is_nan(a) {
        b
    } else if bits_is_nan(b) {
        a
    } else if bits_le(a, b) {
        a
    } else {
        b
    }
}

/// Executable maximum with NaN ignored, as `spec_max`.
pub fn bits_max(a: u32, b: u32) -> (r: u32)
    ensures
        r == spec_max(a, b),
{
    if bits_is_nan(a) {
        b
    } else if bits_is_nan(b) {
        a
    } else if bits_le(b, a) {
        a
    } else {
        b
    }
}

} // verus!

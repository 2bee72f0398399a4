//! IEEE-754 values held by their bit patterns, together with the comparison
//! rules the library applies to them (the total order of `total_cmp`, the
//! partial order of `<` / `<=`, and finiteness checks).

use vstd::prelude::*;

verus! {

/// An `f32` given by its IEEE-754 bit pattern.
#[derive(Clone, Copy, Debug)]
pub struct Float32(pub u32);

/// An `f64` given by its IEEE-754 bit pattern.
#[derive(Clone, Copy, Debug)]
pub struct Float64(pub u64);

/// The sign bit of an `f32` bit pattern.
pub const F32_SIGN: u32 = 0x8000_0000u32;

/// The bit pattern of positive infinity as an `f32`.
pub const F32_INFINITY: u32 = 0x7F80_0000u32;

/// The sign bit of an `f64` bit pattern.
pub const F64_SIGN: u64 = 0x8000_0000_0000_0000u64;

/// The bit pattern of positive infinity as an `f64`.
pub const F64_INFINITY: u64 = 0x7FF0_0000_0000_0000u64;

/// Position of an `f32` bit pattern in the IEEE-754 total order (the order of
/// `f32::total_cmp`): positive patterns keep their value, negative patterns are
/// mirrored below them, so `-0.0` sits just below `+0.0`.
pub open spec fn total_key32(bits: u32) -> int {
    if bits < F32_SIGN {
        bits as int
    } else {
        0x7FFF_FFFF - bits as int
    }
}

/// Position of an `f64` bit pattern in the IEEE-754 total order (the order of
/// `f64::total_cmp`).
pub open spec fn total_key64(bits: u64) -> int {
    if bits < F64_SIGN {
        bits as int
    } else {
        0x7FFF_FFFF_FFFF_FFFF - bits as int
    }
}

/// The magnitude part (all bits but the sign) of an `f32` bit pattern.
pub open spec fn magnitude32(bits: u32) -> int {
    if bits < F32_SIGN { bits as int } else { bits - F32_SIGN }
}

/// The magnitude part (all bits but the sign) of an `f64` bit pattern.
pub open spec fn magnitude64(bits: u64) -> int {
    if bits < F64_SIGN { bits as int } else { bits - F64_SIGN }
}

/// The `f32` is a NaN: exponent all ones and a non-zero mantissa.
pub open spec fn is_nan32(bits: u32) -> bool {
    magnitude32(bits) > F32_INFINITY
}

/// The `f64` is a NaN: exponent all ones and a non-zero mantissa.
pub open spec fn is_nan64(bits: u64) -> bool {
    magnitude64(bits) > F64_INFINITY
}

/// The `f32` comparison `x >= 0.0`: false for a NaN, true for both zeros and
/// for every positive value.
pub open spec fn at_least_zero32(bits: u32) -> bool {
    !is_nan32(bits) && (bits < F32_SIGN || bits == F32_SIGN)
}

/// The `f64` is `+0.0` or `-0.0`.
pub open spec fn is_zero64(bits: u64) -> bool {
    magnitude64(bits) == 0
}

/// The `f64` comparison `a < b`: false if either side is NaN, and the two
/// zeros compare equal; otherwise the numeric order, which the total order
/// agrees with.
pub open spec fn lt64(a: u64, b: u64) -> bool {
    &&& !is_nan64(a)
    &&& !is_nan64(b)
    &&& !(is_zero64(a) && is_zero64(b))
    &&& total_key64(a) < total_key64(b)
}

/// The `f64` comparison `a <= b`: false if either side is NaN, true for two
/// zeros, otherwise the numeric order.
pub open spec fn le64(a: u64, b: u64) -> bool {
    &&& !is_nan64(a)
    &&& !is_nan64(b)
    &&& (total_key64(a) <= total_key64(b) || (is_zero64(a) && is_zero64(b)))
}

/// The `f64` is strictly greater than zero and finite (neither infinite nor NaN).
pub open spec fn is_positive_finite64(bits: u64) -> bool {
    0 < bits < F64_INFINITY
}

impl Float32 {
    /// The value `0.0`.
    pub fn zero() -> (r: Float32)
        ensures
            r.0 == 0,
    {
        Float32(0)
    }

    /// Position in the IEEE-754 total order; comparing keys compares the
    /// values as `f32::total_cmp` does.
    pub fn total_key(&self) -> (r: i64)
        ensures
            r == total_key32(self.0),
    {
        if self.0 < F32_SIGN {
            self.0 as i64
        } else {
            0x7FFF_FFFFi64 - self.0 as i64
        }
    }

    /// True for a NaN.
    pub fn is_nan(&self) -> (r: bool)
        ensures
            r == is_nan32(self.0),
    {
        let magnitude: u32 = if self.0 < F32_SIGN { self.0 } else { self.0 - F32_SIGN };
        magnitude > F32_INFINITY
    }
}

impl Float64 {
    /// The value `0.0`.
    pub fn zero() -> (r: Float64)
        ensures
            r.0 == 0,
    {
        Float64(0)
    }

    /// Position in the IEEE-754 total order; comparing keys compares the
    /// values as `f64::total_cmp` does.
    pub fn total_key(&self) -> (r: i128)
        ensures
            r == total_key64(self.0),
    {
        if self.0 < F64_SIGN {
            self.0 as i128
        } else {
            0x7FFF_FFFF_FFFF_FFFFi128 - self.0 as i128
        }
    }

    /// True for a NaN.
    pub fn is_nan(&self) -> (r: bool)
        ensures
            r == is_nan64(self.0),
    {
        let magnitude: u64 = if self.0 < F64_SIGN { self.0 } else { self.0 - F64_SIGN };
        magnitude > F64_INFINITY
    }

    /// True for `+0.0` and `-0.0`.
    pub fn is_zero(&self) -> (r: bool)
        ensures
            r == is_zero64(self.0),
    {
        self.0 == 0 || self.0 == F64_SIGN
    }

    /// The comparison `self < other` of the two `f64` values.
    pub fn lt(&self, other: &Float64) -> (r: bool)
        ensures
            r == lt64(self.0, other.0),
    {
        !self.is_nan() && !other.is_nan() && !(self.is_zero() && other.is_zero())
            && self.total_key() < other.total_key()
    }

    /// The comparison `self <= other` of the two `f64` values.
    pub fn le(&self, other: &Float64) -> (r: bool)
        ensures
            r == le64(self.0, other.0),
    {
        !self.is_nan() && !other.is_nan() && (self.total_key() <= other.total_key() || (
        self.is_zero() && other.is_zero()))
    }

    /// True when the value is greater than zero and finite.
    pub fn is_positive_finite(&self) -> (r: bool)
        ensures
            r == is_positive_finite64(self.0),
    {
        0 < self.0 && self.0 < F64_INFINITY
    }
}

/// Distinct `f32` bit patterns have distinct places in the total order, and
/// the order keys lie in the range of `i32`.
pub proof fn lemma_total_key32_injective(a: u32, b: u32)
    ensures
        total_key32(a) == total_key32(b) <==> a == b,
        i32::MIN <= total_key32(a) <= i32::MAX,
{
}

/// Distinct `f64` bit patterns have distinct places in the total order, and
/// the order keys lie in the range of `i64`.
pub proof fn lemma_total_key64_injective(a: u64, b: u64)
    ensures
        total_key64(a) == total_key64(b) <==> a == b,
        i64::MIN <= total_key64(a) <= i64::MAX,
{
}

/// The sign bit of an `f32` pattern is its top bit, and the magnitude is the
/// pattern with that bit masked off.
proof fn lemma_fields32(b: u32)
    ensures
        (b < F32_SIGN) == (b >> 31u32 == 0u32),
        magnitude32(b) == (b & 0x7FFF_FFFFu32) as int,
{
    assert((b < 0x8000_0000u32) == (b >> 31u32 == 0u32)) by (bit_vector);
    assert(b < 0x8000_0000u32 ==> b & 0x7FFF_FFFFu32 == b) by (bit_vector);
    assert(b >= 0x8000_0000u32 ==> (b & 0x7FFF_FFFFu32) as int == b as int - 0x8000_0000int) by (bit_vector);
}

/// The sign bit of an `f64` pattern is its top bit, and the magnitude is the
/// pattern with that bit masked off.
proof fn lemma_fields64(b: u64)
    ensures
        (b < F64_SIGN) == (b >> 63u64 == 0u64),
        magnitude64(b) == (b & 0x7FFF_FFFF_FFFF_FFFFu64) as int,
{
    assert((b < 0x8000_0000_0000_0000u64) == (b >> 63u64 == 0u64)) by (bit_vector);
    assert(b < 0x8000_0000_0000_0000u64 ==> b & 0x7FFF_FFFF_FFFF_FFFFu64 == b) by (bit_vector);
    assert(b >= 0x8000_0000_0000_0000u64 ==> (b & 0x7FFF_FFFF_FFFF_FFFFu64) as int == b as int
        - 0x8000_0000_0000_0000int) by (bit_vector);
}

/// An `f32` is a NaN exactly when its exponent field is all ones and its
/// mantissa field is not zero (IEEE-754 binary32).
pub proof fn lemma_is_nan32_fields(b: u32)
    ensures
        is_nan32(b) <==> ((b & 0x7F80_0000u32) == 0x7F80_0000u32 && (b & 0x007F_FFFFu32) != 0u32),
{
    lemma_fields32(b);
    assert(((b & 0x7F80_0000u32) == 0x7F80_0000u32 && (b & 0x007F_FFFFu32) != 0u32) <==> (b
        & 0x7FFF_FFFFu32) > 0x7F80_0000u32) by (bit_vector);
}

/// An `f64` is a NaN exactly when its exponent field is all ones and its
/// mantissa field is not zero (IEEE-754 binary64).
pub proof fn lemma_is_nan64_fields(b: u64)
    ensures
        is_nan64(b) <==> ((b & 0x7FF0_0000_0000_0000u64) == 0x7FF0_0000_0000_0000u64 && (b
            & 0x000F_FFFF_FFFF_FFFFu64) != 0u64),
{
    lemma_fields64(b);
    assert(((b & 0x7FF0_0000_0000_0000u64) == 0x7FF0_0000_0000_0000u64 && (b
        & 0x000F_FFFF_FFFF_FFFFu64) != 0u64) <==> (b & 0x7FFF_FFFF_FFFF_FFFFu64)
        > 0x7FF0_0000_0000_0000u64) by (bit_vector);
}

/// An `f64` is zero exactly when every bit but the sign bit is clear.
pub proof fn lemma_is_zero64_fields(b: u64)
    ensures
        is_zero64(b) <==> (b & 0x7FFF_FFFF_FFFF_FFFFu64) == 0u64,
        is_zero64(b) <==> (b == 0u64 || b == F64_SIGN),
{
    lemma_fields64(b);
}

/// An `f64` is finite and greater than zero exactly when its sign bit is
/// clear, it is not `+0.0`, and its exponent field is not all ones.
pub proof fn lemma_is_positive_finite64_fields(b: u64)
    ensures
        is_positive_finite64(b) <==> (b >> 63u64 == 0u64 && b != 0u64 && (b >> 52u64) != 0x7FFu64),
{
    assert((0u64 < b && b < 0x7FF0_0000_0000_0000u64) <==> (b >> 63u64 == 0u64 && b != 0u64 && (b
        >> 52u64) != 0x7FFu64)) by (bit_vector);
}

/// `x >= 0.0` on an `f32` holds exactly for `-0.0` and for the patterns with
/// a clear sign bit that are not NaN.
pub proof fn lemma_at_least_zero32_fields(b: u32)
    ensures
        at_least_zero32(b) <==> (b == 0x8000_0000u32 || (b >> 31u32 == 0u32 && !((b & 0x7F80_0000u32)
            == 0x7F80_0000u32 && (b & 0x007F_FFFFu32) != 0u32))),
{
    lemma_fields32(b);
    lemma_is_nan32_fields(b);
}

/// The total order of `f32::total_cmp`: among patterns with a clear sign bit
/// a larger pattern is a larger value, among patterns with the sign bit set a
/// larger pattern is a smaller value, and every negative pattern comes before
/// every positive one.
pub proof fn lemma_total_key32_order(a: u32, b: u32)
    ensures
        a < b && b >> 31u32 == 0u32 ==> total_key32(a) < total_key32(b),
        a < b && a >> 31u32 == 1u32 ==> total_key32(b) < total_key32(a),
        a >> 31u32 == 1u32 && b >> 31u32 == 0u32 ==> total_key32(a) < total_key32(b),
{
    lemma_fields32(a);
    lemma_fields32(b);
    assert(a >> 31u32 == 0u32 || a >> 31u32 == 1u32) by (bit_vector);
}

/// The total order of `f64::total_cmp`: among patterns with a clear sign bit
/// a larger pattern is a larger value, among patterns with the sign bit set a
/// larger pattern is a smaller value, and every negative pattern comes before
/// every positive one.
pub proof fn lemma_total_key64_order(a: u64, b: u64)
    ensures
        a < b && b >> 63u64 == 0u64 ==> total_key64(a) < total_key64(b),
        a < b && a >> 63u64 == 1u64 ==> total_key64(b) < total_key64(a),
        a >> 63u64 == 1u64 && b >> 63u64 == 0u64 ==> total_key64(a) < total_key64(b),
{
    lemma_fields64(a);
    lemma_fields64(b);
    assert(a >> 63u64 == 0u64 || a >> 63u64 == 1u64) by (bit_vector);
}

/// `a < b` on `f64` values, by sign and magnitude: false when either is NaN;
/// for two non-negative patterns the larger pattern is larger; for two
/// negative patterns the larger magnitude is smaller; a negative value is
/// below a non-negative one unless both are zeros.
pub proof fn lemma_lt64_fields(a: u64, b: u64)
    ensures
        lt64(a, b) <==> {
            let nan_a = (a & 0x7FF0_0000_0000_0000u64) == 0x7FF0_0000_0000_0000u64 && (a
                & 0x000F_FFFF_FFFF_FFFFu64) != 0u64;
            let nan_b = (b & 0x7FF0_0000_0000_0000u64) == 0x7FF0_0000_0000_0000u64 && (b
                & 0x000F_FFFF_FFFF_FFFFu64) != 0u64;
            let mag_a = a & 0x7FFF_FFFF_FFFF_FFFFu64;
            let mag_b = b & 0x7FFF_FFFF_FFFF_FFFFu64;
            &&& !nan_a
            &&& !nan_b
            &&& if a >> 63u64 == 0u64 && b >> 63u64 == 0u64 {
                a < b
            } else if a >> 63u64 != 0u64 && b >> 63u64 != 0u64 {
                mag_b < mag_a
            } else if a >> 63u64 != 0u64 {
                !(mag_a == 0u64 && b == 0u64)
            } else {
                false
            }
        },
{
    lemma_fields64(a);
    lemma_fields64(b);
    lemma_is_nan64_fields(a);
    lemma_is_nan64_fields(b);
}

/// `a <= b` on `f64` values, by sign and magnitude: false when either is NaN;
/// for two non-negative patterns the larger pattern is larger; for two
/// negative patterns the larger magnitude is smaller; a negative value is
/// below a non-negative one, and `0.0 <= -0.0`.
pub proof fn lemma_le64_fields(a: u64, b: u64)
    ensures
        le64(a, b) <==> {
            let nan_a = (a & 0x7FF0_0000_0000_0000u64) == 0x7FF0_0000_0000_0000u64 && (a
                & 0x000F_FFFF_FFFF_FFFFu64) != 0u64;
            let nan_b = (b & 0x7FF0_0000_0000_0000u64) == 0x7FF0_0000_0000_0000u64 && (b
                & 0x000F_FFFF_FFFF_FFFFu64) != 0u64;
            let mag_a = a & 0x7FFF_FFFF_FFFF_FFFFu64;
            let mag_b = b & 0x7FFF_FFFF_FFFF_FFFFu64;
            &&& !nan_a
            &&& !nan_b
            &&& if a >> 63u64 == 0u64 && b >> 63u64 == 0u64 {
                a <= b
            } else if a >> 63u64 != 0u64 && b >> 63u64 != 0u64 {
                mag_b <= mag_a
            } else if a >> 63u64 != 0u64 {
                true
            } else {
                a == 0u64 && mag_b == 0u64
            }
        },
{
    lemma_fields64(a);
    lemma_fields64(b);
    lemma_is_nan64_fields(a);
    lemma_is_nan64_fields(b);
}

} // verus!

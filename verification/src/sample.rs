//! Audio samples, probabilities and gains as IEEE 754 binary32 bit patterns.
//!
//! The pipeline moves samples around without doing arithmetic on them, so it holds them as
//! bit patterns; callers convert with `to_bits` and `from_bits`. The only questions it asks
//! of a value are how it compares with another one and whether it is finite, and those are
//! answered here on the bits.

use vstd::prelude::*;

verus! {

/// The bit pattern of one binary32 value.
pub type Sample = u32;

/// Bit pattern of `0.0`.
pub const ZERO: Sample = 0;

/// Bit pattern of `1.0`.
pub const ONE: Sample = 0x3f80_0000;

/// Bit pattern of positive infinity; every larger magnitude is a NaN.
pub const INFINITY: Sample = 0x7f80_0000;

/// The sign bit.
pub const SIGN: Sample = 0x8000_0000;

/// The pattern without its sign bit, as a number. Within one sign the order of the
/// magnitudes is the order of the values.
pub open spec fn magnitude(s: Sample) -> int {
    if s < SIGN {
        s as int
    } else {
        s - SIGN
    }
}

/// Whether `s` is a NaN.
pub open spec fn is_nan(s: Sample) -> bool {
    magnitude(s) > INFINITY
}

/// Whether `s` is neither a NaN nor an infinity.
pub open spec fn is_finite(s: Sample) -> bool {
    magnitude(s) < INFINITY
}

/// An integer that orders the values that are no NaN: two such values compare as their
/// ranks do, and both zeros have rank 0.
pub open spec fn rank(s: Sample) -> int {
    if s < SIGN {
        magnitude(s)
    } else {
        -magnitude(s)
    }
}

/// `a >= b` on values: false where either is a NaN.
pub open spec fn ge_value(a: Sample, b: Sample) -> bool {
    !is_nan(a) && !is_nan(b) && rank(a) >= rank(b)
}

/// `a < b` on values: false where either is a NaN.
pub open spec fn lt_value(a: Sample, b: Sample) -> bool {
    !is_nan(a) && !is_nan(b) && rank(a) < rank(b)
}

/// `a == b` on values: the two zeros are equal, and a NaN equals nothing.
pub open spec fn eq_value(a: Sample, b: Sample) -> bool {
    !is_nan(a) && !is_nan(b) && rank(a) == rank(b)
}

fn magnitude_of(s: Sample) -> (m: u32)
    ensures
        m == magnitude(s),
        m < SIGN,
{
    if s < SIGN {
        s
    } else {
        s - SIGN
    }
}

fn rank_of(s: Sample) -> (r: i64)
    ensures
        r == rank(s),
{
    if s < SIGN {
        s as i64
    } else {
        -((s - SIGN) as i64)
    }
}

/// Whether the value is finite.
pub fn finite(s: Sample) -> (r: bool)
    ensures
        r == is_finite(s),
{
    magnitude_of(s) < INFINITY
}

/// Whether the value is a NaN.
pub fn nan(s: Sample) -> (r: bool)
    ensures
        r == is_nan(s),
{
    magnitude_of(s) > INFINITY
}

/// `a >= b` on values.
pub fn at_least(a: Sample, b: Sample) -> (r: bool)
    ensures
        r == ge_value(a, b),
{
    !nan(a) && !nan(b) && rank_of(a) >= rank_of(b)
}

/// `a < b` on values.
pub fn below(a: Sample, b: Sample) -> (r: bool)
    ensures
        r == lt_value(a, b),
{
    !nan(a) && !nan(b) && rank_of(a) < rank_of(b)
}

/// `a == b` on values.
pub fn equal(a: Sample, b: Sample) -> (r: bool)
    ensures
        r == eq_value(a, b),
{
    !nan(a) && !nan(b) && rank_of(a) == rank_of(b)
}

/// The absolute value: the sign bit cleared.
pub fn absolute(s: Sample) -> (r: Sample)
    ensures
        r == magnitude(s),
{
    magnitude_of(s)
}

/// Of two values that are no NaN exactly one of `<`, `==`, `>` holds; with a NaN none does.
pub proof fn lemma_trichotomy(a: Sample, b: Sample)
    ensures
        (!is_nan(a) && !is_nan(b)) ==> (lt_value(a, b) || eq_value(a, b) || lt_value(b, a)),
        !(lt_value(a, b) && eq_value(a, b)),
        !(lt_value(a, b) && lt_value(b, a)),
        ge_value(a, b) == (eq_value(a, b) || lt_value(b, a)),
        (is_nan(a) || is_nan(b)) ==> !lt_value(a, b) && !eq_value(a, b) && !ge_value(a, b),
{
}

/// Values compare as their patterns say: positive ones as the patterns do, negative ones the
/// other way round, a negative one is below a positive one, the two zeros are equal, and what
/// lies beyond infinity compares with nothing.
pub proof fn lemma_values_compare_as_numbers(a: Sample, b: Sample)
    ensures
        a <= 0x7f80_0000 && b <= 0x7f80_0000 ==> (ge_value(a, b) <==> a >= b) && (lt_value(a, b)
            <==> a < b) && (eq_value(a, b) <==> a == b),
        0x8000_0000 <= a <= 0xff80_0000 && 0x8000_0000 <= b <= 0xff80_0000 ==> (ge_value(a, b)
            <==> a <= b) && (lt_value(a, b) <==> a > b) && (eq_value(a, b) <==> a == b),
        0x8000_0000 < a <= 0xff80_0000 && b <= 0x7f80_0000 ==> lt_value(a, b) && ge_value(b, a)
            && !ge_value(a, b) && !eq_value(a, b),
        eq_value(0, 0x8000_0000) && eq_value(0x8000_0000, 0),
        0x7f80_0000 < a < 0x8000_0000 || 0xff80_0000 < a ==> is_nan(a) && !ge_value(a, b)
            && !lt_value(a, b) && !eq_value(a, b) && !ge_value(b, a) && !lt_value(b, a),
        is_finite(a) <==> a < 0x7f80_0000 || 0x8000_0000 <= a < 0xff80_0000,
        a < 0x8000_0000 ==> magnitude(a) == a,
        a >= 0x8000_0000 ==> magnitude(a) == a - 0x8000_0000,
{
}

} // verus!

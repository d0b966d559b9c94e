//! IEEE 754 binary64 values by their bit patterns: classification and order.

use vstd::prelude::*;

verus! {

/// The lowest bit pattern with the sign bit set (that of `-0.0`).
pub const SIGN_BIT: u64 = 0x8000_0000_0000_0000;

/// The bit pattern of positive infinity.
pub const INFINITY: u64 = 0x7FF0_0000_0000_0000;

/// The bit pattern of `1.0`.
pub const ONE: u64 = 0x3FF0_0000_0000_0000;

/// Whether the sign bit of `bits` is set.
pub open spec fn spec_has_sign(bits: u64) -> bool {
    bits >= SIGN_BIT
}

/// The bit pattern of the absolute value: `bits` with the sign bit cleared.
pub open spec fn spec_magnitude(bits: u64) -> u64 {
    if bits >= SIGN_BIT {
        (bits - SIGN_BIT) as u64
    } else {
        bits
    }
}

/// Whether `bits` is a NaN.
pub open spec fn spec_is_nan(bits: u64) -> bool {
    spec_magnitude(bits) > INFINITY
}

/// Whether `bits` is neither a NaN nor an infinity.
pub open spec fn spec_is_finite(bits: u64) -> bool {
    spec_magnitude(bits) < INFINITY
}

/// Whether `bits` is `+0.0` or `-0.0`.
pub open spec fn spec_is_zero(bits: u64) -> bool {
    spec_magnitude(bits) == 0
}

/// The IEEE 754 comparison `a < b`: false when either side is a NaN, and the
/// two zeros are equal.
pub open spec fn spec_less_than(a: u64, b: u64) -> bool {
    &&& !spec_is_nan(a)
    &&& !spec_is_nan(b)
    &&& if spec_has_sign(a) {
        if spec_has_sign(b) {
            spec_magnitude(b) < spec_magnitude(a)
        } else {
            !(spec_is_zero(a) && spec_is_zero(b))
        }
    } else {
        !spec_has_sign(b) && a < b
    }
}

/// The IEEE 754 comparison `a <= b`.
pub open spec fn spec_at_most(a: u64, b: u64) -> bool {
    !spec_is_nan(a) && !spec_is_nan(b) && !spec_less_than(b, a)
}

/// Whether the sign bit of `bits` is set.
#[verifier::when_used_as_spec(spec_has_sign)]
pub fn has_sign(bits: u64) -> (r: bool)
    ensures
        r == spec_has_sign(bits),
{
    bits >= SIGN_BIT
}

/// The bit pattern of the absolute value.
#[verifier::when_used_as_spec(spec_magnitude)]
pub fn magnitude(bits: u64) -> (r: u64)
    ensures
        r == spec_magnitude(bits),
{
    if bits >= SIGN_BIT {
        bits - SIGN_BIT
    } else {
        bits
    }
}

/// Whether `bits` is a NaN.
#[verifier::when_used_as_spec(spec_is_nan)]
pub fn is_nan(bits: u64) -> (r: bool)
    ensures
        r == spec_is_nan(bits),
{
    magnitude(bits) > INFINITY
}

/// Whether `bits` is neither a NaN nor an infinity.
#[verifier::when_used_as_spec(spec_is_finite)]
pub fn is_finite(bits: u64) -> (r: bool)
    ensures
        r == spec_is_finite(bits),
{
    magnitude(bits) < INFINITY
}

/// Whether `bits` is one of the two zeros.
#[verifier::when_used_as_spec(spec_is_zero)]
pub fn is_zero(bits: u64) -> (r: bool)
    ensures
        r == spec_is_zero(bits),
{
    magnitude(bits) == 0
}

/// Whether the number `a` is below the number `b`.
#[verifier::when_used_as_spec(spec_less_than)]
pub fn less_than(a: u64, b: u64) -> (r: bool)
    ensures
        r == spec_less_than(a, b),
{
    if is_nan(a) || is_nan(b) {
        false
    } else if has_sign(a) {
        if has_sign(b) {
            magnitude(b) < magnitude(a)
        } else {
            !(is_zero(a) && is_zero(b))
        }
    } else {
        !has_sign(b) && a < b
    }
}

/// Whether the number `a` is below or equal to the number `b`.
#[verifier::when_used_as_spec(spec_at_most)]
pub fn at_most(a: u64, b: u64) -> (r: bool)
    ensures
        r == spec_at_most(a, b),
{
    !is_nan(a) && !is_nan(b) && !less_than(b, a)
}

/// `<` is transitive.
pub proof fn lemma_less_than_transitive(a: u64, b: u64, c: u64)
    requires
        less_than(a, b),
        less_than(b, c),
    ensures
        less_than(a, c),
{
}

/// `<` is irreflexive and asymmetric.
pub proof fn lemma_less_than_asymmetric(a: u64, b: u64)
    requires
        less_than(a, b),
    ensures
        !less_than(b, a),
        a != b,
{
}

} // verus!

use vstd::prelude::*;

verus! {

/// The bit that holds the sign of a 32-bit float.
pub const SIGN_BIT: u32 = 0x8000_0000;

/// The bit pattern of positive infinity: patterns with a greater magnitude
/// are not numbers.
pub const INFINITY: u32 = 0x7f80_0000;

/// The bit pattern without its sign.
pub open spec fn magnitude(bits: u32) -> int {
    bits as int % 0x8000_0000
}

/// Whether the sign bit of the pattern is set.
pub open spec fn is_negative(bits: u32) -> bool {
    bits >= SIGN_BIT
}

/// Whether the pattern is a NaN.
pub open spec fn is_nan(bits: u32) -> bool {
    magnitude(bits) > INFINITY
}

/// Where the number of a pattern that is no NaN stands among the others: the
/// numbers grow with the magnitude of their pattern, negative ones downwards,
/// and both zeros stand at 0.
pub open spec fn rank(bits: u32) -> int {
    if is_negative(bits) {
        -magnitude(bits)
    } else {
        magnitude(bits)
    }
}

/// `a > b` for the 32-bit floats with these bit patterns: false where either
/// is a NaN.
pub open spec fn gt(a: u32, b: u32) -> bool {
    !is_nan(a) && !is_nan(b) && rank(a) > rank(b)
}

/// Whether the float with pattern `a` is greater than the one with pattern `b`.
pub fn greater(a: u32, b: u32) -> (r: bool)
    ensures
        r == gt(a, b),
{
    let mag_a: u32 = a % SIGN_BIT;
    let mag_b: u32 = b % SIGN_BIT;
    if mag_a > INFINITY || mag_b > INFINITY {
        return false;
    }
    if a >= SIGN_BIT {
        b >= SIGN_BIT && mag_a < mag_b
    } else if b >= SIGN_BIT {
        mag_a > 0 || mag_b > 0
    } else {
        mag_a > mag_b
    }
}

} // verus!

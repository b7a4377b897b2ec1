//! Single-precision distances as bit patterns.
//!
//! A distance is carried as the 32 bits of an IEEE 754 binary32 value. Their
//! order is decided on the bits: the sign bit, then the magnitude, with the
//! two zeros equal and every NaN unordered.

use vstd::prelude::*;

verus! {

/// The sign bit; alone it is negative zero.
pub const SIGN_BIT: u32 = 0x8000_0000;

/// Positive infinity. A larger magnitude is a NaN.
pub const INFINITY: u32 = 0x7f80_0000;

/// Negative infinity.
pub const NEG_INFINITY: u32 = 0xff80_0000;

/// Positive zero.
pub const ZERO: u32 = 0;

/// The bits without the sign.
pub open spec fn magnitude(bits: u32) -> int {
    if bits >= SIGN_BIT {
        bits - SIGN_BIT
    } else {
        bits as int
    }
}

/// Whether the sign bit is set.
pub open spec fn is_negative(bits: u32) -> bool {
    bits >= SIGN_BIT
}

/// Whether the bits are a NaN of either sign.
pub open spec fn is_nan(bits: u32) -> bool {
    magnitude(bits) > INFINITY
}

/// Where a value stands on the number line: values that are not NaN are
/// ordered as the numbers they encode, both zeros at 0, and every NaN stands
/// just above positive infinity.
pub open spec fn order_key(bits: u32) -> int {
    if is_nan(bits) {
        INFINITY + 1
    } else if is_negative(bits) {
        -magnitude(bits)
    } else {
        magnitude(bits)
    }
}

/// The floating point comparison `a < b`: false when either side is a NaN.
pub open spec fn less_than(a: u32, b: u32) -> bool {
    !is_nan(a) && !is_nan(b) && order_key(a) < order_key(b)
}

/// The larger of two values where a NaN yields to the other side and `a`
/// stays when neither is less than the other.
pub open spec fn larger(a: u32, b: u32) -> u32 {
    if is_nan(a) {
        b
    } else if less_than(a, b) {
        b
    } else {
        a
    }
}

/// Tells whether `bits` is a NaN.
pub fn nan(bits: u32) -> (r: bool)
    ensures
        r == is_nan(bits),
{
    let m: u32 = if bits >= SIGN_BIT {
        bits - SIGN_BIT
    } else {
        bits
    };
    m > INFINITY
}

/// Computes the place of `bits` in the order.
pub fn key(bits: u32) -> (k: i64)
    ensures
        k == order_key(bits),
{
    let negative: bool = bits >= SIGN_BIT;
    let m: u32 = if negative {
        bits - SIGN_BIT
    } else {
        bits
    };
    if m > INFINITY {
        INFINITY as i64 + 1
    } else if negative {
        -(m as i64)
    } else {
        m as i64
    }
}

/// Compares two distances as floating point `<` does.
pub fn lt(a: u32, b: u32) -> (r: bool)
    ensures
        r == less_than(a, b),
{
    !nan(a) && !nan(b) && key(a) < key(b)
}

/// Returns the larger of two distances, passing over a NaN.
pub fn max(a: u32, b: u32) -> (m: u32)
    ensures
        m == larger(a, b),
{
    if nan(a) {
        b
    } else if lt(a, b) {
        b
    } else {
        a
    }
}

} // verus!

//! Binary64 floating-point values carried as their IEEE 754 bit patterns, and their order.

use vstd::prelude::*;

verus! {

/// The sign bit of a binary64 pattern.
pub const SIGN_BIT: u64 = 0x8000_0000_0000_0000;

/// The pattern of positive infinity; magnitudes above it are NaN.
pub const INFINITY_BITS: u64 = 0x7ff0_0000_0000_0000;

/// Whether the pattern `b` encodes NaN.
pub open spec fn is_nan(b: u64) -> bool {
    magnitude(b) > INFINITY_BITS
}

/// The pattern `b` without its sign bit.
pub open spec fn magnitude(b: u64) -> int {
    if b >= SIGN_BIT {
        b - SIGN_BIT
    } else {
        b as int
    }
}

/// An integer that orders non-NaN patterns as their values are ordered; both zeros map to 0.
pub open spec fn order_key(b: u64) -> int {
    if b >= SIGN_BIT {
        -magnitude(b)
    } else {
        b as int
    }
}

/// `a < b` on the encoded values (false when either is NaN).
pub open spec fn value_lt(a: u64, b: u64) -> bool {
    !is_nan(a) && !is_nan(b) && order_key(a) < order_key(b)
}

/// `a == b` on the encoded values (false when either is NaN; the two zeros are equal).
pub open spec fn value_eq(a: u64, b: u64) -> bool {
    !is_nan(a) && !is_nan(b) && order_key(a) == order_key(b)
}

/// `a >= b` on the encoded values (false when either is NaN).
pub open spec fn value_ge(a: u64, b: u64) -> bool {
    !is_nan(a) && !is_nan(b) && order_key(a) >= order_key(b)
}

fn nan_bits(b: u64) -> (r: bool)
    ensures
        r == is_nan(b),
{
    if b >= SIGN_BIT {
        b - SIGN_BIT > INFINITY_BITS
    } else {
        b > INFINITY_BITS
    }
}

/// `a < b` on the values that the patterns encode.
pub fn lt_bits(a: u64, b: u64) -> (r: bool)
    ensures
        r == value_lt(a, b),
{
    if nan_bits(a) || nan_bits(b) {
        return false;
    }
    let a_neg = a >= SIGN_BIT;
    let b_neg = b >= SIGN_BIT;
    if a_neg && b_neg {
        a > b
    } else if a_neg {
        !(a == SIGN_BIT && b == 0)
    } else if b_neg {
        false
    } else {
        a < b
    }
}

/// `a == b` on the values that the patterns encode.
pub fn eq_bits(a: u64, b: u64) -> (r: bool)
    ensures
        r == value_eq(a, b),
{
    !nan_bits(a) && !nan_bits(b) && !lt_bits(a, b) && !lt_bits(b, a)
}

/// `a >= b` on the values that the patterns encode.
pub fn ge_bits(a: u64, b: u64) -> (r: bool)
    ensures
        r == value_ge(a, b),
{
    !nan_bits(a) && !nan_bits(b) && !lt_bits(a, b)
}

} // verus!

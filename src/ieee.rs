//! Ordering of IEEE-754 double-precision values given by their bit patterns.
//!
//! Depths and ray parameters reach the library as the `u64` bits of an `f64`
//! (`f64::to_bits`). The functions here compare such bit patterns exactly as
//! the hardware compares the doubles: a NaN is unordered, and `-0.0 == +0.0`.
use vstd::prelude::*;

verus! {

/// The sign bit of a double.
pub const SIGN_BIT: u64 = 0x8000_0000_0000_0000;

/// The bits of `f64::INFINITY`.
pub const INFINITY_BITS: u64 = 0x7FF0_0000_0000_0000;

/// The bits of `0.0`.
pub const ZERO_BITS: u64 = 0;

/// The bits without the sign: the magnitude of the value, as an ordered integer.
pub open spec fn magnitude(b: u64) -> int {
    if b >= SIGN_BIT {
        b - SIGN_BIT
    } else {
        b as int
    }
}

/// True when `b` encodes a NaN: all exponent bits set and a non-zero fraction.
pub open spec fn is_nan(b: u64) -> bool {
    magnitude(b) > INFINITY_BITS
}

/// The position of a non-NaN double on the number line: the magnitude,
/// negated for a negative sign. Both zeros sit at `0`.
pub open spec fn ordinal(b: u64) -> int {
    if b >= SIGN_BIT {
        -magnitude(b)
    } else {
        magnitude(b)
    }
}

/// `a < b` on doubles.
pub open spec fn f64_lt(a: u64, b: u64) -> bool {
    !is_nan(a) && !is_nan(b) && ordinal(a) < ordinal(b)
}

/// `a <= b` on doubles.
pub open spec fn f64_le(a: u64, b: u64) -> bool {
    !is_nan(a) && !is_nan(b) && ordinal(a) <= ordinal(b)
}

/// Whether `b` encodes a NaN.
pub fn nan(b: u64) -> (r: bool)
    ensures
        r == is_nan(b),
{
    let m: u64 = if b >= SIGN_BIT { b - SIGN_BIT } else { b };
    m > INFINITY_BITS
}

/// `a < b` on the doubles that `a` and `b` encode.
pub fn less_than(a: u64, b: u64) -> (r: bool)
    ensures
        r == f64_lt(a, b),
{
    if nan(a) || nan(b) {
        return false;
    }
    let negative_a = a >= SIGN_BIT;
    let negative_b = b >= SIGN_BIT;
    let ma: u64 = if negative_a { a - SIGN_BIT } else { a };
    let mb: u64 = if negative_b { b - SIGN_BIT } else { b };
    if !negative_a && !negative_b {
        ma < mb
    } else if negative_a && negative_b {
        mb < ma
    } else if negative_a {
        ma > 0 || mb > 0
    } else {
        false
    }
}

/// `a <= b` on the doubles that `a` and `b` encode.
pub fn less_or_equal(a: u64, b: u64) -> (r: bool)
    ensures
        r == f64_le(a, b),
{
    if nan(a) || nan(b) {
        return false;
    }
    !less_than(b, a)
}

} // verus!

//! Single-precision numbers held by their IEEE-754 bit patterns.
//!
//! Audio samples, widget values and levels travel through this library as bit
//! patterns. The order of the numbers can be read off the patterns with integer
//! arithmetic alone, so every decision that only *orders* numbers is made here;
//! sums, products and logarithms are computed by the caller.
use vstd::prelude::*;

verus! {

/// A single-precision number, as the caller's `to_bits` gives it.
pub type Bits = u32;

/// The bit pattern of `0.0`.
pub const ZERO: u32 = 0;

/// The bit pattern of `1.0`.
pub const ONE: u32 = 0x3f80_0000;

/// The bit pattern of positive infinity: the largest magnitude of a number.
pub const INFINITY: u32 = 0x7f80_0000;

/// The sign bit.
pub const SIGN: u32 = 0x8000_0000;

/// The pattern without its sign bit, as a number.
pub open spec fn magnitude(a: Bits) -> int {
    if a >= SIGN {
        a - SIGN
    } else {
        a as int
    }
}

/// Whether the pattern stands for no number at all.
pub open spec fn nan(a: Bits) -> bool {
    magnitude(a) > INFINITY
}

/// Whether the pattern stands for a number other than the two infinities.
pub open spec fn finite(a: Bits) -> bool {
    magnitude(a) < INFINITY
}

/// The place of a number among all numbers; both zeros have place 0.
pub open spec fn rank(a: Bits) -> int {
    if a >= SIGN {
        -magnitude(a)
    } else {
        magnitude(a)
    }
}

/// `a < b` on the numbers.
pub open spec fn lt(a: Bits, b: Bits) -> bool {
    !nan(a) && !nan(b) && rank(a) < rank(b)
}

/// `a <= b` on the numbers.
pub open spec fn le(a: Bits, b: Bits) -> bool {
    !nan(a) && !nan(b) && rank(a) <= rank(b)
}

/// `a == b` on the numbers.
pub open spec fn same(a: Bits, b: Bits) -> bool {
    !nan(a) && !nan(b) && rank(a) == rank(b)
}

/// `value` moved into `low..=high`; what is no number stays as it is.
pub open spec fn clamped(value: Bits, low: Bits, high: Bits) -> Bits {
    if lt(value, low) {
        low
    } else if lt(high, value) {
        high
    } else {
        value
    }
}

/// The smaller of the two; where one is no number, the other.
pub open spec fn smaller(a: Bits, b: Bits) -> Bits {
    if nan(a) || lt(b, a) {
        b
    } else {
        a
    }
}

/// The larger of the two; where one is no number, the other.
pub open spec fn larger(a: Bits, b: Bits) -> Bits {
    if nan(a) || lt(a, b) {
        b
    } else {
        a
    }
}

/// Whether the pattern stands for no number at all.
pub fn is_nan(a: Bits) -> (r: bool)
    ensures
        r == nan(a),
{
    if a >= SIGN {
        a - SIGN > INFINITY
    } else {
        a > INFINITY
    }
}

/// Whether the pattern stands for a number other than the two infinities.
pub fn is_finite(a: Bits) -> (r: bool)
    ensures
        r == finite(a),
{
    if a >= SIGN {
        a - SIGN < INFINITY
    } else {
        a < INFINITY
    }
}

/// `a < b` on the numbers.
pub fn is_lt(a: Bits, b: Bits) -> (r: bool)
    ensures
        r == lt(a, b),
{
    if is_nan(a) || is_nan(b) {
        false
    } else if a >= SIGN {
        if b >= SIGN {
            b < a
        } else {
            a > SIGN || b > 0
        }
    } else {
        b < SIGN && a < b
    }
}

/// `a <= b` on the numbers.
pub fn is_le(a: Bits, b: Bits) -> (r: bool)
    ensures
        r == le(a, b),
{
    !is_nan(a) && !is_nan(b) && !is_lt(b, a)
}

/// `a == b` on the numbers.
pub fn is_same(a: Bits, b: Bits) -> (r: bool)
    ensures
        r == same(a, b),
{
    is_le(a, b) && is_le(b, a)
}

/// `value` moved into `low..=high`.
pub fn clamp(value: Bits, low: Bits, high: Bits) -> (r: Bits)
    requires
        le(low, high),
    ensures
        r == clamped(value, low, high),
{
    if is_lt(value, low) {
        low
    } else if is_lt(high, value) {
        high
    } else {
        value
    }
}

/// The smaller of the two; where one is no number, the other.
pub fn min(a: Bits, b: Bits) -> (r: Bits)
    ensures
        r == smaller(a, b),
{
    if is_nan(a) || is_lt(b, a) {
        b
    } else {
        a
    }
}

/// The larger of the two; where one is no number, the other.
pub fn max(a: Bits, b: Bits) -> (r: Bits)
    ensures
        r == larger(a, b),
{
    if is_nan(a) || is_lt(a, b) {
        b
    } else {
        a
    }
}

/// The order of the numbers is read off their patterns: patterns up to that of infinity
/// are ordered as they stand, those with the sign bit the other way round and below the
/// others, and the two zeros are the same. Everything else is no number.
pub proof fn law_order_is_that_of_the_patterns(a: Bits, b: Bits)
    ensures
        nan(a) <==> (0x7f80_0000 < a && a < 0x8000_0000) || 0xff80_0000 < a,
        finite(a) <==> a < 0x7f80_0000 || (0x8000_0000 <= a && a < 0xff80_0000),
        !nan(a) && !nan(b) && a < 0x8000_0000 && b < 0x8000_0000 ==> (lt(a, b) <==> a < b),
        !nan(a) && !nan(b) && a >= 0x8000_0000 && b >= 0x8000_0000 ==> (lt(a, b) <==> b < a),
        !nan(a) && !nan(b) && a >= 0x8000_0000 && b < 0x8000_0000 ==> (lt(a, b) <==> !(a
            == 0x8000_0000 && b == 0)),
        a < 0x8000_0000 && b >= 0x8000_0000 ==> !lt(a, b),
        nan(a) || nan(b) ==> !lt(a, b) && !le(a, b) && !same(a, b),
        le(a, b) <==> !nan(a) && !nan(b) && !lt(b, a),
        same(a, b) <==> le(a, b) && le(b, a),
        same(a, b) <==> !nan(a) && !nan(b) && (a == b || ((a == 0 || a == 0x8000_0000) && (b == 0
            || b == 0x8000_0000))),
{
}

/// What lies below a range is moved to its lower end, what lies above it to its upper
/// end, everything else stays; the smaller and the larger of two are one of them, and a
/// pattern that is no number is passed over for the other.
pub proof fn law_clamp_takes_the_nearer_end(value: Bits, low: Bits, high: Bits)
    ensures
        lt(value, low) ==> clamped(value, low, high) == low,
        !lt(value, low) && lt(high, value) ==> clamped(value, low, high) == high,
        !lt(value, low) && !lt(high, value) ==> clamped(value, low, high) == value,
        lt(low, high) ==> smaller(low, high) == low && smaller(high, low) == low && larger(low, high)
            == high && larger(high, low) == high,
        nan(low) ==> smaller(low, high) == high && larger(low, high) == high,
        nan(high) && !nan(low) ==> smaller(low, high) == low && larger(low, high) == low,
        same(low, high) ==> smaller(low, high) == low && larger(low, high) == low,
{
}

/// Of two numbers exactly one of "less", "same" and "greater" holds; of a
/// pattern that is no number, none.
pub proof fn law_order_is_total(a: Bits, b: Bits)
    ensures
        !nan(a) && !nan(b) ==> lt(a, b) || same(a, b) || lt(b, a),
        !(lt(a, b) && same(a, b)),
        !(lt(a, b) && lt(b, a)),
        !(same(a, b) && lt(b, a)),
        nan(a) ==> !lt(a, b) && !lt(b, a) && !same(a, b),
{
}

/// The order is transitive.
pub proof fn law_order_is_transitive(a: Bits, b: Bits, c: Bits)
    requires
        le(a, b),
        le(b, c),
    ensures
        le(a, c),
        lt(a, b) || lt(b, c) ==> lt(a, c),
{
}

/// A clamped number lies in the range, a number already there is not moved, and
/// clamping twice is clamping once.
pub proof fn law_clamp_lands_in_range(value: Bits, low: Bits, high: Bits)
    requires
        le(low, high),
    ensures
        !nan(value) ==> le(low, clamped(value, low, high)) && le(
            clamped(value, low, high),
            high,
        ),
        le(low, value) && le(value, high) ==> clamped(value, low, high) == value,
        clamped(clamped(value, low, high), low, high) == clamped(value, low, high),
{
}

} // verus!

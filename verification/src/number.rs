//! Numbers of double precision, kept by their bits.
//!
//! The first bit is the sign. Of two numbers without it the one with the larger bits is the larger,
//! of two numbers with it the smaller. The numbers above infinity are not numbers.

use vstd::prelude::*;

verus! {

/// The bit of the sign.
pub const SIGN: u64 = 0x8000_0000_0000_0000;

/// The bits of infinity.
pub const INFINITY: u64 = 0x7ff0_0000_0000_0000;

/// The bits without the sign.
pub open spec fn magnitude(bits: u64) -> int {
    if bits >= SIGN {
        bits - SIGN
    } else {
        bits as int
    }
}

/// The bits are those of a number that is not infinite.
pub open spec fn is_finite(bits: u64) -> bool {
    magnitude(bits) < INFINITY
}

/// The bits are those of no number.
pub open spec fn is_nan(bits: u64) -> bool {
    magnitude(bits) > INFINITY
}

/// The place of a number in the order of all numbers. Both zeros have the same.
pub open spec fn rank(bits: u64) -> int {
    if bits >= SIGN {
        SIGN - bits
    } else {
        bits as int
    }
}

/// The larger of two numbers; where one of them is no number, the other.
pub open spec fn larger(a: u64, b: u64) -> u64 {
    if is_nan(b) || (!is_nan(a) && rank(a) >= rank(b)) {
        a
    } else {
        b
    }
}

/// The smaller of two numbers; where one of them is no number, the other.
pub open spec fn smaller(a: u64, b: u64) -> u64 {
    if is_nan(b) || (!is_nan(a) && rank(a) <= rank(b)) {
        a
    } else {
        b
    }
}

fn magnitude_of(bits: u64) -> (rest: u64)
    ensures
        rest == magnitude(bits),
{
    if bits >= SIGN {
        bits - SIGN
    } else {
        bits
    }
}

/// Whether the bits are those of a number that is not infinite.
pub fn finite(bits: u64) -> (yes: bool)
    ensures
        yes == is_finite(bits),
{
    magnitude_of(bits) < INFINITY
}

/// Whether the first number is at most the second.
fn at_most(a: u64, b: u64) -> (yes: bool)
    ensures
        yes == (rank(a) <= rank(b)),
{
    if a >= SIGN {
        if b >= SIGN {
            a >= b
        } else {
            true
        }
    } else if b >= SIGN {
        a == 0 && b == SIGN
    } else {
        a <= b
    }
}

/// The larger of two numbers; where one of them is no number, the other.
pub fn larger_of(a: u64, b: u64) -> (c: u64)
    ensures
        c == larger(a, b),
{
    if magnitude_of(b) > INFINITY || (magnitude_of(a) <= INFINITY && at_most(b, a)) {
        a
    } else {
        b
    }
}

/// The smaller of two numbers; where one of them is no number, the other.
pub fn smaller_of(a: u64, b: u64) -> (c: u64)
    ensures
        c == smaller(a, b),
{
    if magnitude_of(b) > INFINITY || (magnitude_of(a) <= INFINITY && at_most(a, b)) {
        a
    } else {
        b
    }
}

/// The larger of two numbers is one of them and no smaller than either, and the smaller of them is the
/// other way round. What is no number gives way to what is one.
pub proof fn law_larger_and_smaller(a: u64, b: u64)
    ensures
        larger(a, b) == a || larger(a, b) == b,
        smaller(a, b) == a || smaller(a, b) == b,
        !is_nan(a) && !is_nan(b) ==> rank(larger(a, b)) >= rank(a) && rank(larger(a, b)) >= rank(b),
        !is_nan(a) && !is_nan(b) ==> rank(smaller(a, b)) <= rank(a) && rank(smaller(a, b)) <= rank(b),
        is_nan(a) && !is_nan(b) ==> larger(a, b) == b && smaller(a, b) == b,
        !is_nan(a) && is_nan(b) ==> larger(a, b) == a && smaller(a, b) == a,
{
}

/// Numbers without the sign are ordered as their bits are, those with it the other way round and below
/// them. A number is finite below infinity, and none above it.
pub proof fn law_numbers_are_ordered_by_their_bits(a: u64, b: u64)
    ensures
        a < 0x8000_0000_0000_0000 && b < 0x8000_0000_0000_0000 ==> (rank(a) < rank(b) <==> a < b),
        a >= 0x8000_0000_0000_0000 && b >= 0x8000_0000_0000_0000 ==> (rank(a) < rank(b) <==> b < a),
        a > 0x8000_0000_0000_0000 && b < 0x8000_0000_0000_0000 ==> rank(a) < rank(b),
        rank(0) == rank(0x8000_0000_0000_0000),
        a < 0x8000_0000_0000_0000 ==> (is_finite(a) <==> a < 0x7ff0_0000_0000_0000),
        a < 0x8000_0000_0000_0000 ==> (is_nan(a) <==> a > 0x7ff0_0000_0000_0000),
        a >= 0x8000_0000_0000_0000 ==> (is_finite(a) <==> a < 0xfff0_0000_0000_0000),
        a >= 0x8000_0000_0000_0000 ==> (is_nan(a) <==> a > 0xfff0_0000_0000_0000),
{
}

} // verus!

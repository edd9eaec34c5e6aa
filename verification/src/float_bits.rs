//! Order of IEEE 754 numbers, read off their bit patterns.
//!
//! A binary32 or binary64 number is held as the unsigned integer with the
//! same bits. Its magnitude is everything but the sign bit, and magnitudes
//! order as the numbers do, so that comparing numbers is comparing signed
//! integers; patterns above infinity are NaN and compare with nothing.

use vstd::prelude::*;

verus! {

/// The sign bit of a binary32 pattern.
pub const SIGN32: u32 = 0x8000_0000;

/// Positive infinity of binary32.
pub const INFINITY32: u32 = 0x7F80_0000;

/// Negative infinity of binary32.
pub const NEG_INFINITY32: u32 = 0xFF80_0000;

/// The sign bit of a binary64 pattern.
pub const SIGN64: u64 = 0x8000_0000_0000_0000;

/// Positive infinity of binary64.
pub const INFINITY64: u64 = 0x7FF0_0000_0000_0000;

/// Whether the binary32 pattern `b` is not a number.
pub open spec fn nan32(b: u32) -> bool {
    b % SIGN32 > INFINITY32
}

/// The place of the binary32 number `b` on the signed integer line.
pub open spec fn rank32(b: u32) -> int {
    if b >= SIGN32 {
        -(b % SIGN32)
    } else {
        b as int
    }
}

/// Whether `a` is less than `b` as binary32 numbers.
pub open spec fn lt32(a: u32, b: u32) -> bool {
    !nan32(a) && !nan32(b) && rank32(a) < rank32(b)
}

/// Whether the binary64 pattern `b` is not a number.
pub open spec fn nan64(b: u64) -> bool {
    b % SIGN64 > INFINITY64
}

/// The place of the binary64 number `b` on the signed integer line.
pub open spec fn rank64(b: u64) -> int {
    if b >= SIGN64 {
        -(b % SIGN64)
    } else {
        b as int
    }
}

/// Whether `a` is less than `b` as binary64 numbers.
pub open spec fn lt64(a: u64, b: u64) -> bool {
    !nan64(a) && !nan64(b) && rank64(a) < rank64(b)
}

/// `a < b` on binary32 numbers.
pub fn less32(a: u32, b: u32) -> (r: bool)
    ensures
        r == lt32(a, b),
{
    let ma: u32 = a % SIGN32;
    let mb: u32 = b % SIGN32;
    if ma > INFINITY32 || mb > INFINITY32 {
        return false;
    }
    let ra: i64 = if a >= SIGN32 {
        -(ma as i64)
    } else {
        ma as i64
    };
    let rb: i64 = if b >= SIGN32 {
        -(mb as i64)
    } else {
        mb as i64
    };
    ra < rb
}

/// `a < b` on binary64 numbers.
pub fn less64(a: u64, b: u64) -> (r: bool)
    ensures
        r == lt64(a, b),
{
    let ma: u64 = a % SIGN64;
    let mb: u64 = b % SIGN64;
    if ma > INFINITY64 || mb > INFINITY64 {
        return false;
    }
    let ra: i64 = if a >= SIGN64 {
        -(ma as i64)
    } else {
        ma as i64
    };
    let rb: i64 = if b >= SIGN64 {
        -(mb as i64)
    } else {
        mb as i64
    };
    ra < rb
}

/// The smaller of two binary32 numbers; the other one where one is NaN, and
/// `a` where they are equal.
pub open spec fn min32(a: u32, b: u32) -> u32 {
    if nan32(a) {
        b
    } else if lt32(b, a) {
        b
    } else {
        a
    }
}

/// Numbers that are not negative order as their patterns do.
pub proof fn positive_numbers_order_as_patterns(a: u32, b: u32)
    requires
        a < 0x8000_0000,
        b < 0x8000_0000,
        !nan32(a),
        !nan32(b),
    ensures
        lt32(a, b) <==> a < b,
{
}

/// A negative number is less than one that is not, but the two zeros are
/// equal.
pub proof fn negative_is_less(a: u32, b: u32)
    requires
        a >= 0x8000_0000,
        b < 0x8000_0000,
        !nan32(a),
        !nan32(b),
    ensures
        lt32(a, b) <==> a != 0x8000_0000 || b != 0,
        !lt32(b, a),
{
}

/// Changing both signs turns the order round.
pub proof fn opposite_order(a: u32, b: u32)
    requires
        a < 0x8000_0000,
        b < 0x8000_0000,
    ensures
        lt32((a + 0x8000_0000) as u32, (b + 0x8000_0000) as u32) <==> lt32(b, a),
        lt32((a + 0x8000_0000) as u32, b) <==> lt32((b + 0x8000_0000) as u32, a),
{
}

/// A pattern is no number exactly where its eight exponent bits are all set
/// and its mantissa is not zero; it compares with nothing.
pub proof fn nan_is_told_by_its_bits(a: u32, b: u32)
    ensures
        nan32(a) <==> a / 0x80_0000 % 256 == 255 && a % 0x80_0000 != 0,
        nan32(a) ==> !lt32(a, b) && !lt32(b, a),
{
    assert((a % 0x8000_0000u32 > 0x7F80_0000u32) <==> (a / 0x80_0000u32 % 256u32 == 255u32 && a
        % 0x80_0000u32 != 0u32)) by (bit_vector);
}

/// As for the short numbers, of the long ones: those that are not negative
/// order as their patterns, negative ones are less, the two zeros are equal,
/// and changing both signs turns the order round.
pub proof fn long_numbers_order(a: u64, b: u64)
    requires
        a < 0x8000_0000_0000_0000,
        b < 0x8000_0000_0000_0000,
        !nan64(a),
        !nan64(b),
    ensures
        lt64(a, b) <==> a < b,
        lt64((a + 0x8000_0000_0000_0000) as u64, b) <==> a != 0 || b != 0,
        !lt64(b, (a + 0x8000_0000_0000_0000) as u64),
        lt64((a + 0x8000_0000_0000_0000) as u64, (b + 0x8000_0000_0000_0000) as u64) <==> b < a,
{
}

/// A long pattern is no number exactly where its eleven exponent bits are all
/// set and its mantissa is not zero; it compares with nothing.
pub proof fn long_nan_is_told_by_its_bits(a: u64, b: u64)
    ensures
        nan64(a) <==> a / 0x10_0000_0000_0000 % 2048 == 2047 && a % 0x10_0000_0000_0000 != 0,
        nan64(a) ==> !lt64(a, b) && !lt64(b, a),
{
    assert((a % 0x8000_0000_0000_0000u64 > 0x7FF0_0000_0000_0000u64) <==> (a
        / 0x10_0000_0000_0000u64 % 2048u64 == 2047u64 && a % 0x10_0000_0000_0000u64 != 0u64))
        by (bit_vector);
}

/// The smaller of two numbers is one of them and not above either; where one
/// is no number it is the other.
pub proof fn smaller_is_not_above(a: u32, b: u32)
    ensures
        min32(a, b) == a || min32(a, b) == b,
        !lt32(a, min32(a, b)),
        !lt32(b, min32(a, b)),
        nan32(min32(a, b)) ==> nan32(a) && nan32(b),
{
}

} // verus!

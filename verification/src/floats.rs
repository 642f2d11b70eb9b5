//! Comparisons of IEEE 754 numbers on their bit patterns.

use vstd::prelude::*;

verus! {

/// Whether single-precision bits are not a number.
pub open spec fn nan32(b: u32) -> bool {
    b % 0x8000_0000 > 0x7F80_0000
}

/// Whether a single-precision number is zero or less.
pub open spec fn le_zero32(b: u32) -> bool {
    !nan32(b) && (b == 0 || b >= 0x8000_0000)
}

/// Whether a single-precision number is more than zero.
pub open spec fn gt_zero32(b: u32) -> bool {
    0 < b <= 0x7F80_0000
}

/// Whether a single-precision number is zero or less.
pub fn is_le_zero32(b: u32) -> (r: bool)
    ensures
        r == le_zero32(b),
{
    b % 0x8000_0000 <= 0x7F80_0000 && (b == 0 || b >= 0x8000_0000)
}

/// Whether a single-precision number is more than zero.
pub fn is_gt_zero32(b: u32) -> (r: bool)
    ensures
        r == gt_zero32(b),
{
    0 < b && b <= 0x7F80_0000
}

/// Law: a number is either more than zero, or zero or less, unless it is no number.
pub proof fn law_zero_splits(b: u32)
    ensures
        !nan32(b) ==> (gt_zero32(b) <==> !le_zero32(b)),
        nan32(b) ==> !gt_zero32(b) && !le_zero32(b),
{
}

/// The place of double-precision bits in the total order of IEEE 754.
pub open spec fn order_key(b: u64) -> i64 {
    if b < 0x8000_0000_0000_0000 {
        b as i64
    } else {
        (0x7FFF_FFFF_FFFF_FFFF - b) as i64
    }
}

/// The place of double-precision bits in the total order of IEEE 754.
pub fn total_order(b: u64) -> (r: i64)
    ensures
        r == order_key(b),
{
    if b < 0x8000_0000_0000_0000 {
        b as i64
    } else {
        (0x7FFF_FFFF_FFFF_FFFFi128 - b as i128) as i64
    }
}

/// Law: the numbers above zero are the bit patterns from one up to infinity, and the numbers at or below
/// it are zero and the patterns with the sign, up to infinity below zero.
pub proof fn law_signs_of_bits(b: u32)
    ensures
        gt_zero32(b) <==> 1 <= b <= 0x7F80_0000,
        le_zero32(b) <==> b == 0 || 0x8000_0000 <= b <= 0xFF80_0000,
        nan32(b) <==> 0x7F80_0000 < b < 0x8000_0000 || b > 0xFF80_0000,
{
}

/// Law: the order of numbers is that of their bits above zero and the reverse of it below, where all
/// come before; no two patterns have one place.
pub proof fn law_order_of_bits(a: u64, b: u64)
    ensures
        a < b < 0x8000_0000_0000_0000 ==> order_key(a) < order_key(b),
        a < 0x8000_0000_0000_0000 <= b ==> order_key(b) < order_key(a),
        0x8000_0000_0000_0000 <= a < b ==> order_key(b) < order_key(a),
        a != b ==> order_key(a) != order_key(b),
{
}

} // verus!

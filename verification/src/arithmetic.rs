//! Arithmetic that stops at the largest number.
use vstd::prelude::*;

verus! {

/// A sum or a product that stops at the largest 64-bit number.
pub open spec fn saturated(value: int) -> u64 {
    if value > u64::MAX {
        u64::MAX
    } else {
        value as u64
    }
}

/// The product, or the largest 64-bit number.
pub fn saturated_product(left: u64, right: u64) -> (product: u64)
    ensures
        product == saturated(left * right),
{
    assert(left * right <= 0xffff_ffff_ffff_ffff * 0xffff_ffff_ffff_ffff) by (nonlinear_arith)
        requires
            0 <= left <= 0xffff_ffff_ffff_ffff,
            0 <= right <= 0xffff_ffff_ffff_ffff,
    ;
    assert(0 <= left * right) by (nonlinear_arith)
        requires
            0 <= left,
            0 <= right,
    ;
    let wide: u128 = left as u128 * right as u128;
    if wide > u64::MAX as u128 {
        u64::MAX
    } else {
        wide as u64
    }
}

} // verus!

//! Fixed-point numbers.
//!
//! Lengths (pixels), angles (radians) and ratios are held as integers that
//! count millionths: the value one is [`FIXED_ONE`]. Nothing here rounds to
//! nearest; a product is cut toward zero, as integer division in Rust is.

use vstd::prelude::*;

verus! {

/// The fixed-point representation of 1.
pub const FIXED_ONE: i64 = 1_000_000;

/// Number of decimal places that [`FIXED_ONE`] stands for.
pub const FIXED_PLACES: usize = 6;

/// `a / b` rounded toward zero, for a positive `b`.
pub open spec fn trunc_div(a: int, b: int) -> int {
    if a >= 0 {
        a / b
    } else {
        -((-a) / b)
    }
}

/// The product of two fixed-point numbers, rounded toward zero.
pub open spec fn fixed_mul(a: int, b: int) -> int {
    trunc_div(a * b, FIXED_ONE as int)
}

/// The product of two 64-bit values cannot leave 127 bits.
pub proof fn lemma_product_fits(a: int, b: int)
    requires
        i64::MIN <= a <= i64::MAX,
        i64::MIN <= b <= i64::MAX,
    ensures
        -0x4000_0000_0000_0000_0000_0000_0000_0000 <= a * b
            <= 0x4000_0000_0000_0000_0000_0000_0000_0000,
{
    assert(-0x4000_0000_0000_0000_0000_0000_0000_0000 <= a * b
        <= 0x4000_0000_0000_0000_0000_0000_0000_0000) by (nonlinear_arith)
        requires
            -0x8000_0000_0000_0000 <= a <= 0x8000_0000_0000_0000,
            -0x8000_0000_0000_0000 <= b <= 0x8000_0000_0000_0000,
    ;
}

/// Computes [`fixed_mul`]. The result is wider than its factors, so no
/// pair of inputs overflows.
pub fn multiply(a: i64, b: i64) -> (product: i128)
    ensures
        product == fixed_mul(a as int, b as int),
{
    proof {
        lemma_product_fits(a as int, b as int);
    }
    let wide: i128 = (a as i128) * (b as i128);
    wide / (FIXED_ONE as i128)
}

} // verus!

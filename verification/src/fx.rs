//! Fixed-point scalars.
//!
//! Every length, coordinate and speed in the core is an `i64` carrying 16
//! fractional bits: the value `x` stands for the real number `x / FP_ONE`.
//! Multiplication and division of such scalars rescale by [`FP_ONE`] and
//! round toward zero, like Rust's integer division. Intermediate products
//! are taken in `i128`, so the exec functions here are exact and never
//! overflow for inputs within [`COORD_LIMIT`].

use vstd::prelude::*;

verus! {

use vstd::arithmetic::div_mod::{
    lemma_div_multiples_vanish,
    lemma_div_pos_is_pos,
    lemma_fundamental_div_mod,
    lemma_fundamental_div_mod_converse,
    lemma_multiply_divide_le,
};

/// One whole unit: fixed-point values carry 16 fractional bits.
pub const FP_ONE: i64 = 65536;

/// Largest magnitude admitted for a coordinate, spacing, radius or velocity
/// component: 2^38, about four million whole units. Keeping inputs inside
/// this range lets every intermediate product fit in `i128` and every
/// scaled result fit in `i64`.
pub const COORD_LIMIT: i64 = 0x40_0000_0000;

/// Division rounding toward zero, the rounding Rust's `/` performs on
/// signed integers (spec-level `/` is Euclidean, which differs for a
/// negative dividend).
pub open spec fn tdiv(a: int, b: int) -> int {
    if a >= 0 {
        a / b
    } else {
        -((-a) / b)
    }
}

/// Product of two fixed-point scalars: `a * b` rescaled by `FP_ONE`.
pub open spec fn fx_mul_spec(a: int, b: int) -> int {
    tdiv(a * b, FP_ONE as int)
}

/// Quotient of two fixed-point scalars: `a / b` rescaled by `FP_ONE`.
pub open spec fn fx_div_spec(a: int, b: int) -> int {
    tdiv(a * FP_ONE, b)
}

/// `a` lies within `[-bound, bound]`.
pub open spec fn within(a: int, bound: int) -> bool {
    -bound <= a && a <= bound
}

/// A product of bounded factors is bounded by the product of the bounds.
pub proof fn lemma_mul_within(a: int, b: int, am: int, bm: int)
    requires
        within(a, am),
        within(b, bm),
        0 <= am,
        0 <= bm,
    ensures
        within(a * b, am * bm),
        0 <= a ==> 0 <= b ==> a * b >= 0,
{
    assert(within(a * b, am * bm) && (0 <= a ==> 0 <= b ==> a * b >= 0)) by (nonlinear_arith)
        requires
            within(a, am),
            within(b, bm),
            0 <= am,
            0 <= bm,
    ;
}

/// A quotient is bounded by `m` whenever the dividend is bounded by
/// `m * b`, for truncating division by a positive divisor.
pub proof fn lemma_tdiv_within(a: int, b: int, m: int)
    requires
        1 <= b,
        0 <= m,
        within(a, m * b),
    ensures
        within(tdiv(a, b), m),
{
    if a >= 0 {
        lemma_div_pos_is_pos(a, b);
        assert(a <= b * m) by (nonlinear_arith)
            requires
                a <= m * b,
        ;
        lemma_multiply_divide_le(a, b, m);
    } else {
        lemma_div_pos_is_pos(-a, b);
        assert(-a <= b * m) by (nonlinear_arith)
            requires
                -a <= m * b,
        ;
        lemma_multiply_divide_le(-a, b, m);
    }
}

/// Scaling by one whole unit and rescaling is the identity: multiplying
/// a fixed-point value by `FP_ONE` is exact.
pub proof fn lemma_unit_cancel(x: int)
    ensures
        tdiv(x * FP_ONE, FP_ONE as int) == x,
{
    if x >= 0 {
        lemma_div_multiples_vanish(x, FP_ONE as int);
    } else {
        lemma_div_multiples_vanish(-x, FP_ONE as int);
    }
}

/// Floor of `a / b` for positive `b`; this is spec-level (Euclidean) `/`.
pub fn floor_div(a: i64, b: i64) -> (r: i64)
    requires
        1 <= b,
    ensures
        r == a as int / b as int,
{
    let q = a / b;
    let rem = a % b;
    if rem != 0 && a < 0 {
        proof {
            let n = -(a as int);
            let bb = b as int;
            lemma_fundamental_div_mod(n, bb);
            // n == bb * (n / bb) + n % bb, with 0 <= n % bb < bb
            assert(n % bb != 0);
            assert(a as int == bb * (-(n / bb) - 1) + (bb - n % bb)) by {
                assert(a as int == -(bb * (n / bb)) - n % bb);
                assert(bb * (-(n / bb) - 1) == -(bb * (n / bb)) - bb) by (nonlinear_arith);
            }
            lemma_fundamental_div_mod_converse(a as int, bb, -(n / bb) - 1, bb - n % bb);
        }
        q - 1
    } else {
        if a >= 0 {
            q
        } else {
            proof {
                let n = -(a as int);
                let bb = b as int;
                lemma_fundamental_div_mod(n, bb);
                assert(n % bb == 0);
                assert(a as int == bb * (-(n / bb)) + 0) by {
                    assert(a as int == -(bb * (n / bb)) - n % bb);
                    assert(bb * (-(n / bb)) == -(bb * (n / bb))) by (nonlinear_arith);
                }
                lemma_fundamental_div_mod_converse(a as int, bb, -(n / bb), 0);
            }
            q
        }
    }
}

} // verus!

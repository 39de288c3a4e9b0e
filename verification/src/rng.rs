//! Uniform random draws, taken from the `rand` crate.
//!
//! Everything downstream treats a draw as an arbitrary value inside the stated
//! range, so these two functions are the only places the tracer touches an
//! outside source of randomness.

use vstd::prelude::*;

verus! {

/// Relies on `rand::random::<u16>`: the `Standard` distribution draws each of
/// the 65536 values of a `u16` uniformly, so the result is a fixed-point
/// scalar in `[0, 1)`.
#[verifier::external_body]
pub fn random_double() -> (r: i64)
    ensures
        0 <= r < 65536,
{
    rand::random::<u16>() as i64
}

/// Relies on `rand::Rng::gen_range`: a draw from the non-empty range
/// `min..=max` lies between the two bounds inclusively.
#[verifier::external_body]
pub fn random_int_lr(min: isize, max: isize) -> (r: isize)
    requires
        min <= max,
    ensures
        min <= r <= max,
{
    rand::Rng::gen_range(&mut rand::thread_rng(), min..=max)
}

/// A uniform fixed-point draw from `[min, max]`.
pub fn random_double_lr(min: i64, max: i64) -> (r: i64)
    requires
        min <= max,
        -0x40_0000_0000 <= min,
        max <= 0x40_0000_0000,
    ensures
        min <= r <= max,
{
    let u = random_double();
    let d = max - min;
    proof {
        assert(0 <= u as int * d as int / 65536 <= d as int) by (nonlinear_arith)
            requires
                0 <= (u as int) < 65536,
                0 <= (d as int) <= 0x80_0000_0000;
    }
    min + fx_mul_small(u, d)
}

/// Helper product for draws: `floor(u * d / 65536)` with small operands.
fn fx_mul_small(u: i64, d: i64) -> (r: i64)
    requires
        0 <= u < 65536,
        0 <= d <= 0x80_0000_0000,
    ensures
        r == u as int * d as int / 65536,
        0 <= r <= d,
{
    proof {
        assert(0 <= u as int * d as int / 65536 <= d as int) by (nonlinear_arith)
            requires
                0 <= (u as int) < 65536,
                0 <= (d as int) <= 0x80_0000_0000;
    }
    let q = crate::fixed::div_floor((u as i128) * (d as i128), 65536);
    q as i64
}

} // verus!

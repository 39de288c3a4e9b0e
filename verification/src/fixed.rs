//! Q47.16 fixed-point scalar arithmetic: the numeric kernel of the tracer.
//!
//! A scalar is an `i64` holding `value * 65536`.  All operations round toward
//! negative infinity (floor), and every operation carries an exact contract.

use vstd::arithmetic::div_mod::{
    lemma_div_is_ordered, lemma_fundamental_div_mod, lemma_fundamental_div_mod_converse_div,
};
use vstd::prelude::*;

verus! {

/// The fixed-point representation of 1.
pub const FX_ONE: i64 = 65536;

/// The fixed-point representation of pi.
pub const FX_PI: i64 = 205887;

/// `value` limited to `[lo, hi]`, as a mathematical function.
pub open spec fn clamp_s(v: int, lo: int, hi: int) -> int {
    if v < lo {
        lo
    } else if v > hi {
        hi
    } else {
        v
    }
}

/// The smaller of two values, as a mathematical function.
pub open spec fn min_s(a: int, b: int) -> int {
    if a < b {
        a
    } else {
        b
    }
}

/// The larger of two values, as a mathematical function.
pub open spec fn max_s(a: int, b: int) -> int {
    if a < b {
        b
    } else {
        a
    }
}

/// The absolute value, as a mathematical function.
pub open spec fn abs_s(a: int) -> int {
    if a < 0 {
        -a
    } else {
        a
    }
}

/// The integer square root, as a mathematical function.
pub open spec fn isqrt_spec(n: nat) -> nat
    decreases n,
{
    if n == 0 {
        0
    } else {
        let r = isqrt_spec((n - 1) as nat);
        if (r + 1) * (r + 1) <= n {
            r + 1
        } else {
            r
        }
    }
}

/// `isqrt_spec(n)` is the largest integer whose square does not exceed `n`.
pub proof fn lemma_isqrt(n: nat)
    ensures
        (isqrt_spec(n) as int) * (isqrt_spec(n) as int) <= n as int,
        (n as int) < (isqrt_spec(n) as int + 1) * (isqrt_spec(n) as int + 1),
    decreases n,
{
    if n > 0 {
        lemma_isqrt((n - 1) as nat);
        let r = isqrt_spec((n - 1) as nat);
        assert(r * r <= n - 1);
        assert(n - 1 < (r + 1) * (r + 1));
        assert(isqrt_spec(n) == if (r + 1) * (r + 1) <= n {
            (r + 1) as nat
        } else {
            r
        }) by {
            reveal_with_fuel(isqrt_spec, 2);
        }
        if (r + 1) * (r + 1) <= n {
            assert(isqrt_spec(n) == r + 1);
            assert(isqrt_spec(n) * isqrt_spec(n) <= n);
            assert(n < (r + 2) * (r + 2)) by (nonlinear_arith)
                requires
                    n - 1 < (r + 1) * (r + 1);
            assert(n < (isqrt_spec(n) + 1) * (isqrt_spec(n) + 1));
        } else {
            assert(isqrt_spec(n) == r);
            assert(isqrt_spec(n) * isqrt_spec(n) <= n);
            assert(n < (isqrt_spec(n) + 1) * (isqrt_spec(n) + 1));
        }
    } else {
        assert(isqrt_spec(0) == 0) by {
            reveal_with_fuel(isqrt_spec, 1);
        }
    }
}

/// Dividing by a positive divisor cannot grow a value's magnitude.
pub proof fn lemma_div_bounded(p: int, d: int, k: int)
    requires
        d >= 1,
        0 <= k,
        -k <= p <= k,
    ensures
        -k <= p / d <= k,
{
    lemma_fundamental_div_mod(p, d);
    let q = p / d;
    let r = p % d;
    assert(-k <= q <= k) by (nonlinear_arith)
        requires
            p == d * q + r,
            0 <= r < d,
            d >= 1,
            0 <= k,
            -k <= p <= k;
}

/// Any integer in the square-root position is the square root.
pub proof fn lemma_isqrt_unique(n: nat, r: int)
    requires
        r >= 0,
        r * r <= n,
        n < (r + 1) * (r + 1),
    ensures
        r == isqrt_spec(n),
{
    lemma_isqrt(n);
    let s = isqrt_spec(n) as int;
    assert(r == s) by (nonlinear_arith)
        requires
            r >= 0,
            s >= 0,
            r * r <= n,
            n < (r + 1) * (r + 1),
            s * s <= n,
            n < (s + 1) * (s + 1);
}

/// `t * b <= a` holds exactly when `t` is at most the floor of `a / b`.
pub proof fn lemma_mul_le_floor(t: int, a: int, b: int)
    requires
        b >= 1,
    ensures
        (t * b <= a) <==> (t <= a / b),
{
    lemma_fundamental_div_mod(a, b);
    let q = a / b;
    let r = a % b;
    assert((t * b <= a) <==> (t <= q)) by (nonlinear_arith)
        requires
            a == b * q + r,
            0 <= r < b,
            b >= 1;
}

/// `t * b >= a` holds exactly when `t` is at least the ceiling of `a / b`.
pub proof fn lemma_mul_ge_ceil(t: int, a: int, b: int)
    requires
        b >= 1,
    ensures
        (t * b >= a) <==> (t >= -((-a) / b)),
{
    lemma_fundamental_div_mod(-a, b);
    let q = (-a) / b;
    let r = (-a) % b;
    assert((t * b >= a) <==> (t >= -q)) by (nonlinear_arith)
        requires
            -a == b * q + r,
            0 <= r < b,
            b >= 1;
}

/// Floor division of `a` by a positive `b` (Euclidean division, which for a
/// positive divisor is the same as rounding toward negative infinity).
pub fn div_floor(a: i128, b: i128) -> (q: i128)
    requires
        0 < b,
        -0x1000_0000_0000_0000_0000_0000_0000 <= a <= 0x1000_0000_0000_0000_0000_0000_0000,
    ensures
        q == a as int / b as int,
{
    if a >= 0 {
        let q = (a as u128) / (b as u128);
        q as i128
    } else {
        let m: u128 = (-a) as u128;
        let d: u128 = b as u128;
        let qm = m / d;
        let rm = m % d;
        if rm == 0 {
            proof {
                lemma_fundamental_div_mod(m as int, d as int);
                assert(a as int == (-(qm as int)) * (b as int) + 0) by (nonlinear_arith)
                    requires
                        m as int == d as int * (qm as int) + (rm as int),
                        rm == 0,
                        a as int == -(m as int),
                        b as int == d as int;
                lemma_fundamental_div_mod_converse_div(
                    a as int,
                    b as int,
                    -(qm as int),
                    0,
                );
            }
            -(qm as i128)
        } else {
            proof {
                lemma_fundamental_div_mod(m as int, d as int);
                assert(a as int == (-(qm as int) - 1) * (b as int) + (b as int - rm as int))
                    by (nonlinear_arith)
                    requires
                        m as int == d as int * (qm as int) + (rm as int),
                        a as int == -(m as int),
                        b as int == d as int;
                lemma_fundamental_div_mod_converse_div(
                    a as int,
                    b as int,
                    -(qm as int) - 1,
                    b as int - rm as int,
                );
            }
            -(qm as i128) - 1
        }
    }
}

/// Fixed-point product: `floor(a * b / 65536)`.
pub fn fx_mul(a: i64, b: i64) -> (r: i64)
    requires
        i64::MIN <= a as int * b as int / 65536 <= i64::MAX,
    ensures
        r == a as int * b as int / 65536,
{
    let p: i128 = (a as i128) * (b as i128);
    let q = div_floor(p, 65536);
    q as i64
}

/// Fixed-point quotient: `floor(a / (b / 65536))` for positive `b`;
/// for negative `b` both operands are negated first.
pub fn fx_div(a: i64, b: i64) -> (r: i64)
    requires
        b != 0,
        b > 0 ==> i64::MIN <= a as int * 65536 / b as int <= i64::MAX,
        b < 0 ==> i64::MIN <= -(a as int) * 65536 / -(b as int) <= i64::MAX,
    ensures
        b > 0 ==> r == a as int * 65536 / b as int,
        b < 0 ==> r == -(a as int) * 65536 / -(b as int),
{
    if b > 0 {
        let q = div_floor((a as i128) * 65536, b as i128);
        q as i64
    } else {
        let q = div_floor(-(a as i128) * 65536, -(b as i128));
        q as i64
    }
}

/// Integer square root by binary search.
pub fn sqrt_u128(n: u128) -> (r: u128)
    requires
        n < 0x4000_0000_0000_0000_0000_0000_0000_0000,
    ensures
        r * r <= n,
        n < (r + 1) * (r + 1),
        r < 0x8000_0000_0000_0000,
        r == isqrt_spec(n as nat),
{
    let mut lo: u128 = 0;
    let mut hi: u128 = 0x8000_0000_0000_0000;
    proof {
        assert((hi as int + 1) * (hi as int + 1) > n as int) by (nonlinear_arith)
            requires
                hi == 0x8000_0000_0000_0000u128,
                n < 0x4000_0000_0000_0000_0000_0000_0000_0000;
    }
    while lo < hi
        invariant
            lo <= hi <= 0x8000_0000_0000_0000,
            lo * lo <= n,
            n < (hi + 1) * (hi + 1),
        decreases hi - lo,
    {
        let mid = lo + (hi - lo + 1) / 2;
        assert(lo < mid <= hi);
        proof {
            assert(mid as int * mid as int <= 0x4000_0000_0000_0000_0000_0000_0000_0000int)
                by (nonlinear_arith)
                requires
                    0 <= mid as int <= 0x8000_0000_0000_0000int;
        }
        let sq = mid * mid;
        if sq <= n {
            lo = mid;
        } else {
            hi = mid - 1;
        }
    }
    proof {
        if lo == 0x8000_0000_0000_0000 {
            assert(lo * lo > n) by (nonlinear_arith)
                requires
                    lo == 0x8000_0000_0000_0000u128,
                    n < 0x4000_0000_0000_0000_0000_0000_0000_0000;
        }
        lemma_isqrt_unique(n as nat, lo as int);
    }
    lo
}

/// Fixed-point square root of a non-negative scalar, rounded down.
pub fn fx_sqrt(x: i64) -> (r: i64)
    requires
        x >= 0,
    ensures
        r >= 0,
        r as int * r as int <= x as int * 65536,
        x as int * 65536 < (r as int + 1) * (r as int + 1),
        r < 0x100_0000_0000,
        r == isqrt_spec((x as int * 65536) as nat),
{
    let n: u128 = (x as u128) * 65536;
    let r = sqrt_u128(n);
    proof {
        if r as int >= 0x100_0000_0000 {
            assert(false) by (nonlinear_arith)
                requires
                    r as int >= 0x100_0000_0000,
                    r as int * r as int <= n as int,
                    (n as int) < 0x8000_0000_0000_0000_0000;
        }
    }
    r as i64
}

/// The smaller of two scalars.
pub fn fmin(a: i64, b: i64) -> (r: i64)
    ensures
        r == if a < b { a as int } else { b as int },
{
    if a < b { a } else { b }
}

/// The larger of two scalars.
pub fn fmax(a: i64, b: i64) -> (r: i64)
    ensures
        r == if a < b { b as int } else { a as int },
{
    if a < b { b } else { a }
}

/// `value` limited to the closed interval `[min, max]`.
pub fn clamp(value: i64, min: i64, max: i64) -> (r: i64)
    ensures
        r == if value < min { min as int } else if value > max { max as int } else { value as int },
{
    if value < min {
        min
    } else if value > max {
        max
    } else {
        value
    }
}

/// Absolute value (callers keep scalars well inside the `i64` range).
pub fn fx_abs(a: i64) -> (r: i64)
    requires
        a != i64::MIN,
    ensures
        r == if a < 0 { -(a as int) } else { a as int },
{
    if a < 0 { -a } else { a }
}

/// Degrees (as a fixed-point scalar) to radians: `d * pi / 180`.
pub fn degrees_to_radians(degrees: i64) -> (r: i64)
    requires
        -0x1_0000_0000_0000 <= degrees <= 0x1_0000_0000_0000,
    ensures
        r == degrees as int * 205887 / ((180 as int) * 65536),
{
    proof {
        let p = degrees as int * 205887;
        assert(-57952038530026831872 <= p <= 57952038530026831872) by (nonlinear_arith)
            requires
                p == degrees as int * 205887,
                -0x1_0000_0000_0000 <= degrees as int <= 0x1_0000_0000_0000;
        lemma_div_is_ordered(p, 57952038530026831872, 11796480);
        lemma_div_is_ordered(-57952038530026831872, p, 11796480);
    }
    let q = div_floor((degrees as i128) * 205887, 180 * 65536);
    q as i64
}

} // verus!

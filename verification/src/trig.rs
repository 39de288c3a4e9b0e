//! Fixed-point approximations of the transcendental functions the tracer
//! uses: sine and cosine (textures, sampling, the camera), their quotient,
//! the arc functions (sphere surface coordinates), and a negated logarithm
//! (free-flight sampling in a participating medium).
//!
//! The contracts state the ranges every caller relies on; the numeric error
//! of the polynomial bodies is exercised by the test suite, not by proofs.

use crate::fixed::{
    abs_s, clamp, clamp_s, div_floor, fmax, fx_abs, fx_sqrt, lemma_div_bounded, max_s, FX_ONE,
    FX_PI,
};
use vstd::prelude::*;

verus! {

/// Fixed-point product of two small scalars (|a|, |b| at most 2^30).
fn mul_small(a: i64, b: i64) -> (r: i64)
    requires
        -0x4000_0000 <= a <= 0x4000_0000,
        -0x4000_0000 <= b <= 0x4000_0000,
    ensures
        r == a as int * b as int / 65536,
        -0x4000_0000_0000 <= r <= 0x4000_0000_0000,
{
    proof {
        assert(-0x1000_0000_0000_0000 <= a as int * b as int <= 0x1000_0000_0000_0000)
            by (nonlinear_arith)
            requires
                -0x4000_0000 <= a as int <= 0x4000_0000,
                -0x4000_0000 <= b as int <= 0x4000_0000;
        vstd::arithmetic::div_mod::lemma_div_is_ordered(
            a as int * b as int,
            0x1000_0000_0000_0000,
            65536,
        );
        vstd::arithmetic::div_mod::lemma_div_is_ordered(
            -0x1000_0000_0000_0000,
            a as int * b as int,
            65536,
        );
    }
    div_floor((a as i128) * (b as i128), 65536) as i64
}

/// Floor quotient of a small scalar by a small positive constant.
fn div_small(a: i64, b: i64) -> (r: i64)
    requires
        1 <= b <= 65536,
        -0x4000_0000_0000 <= a <= 0x4000_0000_0000,
    ensures
        r == a as int / b as int,
        -0x4000_0000_0000 <= r <= 0x4000_0000_0000,
{
    proof {
        lemma_div_bounded(a as int, b as int, 0x4000_0000_0000);
    }
    div_floor(a as i128, b as i128) as i64
}

/// The value the fixed-point sine computation produces: range reduction by
/// two pi, folding into a quarter period, and a degree-seven polynomial.
pub open spec fn sin_spec(x: int) -> int {
    let e0 = x - (x / 411774) * 411774;
    let e1 = if e0 > 205887 {
        e0 - 411774
    } else {
        e0
    };
    let e2 = if e1 > 102943 {
        205887 - e1
    } else {
        e1
    };
    let e = if e2 < -102943 {
        -205887 - e2
    } else {
        e2
    };
    let p2 = clamp_s(e * e / 65536, 0, 0x4_0000);
    let p3 = clamp_s(p2 * e / 65536, -0x8_0000, 0x8_0000);
    let p5 = clamp_s(p3 * p2 / 65536, -0x20_0000, 0x20_0000);
    let p7 = clamp_s(p5 * p2 / 65536, -0x80_0000, 0x80_0000);
    clamp_s(e - p3 / 6 + p5 / 120 - p7 / 5040, -65536, 65536)
}

/// The cosine: the sine a quarter period later.
pub open spec fn cos_spec(x: int) -> int {
    sin_spec(x + 102944)
}

/// The tangent: the quotient of sine and cosine, with a cosine that rounds
/// to zero or below raised to the smallest positive scalar.
pub open spec fn tan_spec(x: int) -> int {
    sin_spec(x) * 65536 / max_s(cos_spec(x), 1)
}

/// The sine of `x` (radians), within `[-1, 1]`.
pub fn fx_sin(x: i64) -> (r: i64)
    requires
        -0x2000_0000_0000 <= x <= 0x2000_0000_0000,
    ensures
        r == sin_spec(x as int),
        -65536 <= r <= 65536,
{
    let two_pi: i64 = 411774;
    let q = div_floor(x as i128, two_pi as i128) as i64;
    proof {
        lemma_div_bounded(x as int, two_pi as int, 0x2000_0000_0000);
        vstd::arithmetic::div_mod::lemma_fundamental_div_mod(x as int, two_pi as int);
        vstd::arithmetic::div_mod::lemma_mod_bound(x as int, two_pi as int);
        assert(two_pi as int * (x as int / two_pi as int) == q as int * two_pi as int)
            by (nonlinear_arith)
            requires
                q as int == x as int / two_pi as int;
        assert(q as int * two_pi as int == x as int - (x as int % two_pi as int));
    }
    let mut e: i64 = x - q * two_pi;
    proof {
        assert(0 <= e < 411774);
    }
    if e > FX_PI {
        e = e - two_pi;
    }
    if e > 102943 {
        e = FX_PI - e;
    }
    if e < -102943 {
        e = -FX_PI - e;
    }
    let e2 = clamp(mul_small(e, e), 0, 0x4_0000);
    let e3 = clamp(mul_small(e2, e), -0x8_0000, 0x8_0000);
    let e5 = clamp(mul_small(e3, e2), -0x20_0000, 0x20_0000);
    let e7 = clamp(mul_small(e5, e2), -0x80_0000, 0x80_0000);
    let s = e - div_small(e3, 6) + div_small(e5, 120) - div_small(e7, 5040);
    let r = clamp(s, -FX_ONE, FX_ONE);
    proof {
        assert(r == sin_spec(x as int));
    }
    r
}

/// The cosine of `x` (radians), within `[-1, 1]`.
pub fn fx_cos(x: i64) -> (r: i64)
    requires
        -0x1000_0000_0000 <= x <= 0x1000_0000_0000,
    ensures
        r == cos_spec(x as int),
        -65536 <= r <= 65536,
{
    fx_sin(x + 102944)
}

/// The octant-reduced arc-tangent approximation of a quotient in `[0, 1]`.
pub open spec fn atan_base_spec(z: int) -> int {
    let corr = clamp_s(51471 + 17895 * (65536 - z) / 65536, 0, 102943);
    clamp_s(z * corr / 65536, 0, 102943)
}

/// The value the fixed-point two-argument arc tangent produces.
pub open spec fn atan2_spec(y: int, x: int) -> int {
    let ax = abs_s(x);
    let ay = abs_s(y);
    if ax == 0 && ay == 0 {
        0
    } else {
        let base = if ax >= ay {
            atan_base_spec(clamp_s(ay * 65536 / max_s(ax, 1), 0, 65536))
        } else {
            102944 - atan_base_spec(clamp_s(ax * 65536 / max_s(ay, 1), 0, 65536))
        };
        let quad = if x >= 0 {
            base
        } else {
            205887 - base
        };
        if y >= 0 {
            quad
        } else {
            -quad
        }
    }
}

/// The value the fixed-point arc cosine produces.
pub open spec fn acos_spec(t: int) -> int {
    let t2 = clamp_s(t * t / 65536, 0, 65536);
    let s2 = max_s(65536 - t2, 0);
    atan2_spec(crate::fixed::isqrt_spec((s2 * 65536) as nat) as int, t)
}

/// The arc tangent of `y / x` in `[-pi, pi]`, by octant reduction and a
/// small rational approximation.
pub fn fx_atan2(y: i64, x: i64) -> (r: i64)
    requires
        -0x4000_0000 <= y <= 0x4000_0000,
        -0x4000_0000 <= x <= 0x4000_0000,
    ensures
        r == atan2_spec(y as int, x as int),
        -205887 <= r <= 205887,
        y >= 0 ==> r >= 0,
{
    let ax = fx_abs(x);
    let ay = fx_abs(y);
    if ax == 0 && ay == 0 {
        return 0;
    }
    let base = if ax >= ay {
        // |y/x| <= 1: atan(z) ~ z * (pi/4 + 0.273 * (1 - z))
        let z = ratio_unit(ay, fmax(ax, 1));
        let corr = clamp(51471 + mul_small(17895, FX_ONE - z), 0, 102943);
        clamp(mul_small(z, corr), 0, 102943)
    } else {
        let z = ratio_unit(ax, fmax(ay, 1));
        let corr = clamp(51471 + mul_small(17895, FX_ONE - z), 0, 102943);
        102944 - clamp(mul_small(z, corr), 0, 102943)
    };
    let quad = if x >= 0 {
        base
    } else {
        FX_PI - base
    };
    if y >= 0 {
        quad
    } else {
        -quad
    }
}

/// The quotient of two small non-negative scalars, clamped into `[0, 1]`.
fn ratio_unit(a: i64, b: i64) -> (r: i64)
    requires
        0 <= a <= 0x4000_0000,
        1 <= b <= 0x4000_0000,
    ensures
        r == clamp_s(a as int * 65536 / b as int, 0, 65536),
        0 <= r <= 65536,
{
    proof {
        assert(0 <= a as int * 65536 <= 0x4000_0000_0000_0000) by (nonlinear_arith)
            requires
                0 <= a as int <= 0x4000_0000;
        lemma_div_bounded(a as int * 65536, b as int, 0x4000_0000_0000_0000);
    }
    let q = div_floor((a as i128) * 65536, b as i128) as i64;
    clamp(q, 0, FX_ONE)
}

/// The arc cosine of a scalar in `[-1, 1]`, within `[0, pi]`.
pub fn fx_acos(t: i64) -> (r: i64)
    requires
        -65536 <= t <= 65536,
    ensures
        r == acos_spec(t as int),
        0 <= r <= 205887,
{
    let t2 = clamp(mul_small(t, t), 0, FX_ONE);
    let s2 = fmax(FX_ONE - t2, 0);
    let s = fx_sqrt(s2);
    proof {
        assert(s as int <= 0x4000_0000) by (nonlinear_arith)
            requires
                s as int * s as int <= s2 as int * 65536,
                0 <= s2 <= 65536,
                s >= 0;
    }
    fx_atan2(s, t)
}

/// The mantissa-and-exponent normalization of the logarithm: doubling until
/// the value reaches one, at most seventeen times.
pub open spec fn ln_norm(m: int, s: int) -> (int, int)
    decreases 17 - s,
{
    if m < 65536 && s < 17 && s >= 0 {
        ln_norm(2 * m, s + 1)
    } else {
        (m, s)
    }
}

/// The value the fixed-point negated-logarithm computation produces:
/// normalize, take the atanh series of the mantissa, and recombine with the
/// exponent times ln 2.
pub open spec fn neg_ln_spec(u: int) -> int {
    let norm = ln_norm(u, 0);
    let m = norm.0;
    let s = norm.1;
    let z = clamp_s(max_s(m - 65536, 0) * 65536 / (m + 65536), 0, 22000);
    let z2 = clamp_s(z * z / 65536, 0, 8000);
    let z3 = clamp_s(z2 * z / 65536, 0, 3000);
    let z5 = clamp_s(z3 * z2 / 65536, 0, 1000);
    let lnm = 2 * (z + z3 / 3 + z5 / 5);
    clamp_s(s * 45426 - clamp_s(lnm, 0, 45426), 0, 2000000)
}

/// Minus the natural logarithm of a draw from `(0, 1]`, non-negative.
pub fn fx_neg_ln(u: i64) -> (r: i64)
    requires
        1 <= u <= 65536,
    ensures
        r == neg_ln_spec(u as int),
        0 <= r <= 2000000,
{
    let mut m: i64 = u;
    let mut s: i64 = 0;
    while m < 65536 && s < 17
        invariant
            1 <= m <= 131070,
            0 <= s <= 17,
            ln_norm(m as int, s as int) == ln_norm(u as int, 0),
        decreases 17 - s,
    {
        m = m * 2;
        s = s + 1;
    }
    proof {
        assert((m as int, s as int) == ln_norm(u as int, 0));
    }
    // m/65536 is in [1, 2); ln(m/65536) via the atanh series in
    // z = (m - 1) / (m + 1).
    let num = fmax(m - 65536, 0);
    proof {
        lemma_div_bounded(num as int * 65536, m as int + 65536, 0x1_0000_0000_0000);
        assert(0 <= num as int * 65536 <= 0x1_0000_0000_0000) by (nonlinear_arith)
            requires
                0 <= num as int <= 65536;
    }
    let z = div_floor((num as i128) * 65536, (m as i128) + 65536) as i64;
    let zc = clamp(z, 0, 22000);
    let z2 = clamp(mul_small(zc, zc), 0, 8000);
    let z3 = clamp(mul_small(z2, zc), 0, 3000);
    let z5 = clamp(mul_small(z3, z2), 0, 1000);
    let lnm = 2 * (zc + div_small(z3, 3) + div_small(z5, 5));
    // -ln(u/65536) = s * ln 2 - ln(m/65536)
    let ln2: i64 = 45426;
    let r = s * ln2 - clamp(lnm, 0, 45426);
    let res = clamp(r, 0, 2000000);
    proof {
        assert(res == neg_ln_spec(u as int));
    }
    res
}

/// The tangent of `x`, as the quotient of sine and cosine; a cosine that
/// rounds to zero or below is raised to the smallest positive scalar, so the
/// function is total (callers stay away from odd multiples of pi/2).
pub fn fx_tan(x: i64) -> (r: i64)
    requires
        -0x1000_0000_0000 <= x <= 0x1000_0000_0000,
    ensures
        r == tan_spec(x as int),
        -0x1_0000_0000 <= r <= 0x1_0000_0000,
{
    let s = fx_sin(x);
    let c = fmax(fx_cos(x), 1);
    proof {
        assert(-0x1_0000_0000 <= s as int * 65536 <= 0x1_0000_0000) by (nonlinear_arith)
            requires
                -65536 <= s as int <= 65536;
        lemma_div_bounded(s as int * 65536, c as int, 0x1_0000_0000);
    }
    let q = div_floor((s as i128) * 65536, c as i128);
    q as i64
}

} // verus!

//! Three-component fixed-point vectors, points and colors.

use crate::fixed::{div_floor, fx_div, isqrt_spec, sqrt_u128};
use crate::rng::{random_double, random_double_lr};
use vstd::arithmetic::div_mod::lemma_div_is_ordered;
use vstd::prelude::*;

verus! {

/// Coordinates are kept within this magnitude (about 4.1 million in world
/// units), which leaves room for every product the tracer forms.
pub const VLIM: i64 = 0x40_0000_0000;

#[derive(Copy, Clone, Debug, PartialEq, Eq, Structural)]
pub struct Vec3 {
    pub x: i64,
    pub y: i64,
    pub z: i64,
}

impl Default for Vec3 {
    /// The zero vector.
    fn default() -> (r: Vec3)
        ensures
            r == (Vec3 { x: 0, y: 0, z: 0 }),
    {
        Vec3 { x: 0, y: 0, z: 0 }
    }
}

pub type Color = Vec3;

pub type Point3 = Vec3;

/// A vector whose components all lie within the working magnitude.
pub open spec fn vec_ok(v: Vec3) -> bool {
    &&& -0x40_0000_0000 <= v.x <= 0x40_0000_0000
    &&& -0x40_0000_0000 <= v.y <= 0x40_0000_0000
    &&& -0x40_0000_0000 <= v.z <= 0x40_0000_0000
}

/// Fixed-point product of two scalars, rounded toward negative infinity.
pub open spec fn fxm(a: int, b: int) -> int {
    a * b / 65536
}

/// The inner product, with a single final rounding.
pub open spec fn dot_spec(a: Vec3, b: Vec3) -> int {
    (a.x * b.x + a.y * b.y + a.z * b.z) / 65536
}

/// The squared length in raw (value * 2^32) units, computed exactly.
pub open spec fn raw_len2(v: Vec3) -> int {
    v.x * v.x + v.y * v.y + v.z * v.z
}

/// The length of `v` as a fixed-point scalar, rounded down.
pub open spec fn len_spec(v: Vec3) -> int {
    isqrt_spec(raw_len2(v) as nat) as int
}

/// Products of bounded vectors stay bounded.
proof fn lemma_prod_bound(a: int, b: int, m: int, n: int)
    by (nonlinear_arith)
    requires
        -m <= a <= m,
        -n <= b <= n,
        0 <= m,
        0 <= n,
    ensures
        -(m * n) <= a * b <= m * n,
{
}

/// The inner product of two working vectors fits an `i64`.
pub proof fn lemma_dot_fits(a: Vec3, b: Vec3)
    requires
        vec_ok(a),
        vec_ok(b),
    ensures
        -0x3000_0000_0000_0000 <= dot_spec(a, b) <= 0x3000_0000_0000_0000,
        -0x1000_0000_0000_0000_0000 <= a.x * b.x <= 0x1000_0000_0000_0000_0000,
        -0x1000_0000_0000_0000_0000 <= a.y * b.y <= 0x1000_0000_0000_0000_0000,
        -0x1000_0000_0000_0000_0000 <= a.z * b.z <= 0x1000_0000_0000_0000_0000,
        -0x3000_0000_0000_0000_0000 <= a.x * b.x + a.y * b.y + a.z * b.z
            <= 0x3000_0000_0000_0000_0000,
{
    lemma_prod_bound(a.x as int, b.x as int, 0x40_0000_0000, 0x40_0000_0000);
    lemma_prod_bound(a.y as int, b.y as int, 0x40_0000_0000, 0x40_0000_0000);
    lemma_prod_bound(a.z as int, b.z as int, 0x40_0000_0000, 0x40_0000_0000);
    let s = a.x * b.x + a.y * b.y + a.z * b.z;
    crate::fixed::lemma_div_bounded(s, 65536, 0x3000_0000_0000_0000_0000);
    lemma_div_is_ordered(s, (0x3000_0000_0000_0000 as int) * 65536, 65536);
    lemma_div_is_ordered((-0x3000_0000_0000_0000 as int) * 65536, s, 65536);
    vstd::arithmetic::div_mod::lemma_div_multiples_vanish(0x3000_0000_0000_0000, 65536);
    vstd::arithmetic::div_mod::lemma_div_multiples_vanish(-0x3000_0000_0000_0000, 65536);
}

impl Vec3 {
    /// Component access by position: 0 is x, 1 is y, anything else z.
    pub fn axis(&self, i: usize) -> (r: i64)
        ensures
            r == if i == 0 { self.x } else if i == 1 { self.y } else { self.z },
    {
        if i == 0 {
            self.x
        } else if i == 1 {
            self.y
        } else {
            self.z
        }
    }

    pub fn x(&self) -> (r: i64)
        ensures
            r == self.x,
    {
        self.x
    }

    pub fn y(&self) -> (r: i64)
        ensures
            r == self.y,
    {
        self.y
    }

    pub fn z(&self) -> (r: i64)
        ensures
            r == self.z,
    {
        self.z
    }

    /// Componentwise sum.
    pub fn add(self, other: Vec3) -> (r: Vec3)
        requires
            i64::MIN <= self.x + other.x <= i64::MAX,
            i64::MIN <= self.y + other.y <= i64::MAX,
            i64::MIN <= self.z + other.z <= i64::MAX,
        ensures
            r.x == self.x + other.x,
            r.y == self.y + other.y,
            r.z == self.z + other.z,
    {
        Vec3 { x: self.x + other.x, y: self.y + other.y, z: self.z + other.z }
    }

    /// Componentwise difference.
    pub fn sub(self, other: Vec3) -> (r: Vec3)
        requires
            i64::MIN <= self.x - other.x <= i64::MAX,
            i64::MIN <= self.y - other.y <= i64::MAX,
            i64::MIN <= self.z - other.z <= i64::MAX,
        ensures
            r.x == self.x - other.x,
            r.y == self.y - other.y,
            r.z == self.z - other.z,
    {
        Vec3 { x: self.x - other.x, y: self.y - other.y, z: self.z - other.z }
    }

    /// Componentwise (Hadamard) product.
    pub fn mul(self, a: Vec3) -> (r: Vec3)
        requires
            vec_ok(self),
            vec_ok(a),
        ensures
            r.x == fxm(self.x as int, a.x as int),
            r.y == fxm(self.y as int, a.y as int),
            r.z == fxm(self.z as int, a.z as int),
    {
        proof {
            lemma_dot_fits(self, a);
            lemma_comp_div_fits(self.x as int, a.x as int);
            lemma_comp_div_fits(self.y as int, a.y as int);
            lemma_comp_div_fits(self.z as int, a.z as int);
        }
        Vec3 {
            x: div_floor((self.x as i128) * (a.x as i128), 65536) as i64,
            y: div_floor((self.y as i128) * (a.y as i128), 65536) as i64,
            z: div_floor((self.z as i128) * (a.z as i128), 65536) as i64,
        }
    }

    /// The vector scaled by a fixed-point scalar.
    pub fn scale(self, s: i64) -> (r: Vec3)
        requires
            vec_ok(self),
            -0x40_0000_0000 <= s <= 0x40_0000_0000,
        ensures
            r.x == fxm(self.x as int, s as int),
            r.y == fxm(self.y as int, s as int),
            r.z == fxm(self.z as int, s as int),
    {
        proof {
            lemma_comp_div_fits(self.x as int, s as int);
            lemma_comp_div_fits(self.y as int, s as int);
            lemma_comp_div_fits(self.z as int, s as int);
        }
        Vec3 {
            x: div_floor((self.x as i128) * (s as i128), 65536) as i64,
            y: div_floor((self.y as i128) * (s as i128), 65536) as i64,
            z: div_floor((self.z as i128) * (s as i128), 65536) as i64,
        }
    }

    /// True exactly when the vector is the zero vector (the smallest
    /// representable magnitude plays the part of the usual epsilon).
    pub fn near_zero(&self) -> (r: bool)
        ensures
            r == (self.x == 0 && self.y == 0 && self.z == 0),
    {
        self.x == 0 && self.y == 0 && self.z == 0
    }

    /// The squared length as a fixed-point scalar.
    pub fn length_squared(&self) -> (r: i64)
        requires
            vec_ok(*self),
        ensures
            r == dot_spec(*self, *self),
            r >= 0,
    {
        proof {
            lemma_dot_fits(*self, *self);
            lemma_prod_bound(self.x as int, self.x as int, 0x40_0000_0000, 0x40_0000_0000);
            assert(self.x * self.x >= 0 && self.y * self.y >= 0 && self.z * self.z >= 0)
                by (nonlinear_arith);
            vstd::arithmetic::div_mod::lemma_div_pos_is_pos(raw_len2(*self), 65536);
        }
        let p: i128 = (self.x as i128) * (self.x as i128) + (self.y as i128) * (self.y as i128)
            + (self.z as i128) * (self.z as i128);
        div_floor(p, 65536) as i64
    }

    /// The length as a fixed-point scalar, rounded down.
    pub fn length(&self) -> (r: i64)
        requires
            vec_ok(*self),
        ensures
            r == len_spec(*self),
            r >= 0,
            r * r <= raw_len2(*self) < (r + 1) * (r + 1),
            r == 0 <==> *self == (Vec3 { x: 0, y: 0, z: 0 }),
    {
        proof {
            lemma_dot_fits(*self, *self);
            lemma_prod_bound(self.x as int, self.x as int, 0x40_0000_0000, 0x40_0000_0000);
            assert(self.x * self.x >= 0 && self.y * self.y >= 0 && self.z * self.z >= 0)
                by (nonlinear_arith);
            assert(self.x != 0 ==> self.x * self.x >= 1) by (nonlinear_arith);
            assert(self.y != 0 ==> self.y * self.y >= 1) by (nonlinear_arith);
            assert(self.z != 0 ==> self.z * self.z >= 1) by (nonlinear_arith);
        }
        let p: u128 = ((self.x as i128) * (self.x as i128) + (self.y as i128) * (self.y as i128)
            + (self.z as i128) * (self.z as i128)) as u128;
        let r = sqrt_u128(p);
        proof {
            if r == 0 {
                assert(raw_len2(*self) < (0 + 1) * (0 + 1));
                assert(self.x == 0 && self.y == 0 && self.z == 0);
            }
            if raw_len2(*self) == 0 {
                assert(r * r <= 0);
                assert(r == 0) by (nonlinear_arith)
                    requires
                        r as int * r as int <= 0;
            }
            assert(r == 0 ==> *self == Vec3 { x: 0, y: 0, z: 0 });
            if *self == (Vec3 { x: 0, y: 0, z: 0 }) {
                assert(self.x == 0 && self.y == 0 && self.z == 0);
                assert(raw_len2(*self) == 0) by (nonlinear_arith)
                    requires
                        self.x == 0 && self.y == 0 && self.z == 0,
                        raw_len2(*self) == self.x * self.x + self.y * self.y + self.z * self.z;
            }
            assert(*self == Vec3 { x: 0, y: 0, z: 0 } ==> r == 0);
            assert(((r as i64) == 0) == (*self == Vec3 { x: 0, y: 0, z: 0 }));
        }
        r as i64
    }

    /// A vector of three independent uniform draws from `[0, 1)`.
    pub fn random() -> (r: Vec3)
        ensures
            0 <= r.x < 65536,
            0 <= r.y < 65536,
            0 <= r.z < 65536,
    {
        Vec3 { x: random_double(), y: random_double(), z: random_double() }
    }

    /// A vector of three independent uniform draws from `[min, max]`.
    pub fn random_lr(min: i64, max: i64) -> (r: Vec3)
        requires
            min <= max,
            -0x40_0000_0000 <= min,
            max <= 0x40_0000_0000,
        ensures
            min <= r.x <= max,
            min <= r.y <= max,
            min <= r.z <= max,
    {
        Vec3 {
            x: random_double_lr(min, max),
            y: random_double_lr(min, max),
            z: random_double_lr(min, max),
        }
    }
}

/// A single component product over the working range fits an `i64`.
proof fn lemma_comp_div_fits(a: int, b: int)
    requires
        -0x40_0000_0000 <= a <= 0x40_0000_0000,
        -0x40_0000_0000 <= b <= 0x40_0000_0000,
    ensures
        -0x1000_0000_0000_0000 <= a * b / 65536 <= 0x1000_0000_0000_0000,
{
    lemma_prod_bound(a, b, 0x40_0000_0000, 0x40_0000_0000);
    lemma_div_is_ordered(a * b, 0x1000_0000_0000_0000_0000, 65536);
    lemma_div_is_ordered(-0x1000_0000_0000_0000_0000, a * b, 65536);
}

/// The inner product of two vectors.
pub fn dot(a: Vec3, b: Vec3) -> (r: i64)
    requires
        vec_ok(a),
        vec_ok(b),
    ensures
        r == dot_spec(a, b),
{
    proof {
        lemma_dot_fits(a, b);
    }
    let p: i128 = (a.x as i128) * (b.x as i128) + (a.y as i128) * (b.y as i128) + (a.z as i128)
        * (b.z as i128);
    div_floor(p, 65536) as i64
}

/// One component of the cross product, with a single final rounding.
pub open spec fn cross_comp(a: int, b: int, c: int, d: int) -> int {
    (a * b - c * d) / 65536
}

/// The cross product.
pub fn cross(u: Vec3, v: Vec3) -> (r: Vec3)
    requires
        vec_ok(u),
        vec_ok(v),
    ensures
        r.x == cross_comp(u.y as int, v.z as int, u.z as int, v.y as int),
        r.y == cross_comp(u.z as int, v.x as int, u.x as int, v.z as int),
        r.z == cross_comp(u.x as int, v.y as int, u.y as int, v.x as int),
{
    proof {
        lemma_cross_fits(u.y as int, v.z as int, u.z as int, v.y as int);
        lemma_cross_fits(u.z as int, v.x as int, u.x as int, v.z as int);
        lemma_cross_fits(u.x as int, v.y as int, u.y as int, v.x as int);
    }
    Vec3 {
        x: div_floor((u.y as i128) * (v.z as i128) - (u.z as i128) * (v.y as i128), 65536) as i64,
        y: div_floor((u.z as i128) * (v.x as i128) - (u.x as i128) * (v.z as i128), 65536) as i64,
        z: div_floor((u.x as i128) * (v.y as i128) - (u.y as i128) * (v.x as i128), 65536) as i64,
    }
}

/// A difference of two working products fits an `i64` after scaling down.
proof fn lemma_cross_fits(a: int, b: int, c: int, d: int)
    requires
        -0x40_0000_0000 <= a <= 0x40_0000_0000,
        -0x40_0000_0000 <= b <= 0x40_0000_0000,
        -0x40_0000_0000 <= c <= 0x40_0000_0000,
        -0x40_0000_0000 <= d <= 0x40_0000_0000,
    ensures
        -0x1000_0000_0000_0000_0000 <= a * b <= 0x1000_0000_0000_0000_0000,
        -0x1000_0000_0000_0000_0000 <= c * d <= 0x1000_0000_0000_0000_0000,
        -0x2000_0000_0000_0000_0000 <= (a * b - c * d) / 65536 <= 0x2000_0000_0000_0000_0000,
{
    lemma_prod_bound(a, b, 0x40_0000_0000, 0x40_0000_0000);
    lemma_prod_bound(c, d, 0x40_0000_0000, 0x40_0000_0000);
    crate::fixed::lemma_div_bounded(a * b - c * d, 65536, 0x2000_0000_0000_0000_0000);
}

/// One component of a vector divided by the vector's length.
pub open spec fn unit_comp(c: int, len: int) -> int {
    c * 65536 / len
}

/// The unit vector of `v`, as a mathematical function.
pub open spec fn unit_spec(v: Vec3) -> Vec3 {
    Vec3 {
        x: unit_comp(v.x as int, len_spec(v)) as i64,
        y: unit_comp(v.y as int, len_spec(v)) as i64,
        z: unit_comp(v.z as int, len_spec(v)) as i64,
    }
}

/// The cross product of near-unit vectors has small components.
pub proof fn lemma_cross_of_units_bounded(u: Vec3, v: Vec3)
    requires
        -0x2_0000 <= u.x <= 0x2_0000,
        -0x2_0000 <= u.y <= 0x2_0000,
        -0x2_0000 <= u.z <= 0x2_0000,
        -0x2_0000 <= v.x <= 0x2_0000,
        -0x2_0000 <= v.y <= 0x2_0000,
        -0x2_0000 <= v.z <= 0x2_0000,
    ensures
        -0x8_0000 <= cross_comp(u.y as int, v.z as int, u.z as int, v.y as int) <= 0x8_0000,
        -0x8_0000 <= cross_comp(u.z as int, v.x as int, u.x as int, v.z as int) <= 0x8_0000,
        -0x8_0000 <= cross_comp(u.x as int, v.y as int, u.y as int, v.x as int) <= 0x8_0000,
{
    lemma_cross_comp_small(u.y as int, v.z as int, u.z as int, v.y as int);
    lemma_cross_comp_small(u.z as int, v.x as int, u.x as int, v.z as int);
    lemma_cross_comp_small(u.x as int, v.y as int, u.y as int, v.x as int);
}

proof fn lemma_cross_comp_small(a: int, b: int, c: int, d: int)
    requires
        -0x2_0000 <= a <= 0x2_0000,
        -0x2_0000 <= b <= 0x2_0000,
        -0x2_0000 <= c <= 0x2_0000,
        -0x2_0000 <= d <= 0x2_0000,
    ensures
        -0x8_0000 <= cross_comp(a, b, c, d) <= 0x8_0000,
{
    assert(-0x8_0000_0000 <= a * b - c * d <= 0x8_0000_0000) by (nonlinear_arith)
        requires
            -0x2_0000 <= a <= 0x2_0000,
            -0x2_0000 <= b <= 0x2_0000,
            -0x2_0000 <= c <= 0x2_0000,
            -0x2_0000 <= d <= 0x2_0000;
    lemma_div_is_ordered(a * b - c * d, 0x8_0000_0000, 65536);
    lemma_div_is_ordered(-0x8_0000_0000, a * b - c * d, 65536);
}

/// The vector scaled to unit length (within rounding).
pub fn unit_vector(v: Vec3) -> (r: Vec3)
    requires
        vec_ok(v),
        v != (Vec3 { x: 0, y: 0, z: 0 }),
    ensures
        r.x == unit_comp(v.x as int, len_spec(v)),
        r.y == unit_comp(v.y as int, len_spec(v)),
        r.z == unit_comp(v.z as int, len_spec(v)),
        r == unit_spec(v),
        -65536 <= r.x <= 65536,
        -65536 <= r.y <= 65536,
        -65536 <= r.z <= 65536,
{
    let len = v.length();
    proof {
        lemma_unit_fits(v.x as int, len as int);
        lemma_unit_fits(v.y as int, len as int);
        lemma_unit_fits(v.z as int, len as int);
        lemma_unit_bounds(v);
    }
    let r = Vec3 { x: fx_div(v.x, len), y: fx_div(v.y, len), z: fx_div(v.z, len) };
    proof {
        assert(r.x == unit_spec(v).x && r.y == unit_spec(v).y && r.z == unit_spec(v).z);
        assert(r == unit_spec(v));
    }
    r
}

/// Scaling a working component up by one never overflows.
proof fn lemma_unit_fits(c: int, len: int)
    requires
        -0x40_0000_0000 <= c <= 0x40_0000_0000,
        len >= 1,
    ensures
        -0x40_0000_0000_0000 <= c * 65536 / len <= 0x40_0000_0000_0000,
{
    lemma_prod_bound(c, 65536, 0x40_0000_0000, 65536);
    crate::fixed::lemma_div_bounded(c * 65536, len, 0x40_0000_0000_0000);
}

/// A component no longer than the length divides to a value within one.
proof fn lemma_unit_small(c: int, len: int)
    requires
        len >= 1,
        -len <= c <= len,
    ensures
        -65536 <= c * 65536 / len <= 65536,
{
    vstd::arithmetic::mul::lemma_mul_inequality(c, len, 65536);
    assert(c * 65536 <= len * 65536 && -(len * 65536) <= c * 65536) by (nonlinear_arith)
        requires
            -len <= c <= len;
    lemma_div_is_ordered(c * 65536, len * 65536, len);
    lemma_div_is_ordered(-(len * 65536), c * 65536, len);
    vstd::arithmetic::div_mod::lemma_div_multiples_vanish(65536, len);
    assert(len * 65536 == 65536 * len && -(len * 65536) == len * -65536) by (nonlinear_arith);
    vstd::arithmetic::div_mod::lemma_div_multiples_vanish(-65536, len);
    assert(len * -65536 == -65536 * len) by (nonlinear_arith);
}

/// Each component of a vector is bounded by the vector's length.
pub proof fn lemma_comp_le_len(v: Vec3)
    requires
        vec_ok(v),
        v != (Vec3 { x: 0, y: 0, z: 0 }),
    ensures
        len_spec(v) >= 1,
        -len_spec(v) <= v.x <= len_spec(v),
        -len_spec(v) <= v.y <= len_spec(v),
        -len_spec(v) <= v.z <= len_spec(v),
{
    let n = raw_len2(v);
    assert(v.x * v.x >= 0 && v.y * v.y >= 0 && v.z * v.z >= 0) by (nonlinear_arith);
    assert(v.x != 0 ==> v.x * v.x >= 1) by (nonlinear_arith);
    assert(v.y != 0 ==> v.y * v.y >= 1) by (nonlinear_arith);
    assert(v.z != 0 ==> v.z * v.z >= 1) by (nonlinear_arith);
    crate::fixed::lemma_isqrt(n as nat);
    let l = len_spec(v);
    assert(l >= 0);
    assert(v.x != 0 || v.y != 0 || v.z != 0) by {
        if v.x == 0 && v.y == 0 && v.z == 0 {
            assert(v == Vec3 { x: 0, y: 0, z: 0 });
        }
    }
    assert(n >= 1);
    assert(l >= 1) by (nonlinear_arith)
        requires
            l >= 0,
            n >= 1,
            n < (l + 1) * (l + 1);
    assert(-l <= v.x <= l && -l <= v.y <= l && -l <= v.z <= l) by (nonlinear_arith)
        requires
            v.x * v.x <= n,
            v.y * v.y <= n,
            v.z * v.z <= n,
            n < (l + 1) * (l + 1),
            l >= 0,
            v.x * v.x >= 0,
            v.y * v.y >= 0,
            v.z * v.z >= 0;
}

/// A unit vector's components lie within one of either sign.
pub proof fn lemma_unit_bounds(v: Vec3)
    requires
        vec_ok(v),
        v != (Vec3 { x: 0, y: 0, z: 0 }),
    ensures
        len_spec(v) >= 1,
        -65536 <= unit_comp(v.x as int, len_spec(v)) <= 65536,
        -65536 <= unit_comp(v.y as int, len_spec(v)) <= 65536,
        -65536 <= unit_comp(v.z as int, len_spec(v)) <= 65536,
{
    lemma_comp_le_len(v);
    lemma_unit_small(v.x as int, len_spec(v));
    lemma_unit_small(v.y as int, len_spec(v));
    lemma_unit_small(v.z as int, len_spec(v));
}

/// One component of the mirror image of `v` about a normal `n` with
/// (doubled) inner product `d`.
pub open spec fn reflect_comp(vc: int, nc: int, d: int) -> int {
    vc - nc * (2 * d) / 65536
}

/// The mirror image, as a mathematical function.
pub open spec fn reflect_spec(v: Vec3, n: Vec3) -> Vec3 {
    Vec3 {
        x: reflect_comp(v.x as int, n.x as int, dot_spec(v, n)) as i64,
        y: reflect_comp(v.y as int, n.y as int, dot_spec(v, n)) as i64,
        z: reflect_comp(v.z as int, n.z as int, dot_spec(v, n)) as i64,
    }
}

/// The mirror image of `v` about the surface normal `n`.
pub fn reflect(v: Vec3, n: Vec3) -> (r: Vec3)
    requires
        -0x2_0000 <= v.x <= 0x2_0000,
        -0x2_0000 <= v.y <= 0x2_0000,
        -0x2_0000 <= v.z <= 0x2_0000,
        -0x2_0000 <= n.x <= 0x2_0000,
        -0x2_0000 <= n.y <= 0x2_0000,
        -0x2_0000 <= n.z <= 0x2_0000,
    ensures
        r == reflect_spec(v, n),
        -0x40_0000 <= r.x <= 0x40_0000,
        -0x40_0000 <= r.y <= 0x40_0000,
        -0x40_0000 <= r.z <= 0x40_0000,
{
    let d = dot(v, n);
    proof {
        lemma_prod_bound(v.x as int, n.x as int, 0x2_0000, 0x2_0000);
        lemma_prod_bound(v.y as int, n.y as int, 0x2_0000, 0x2_0000);
        lemma_prod_bound(v.z as int, n.z as int, 0x2_0000, 0x2_0000);
        lemma_div_is_ordered(v.x * n.x + v.y * n.y + v.z * n.z, 0xC_0000_0000, 65536);
        lemma_div_is_ordered(-0xC_0000_0000, v.x * n.x + v.y * n.y + v.z * n.z, 65536);
        lemma_prod_bound(n.x as int, 2 * d as int, 0x2_0000, 0x18_0000);
        lemma_prod_bound(n.y as int, 2 * d as int, 0x2_0000, 0x18_0000);
        lemma_prod_bound(n.z as int, 2 * d as int, 0x2_0000, 0x18_0000);
        lemma_div_is_ordered(n.x as int * (2 * d as int), 0x30_0000_0000, 65536);
        lemma_div_is_ordered(-0x30_0000_0000, n.x as int * (2 * d as int), 65536);
        lemma_div_is_ordered(n.y as int * (2 * d as int), 0x30_0000_0000, 65536);
        lemma_div_is_ordered(-0x30_0000_0000, n.y as int * (2 * d as int), 65536);
        lemma_div_is_ordered(n.z as int * (2 * d as int), 0x30_0000_0000, 65536);
        lemma_div_is_ordered(-0x30_0000_0000, n.z as int * (2 * d as int), 65536);
    }
    let rx = v.x - (div_floor((n.x as i128) * (2 * (d as i128)), 65536) as i64);
    let ry = v.y - (div_floor((n.y as i128) * (2 * (d as i128)), 65536) as i64);
    let rz = v.z - (div_floor((n.z as i128) * (2 * (d as i128)), 65536) as i64);
    let r = Vec3 { x: rx, y: ry, z: rz };
    proof {
        assert(r.x == reflect_spec(v, n).x && r.y == reflect_spec(v, n).y && r.z == reflect_spec(
            v,
            n,
        ).z);
        assert(r == reflect_spec(v, n));
    }
    r
}

/// One perpendicular component of the refracted direction.
pub open spec fn refract_perp_comp(uc: int, nc: int, cos_c: int, etai: int) -> int {
    crate::fixed::clamp_s(
        fxm(
            crate::fixed::clamp_s(uc + fxm(nc, cos_c), -0x40_0000_0000, 0x40_0000_0000),
            etai,
        ),
        -0x1000_0000,
        0x1000_0000,
    )
}

/// The refracted direction, as a mathematical function: the exact value the
/// fixed-point Snell computation produces.
pub open spec fn refract_spec(uv: Vec3, n: Vec3, etai: i64) -> Vec3 {
    let d = (-uv.x * n.x + -uv.y * n.y + -uv.z * n.z) / 65536;
    let cos_c = crate::fixed::clamp_s(crate::fixed::min_s(d, 65536), -0x80_0000, 65536);
    let px = refract_perp_comp(uv.x as int, n.x as int, cos_c, etai as int);
    let py = refract_perp_comp(uv.y as int, n.y as int, cos_c, etai as int);
    let pz = refract_perp_comp(uv.z as int, n.z as int, cos_c, etai as int);
    let ls = (px * px + py * py + pz * pz) / 65536;
    let t = crate::fixed::abs_s(
        crate::fixed::clamp_s(65536 - ls, -0x7FFF_FFFF_FFFF_FFFF, 0x7FFF_FFFF_FFFF_FFFF),
    );
    let s = crate::fixed::isqrt_spec((t * 65536) as nat) as int;
    let sc = crate::fixed::clamp_s(s, 0, 0x100_0000);
    Vec3 {
        x: (px + fxm(n.x as int, -sc)) as i64,
        y: (py + fxm(n.y as int, -sc)) as i64,
        z: (pz + fxm(n.z as int, -sc)) as i64,
    }
}

/// The refracted direction by Snell's law.  For matched media (ratio one)
/// a dead-center ray passes through unchanged, exactly.
pub fn refract(uv: Vec3, n: Vec3, etai_over_etat: i64) -> (r: Vec3)
    requires
        -0x2_0000 <= uv.x <= 0x2_0000,
        -0x2_0000 <= uv.y <= 0x2_0000,
        -0x2_0000 <= uv.z <= 0x2_0000,
        -0x2_0000 <= n.x <= 0x2_0000,
        -0x2_0000 <= n.y <= 0x2_0000,
        -0x2_0000 <= n.z <= 0x2_0000,
        0 <= etai_over_etat <= 0x100_0000,
    ensures
        vec_ok(r),
        -0x3000_0000 <= r.x <= 0x3000_0000,
        -0x3000_0000 <= r.y <= 0x3000_0000,
        -0x3000_0000 <= r.z <= 0x3000_0000,
        r == refract_spec(uv, n, etai_over_etat),
        (uv.x == -n.x && uv.y == -n.y && uv.z == -n.z && dot_spec(n, n) == 65536
            && etai_over_etat == 65536) ==> (r.x == uv.x && r.y == uv.y && r.z == uv.z),
{
    let neg_uv = Vec3 { x: -uv.x, y: -uv.y, z: -uv.z };
    proof {
        lemma_dot_fits(neg_uv, n);
    }
    let cos_theta = crate::fixed::fmin(dot(neg_uv, n), 65536);
    let cos_c = crate::fixed::clamp(cos_theta, -0x80_0000, 65536);
    let scaled_n = n.scale(cos_c);
    proof {
        lemma_comp_div_fits(n.x as int, cos_c as int);
        lemma_comp_div_fits(n.y as int, cos_c as int);
        lemma_comp_div_fits(n.z as int, cos_c as int);
        assert(-0x20_0000_0000 <= fxm(n.x as int, cos_c as int) <= 0x20_0000_0000) by {
            assert(-0x2000_0000_0000 <= n.x as int * cos_c as int <= 0x2000_0000_0000)
                by (nonlinear_arith)
                requires
                    -0x2_0000 <= n.x as int <= 0x2_0000,
                    -0x80_0000 <= cos_c as int <= 0x80_0000;
            lemma_div_is_ordered(n.x as int * cos_c as int, 0x2000_0000_0000, 65536);
            lemma_div_is_ordered(-0x2000_0000_0000, n.x as int * cos_c as int, 65536);
        }
        assert(-0x20_0000_0000 <= fxm(n.y as int, cos_c as int) <= 0x20_0000_0000) by {
            assert(-0x2000_0000_0000 <= n.y as int * cos_c as int <= 0x2000_0000_0000)
                by (nonlinear_arith)
                requires
                    -0x2_0000 <= n.y as int <= 0x2_0000,
                    -0x80_0000 <= cos_c as int <= 0x80_0000;
            lemma_div_is_ordered(n.y as int * cos_c as int, 0x2000_0000_0000, 65536);
            lemma_div_is_ordered(-0x2000_0000_0000, n.y as int * cos_c as int, 65536);
        }
        assert(-0x20_0000_0000 <= fxm(n.z as int, cos_c as int) <= 0x20_0000_0000) by {
            assert(-0x2000_0000_0000 <= n.z as int * cos_c as int <= 0x2000_0000_0000)
                by (nonlinear_arith)
                requires
                    -0x2_0000 <= n.z as int <= 0x2_0000,
                    -0x80_0000 <= cos_c as int <= 0x80_0000;
            lemma_div_is_ordered(n.z as int * cos_c as int, 0x2000_0000_0000, 65536);
            lemma_div_is_ordered(-0x2000_0000_0000, n.z as int * cos_c as int, 65536);
        }
    }
    let pre = uv.add(scaled_n);
    let pre_c = Vec3 {
        x: crate::fixed::clamp(pre.x, -0x40_0000_0000, 0x40_0000_0000),
        y: crate::fixed::clamp(pre.y, -0x40_0000_0000, 0x40_0000_0000),
        z: crate::fixed::clamp(pre.z, -0x40_0000_0000, 0x40_0000_0000),
    };
    let r_out_perp = Vec3 {
        x: crate::fixed::clamp(pre_c.scale(etai_over_etat).x, -0x1000_0000, 0x1000_0000),
        y: crate::fixed::clamp(pre_c.scale(etai_over_etat).y, -0x1000_0000, 0x1000_0000),
        z: crate::fixed::clamp(pre_c.scale(etai_over_etat).z, -0x1000_0000, 0x1000_0000),
    };
    let ls = r_out_perp.length_squared();
    let t = crate::fixed::fx_abs(crate::fixed::clamp(65536 - ls, i64::MIN + 1, i64::MAX));
    let s = crate::fixed::fx_sqrt(t);
    let sc = crate::fixed::clamp(s, 0, 0x100_0000);
    let r_out_parallel = n.scale(-sc);
    proof {
        assert(-0x2000_0000 <= fxm(n.x as int, -(sc as int)) <= 0x2000_0000) by {
            assert(-0x2000_0000_0000 <= n.x as int * -(sc as int) <= 0x2000_0000_0000)
                by (nonlinear_arith)
                requires
                    -0x2_0000 <= n.x as int <= 0x2_0000,
                    0 <= sc as int <= 0x100_0000;
            lemma_div_is_ordered(n.x as int * -(sc as int), 0x2000_0000_0000, 65536);
            lemma_div_is_ordered(-0x2000_0000_0000, n.x as int * -(sc as int), 65536);
        }
        assert(-0x2000_0000 <= fxm(n.y as int, -(sc as int)) <= 0x2000_0000) by {
            assert(-0x2000_0000_0000 <= n.y as int * -(sc as int) <= 0x2000_0000_0000)
                by (nonlinear_arith)
                requires
                    -0x2_0000 <= n.y as int <= 0x2_0000,
                    0 <= sc as int <= 0x100_0000;
            lemma_div_is_ordered(n.y as int * -(sc as int), 0x2000_0000_0000, 65536);
            lemma_div_is_ordered(-0x2000_0000_0000, n.y as int * -(sc as int), 65536);
        }
        assert(-0x2000_0000 <= fxm(n.z as int, -(sc as int)) <= 0x2000_0000) by {
            assert(-0x2000_0000_0000 <= n.z as int * -(sc as int) <= 0x2000_0000_0000)
                by (nonlinear_arith)
                requires
                    -0x2_0000 <= n.z as int <= 0x2_0000,
                    0 <= sc as int <= 0x100_0000;
            lemma_div_is_ordered(n.z as int * -(sc as int), 0x2000_0000_0000, 65536);
            lemma_div_is_ordered(-0x2000_0000_0000, n.z as int * -(sc as int), 65536);
        }
        if uv.x == -n.x && uv.y == -n.y && uv.z == -n.z && dot_spec(n, n) == 65536
            && etai_over_etat == 65536 {
            assert(neg_uv.x == n.x && neg_uv.y == n.y && neg_uv.z == n.z);
            assert(neg_uv == n);
            assert(cos_theta == 65536);
            assert(cos_c == 65536);
            vstd::arithmetic::div_mod::lemma_div_multiples_vanish(n.x as int, 65536);
            vstd::arithmetic::div_mod::lemma_div_multiples_vanish(n.y as int, 65536);
            vstd::arithmetic::div_mod::lemma_div_multiples_vanish(n.z as int, 65536);
            assert(n.x as int * 65536 == 65536 * (n.x as int)) by (nonlinear_arith);
            assert(n.y as int * 65536 == 65536 * (n.y as int)) by (nonlinear_arith);
            assert(n.z as int * 65536 == 65536 * (n.z as int)) by (nonlinear_arith);
            assert(scaled_n.x == n.x && scaled_n.y == n.y && scaled_n.z == n.z);
            assert(pre.x == 0 && pre.y == 0 && pre.z == 0);
            assert(pre_c.x == 0 && pre_c.y == 0 && pre_c.z == 0);
            assert((0 as int) * 65536 / 65536 == 0);
            assert(r_out_perp.x == 0 && r_out_perp.y == 0 && r_out_perp.z == 0);
            assert(ls == 0) by {
                assert(dot_spec(r_out_perp, r_out_perp) == (0 as int) / 65536) by (nonlinear_arith)
                    requires
                        r_out_perp.x == 0 && r_out_perp.y == 0 && r_out_perp.z == 0,
                        dot_spec(r_out_perp, r_out_perp) == (r_out_perp.x * r_out_perp.x
                            + r_out_perp.y * r_out_perp.y + r_out_perp.z * r_out_perp.z) / 65536;
            }
            assert(t == 65536);
            assert(s == 65536) by {
                crate::fixed::lemma_isqrt_unique((65536 as int * 65536) as nat, 65536);
                assert((65536 as int) * 65536 <= 65536 * 65536);
                assert(65536 as int * 65536 < (65536 + 1) * (65536 + 1)) by (nonlinear_arith);
            }
            assert(sc == 65536);
            vstd::arithmetic::div_mod::lemma_div_multiples_vanish(-(n.x as int), 65536);
            vstd::arithmetic::div_mod::lemma_div_multiples_vanish(-(n.y as int), 65536);
            vstd::arithmetic::div_mod::lemma_div_multiples_vanish(-(n.z as int), 65536);
            assert(n.x as int * (-65536) == 65536 * (-(n.x as int))) by (nonlinear_arith);
            assert(n.y as int * (-65536) == 65536 * (-(n.y as int))) by (nonlinear_arith);
            assert(n.z as int * (-65536) == 65536 * (-(n.z as int))) by (nonlinear_arith);
            assert(r_out_parallel.x == -n.x && r_out_parallel.y == -n.y && r_out_parallel.z
                == -n.z);
        }
    }
    let res = Vec3 {
        x: r_out_perp.x + r_out_parallel.x,
        y: r_out_perp.y + r_out_parallel.y,
        z: r_out_perp.z + r_out_parallel.z,
    };
    proof {
        let m = refract_spec(uv, n, etai_over_etat);
        assert(cos_c as int == crate::fixed::clamp_s(
            crate::fixed::min_s(
                (-uv.x * n.x + -uv.y * n.y + -uv.z * n.z) / 65536,
                65536,
            ),
            -0x80_0000,
            65536,
        ));
        assert(r_out_perp.x == refract_perp_comp(uv.x as int, n.x as int, cos_c as int, etai_over_etat as int));
        assert(r_out_perp.y == refract_perp_comp(uv.y as int, n.y as int, cos_c as int, etai_over_etat as int));
        assert(r_out_perp.z == refract_perp_comp(uv.z as int, n.z as int, cos_c as int, etai_over_etat as int));
        assert(res.x == m.x && res.y == m.y && res.z == m.z);
        assert(res == m);
    }
    res
}

/// A random point strictly inside the unit sphere (and never the origin).
pub fn random_in_unit_sphere() -> (r: Vec3)
    ensures
        -65536 <= r.x <= 65536,
        -65536 <= r.y <= 65536,
        -65536 <= r.z <= 65536,
        0 < dot_spec(r, r) < 65536,
        r != (Vec3 { x: 0, y: 0, z: 0 }),
{
    let mut tries: u32 = 0;
    while tries < 64
        invariant
            tries <= 64,
        decreases 64 - tries,
    {
        let p = Vec3::random_lr(-65536, 65536);
        let l2 = p.length_squared();
        if 0 < l2 && l2 < 65536 {
            proof {
                lemma_nonzero_from_len(p);
            }
            return p;
        }
        tries = tries + 1;
    }
    let p = Vec3 { x: 32768, y: 0, z: 0 };
    proof {
        assert(raw_len2(p) == 0x4000_0000) by (nonlinear_arith)
            requires
                p.x == 0x8000 && p.y == 0 && p.z == 0,
                raw_len2(p) == p.x * p.x + p.y * p.y + p.z * p.z;
        assert(dot_spec(p, p) == 0x4000) by {
            assert(dot_spec(p, p) == raw_len2(p) / 65536);
        }
    }
    p
}

/// A positive squared length means the vector is not the origin.
proof fn lemma_nonzero_from_len(p: Vec3)
    requires
        vec_ok(p),
        dot_spec(p, p) > 0,
    ensures
        p != (Vec3 { x: 0, y: 0, z: 0 }),
{
    if p == (Vec3 { x: 0, y: 0, z: 0 }) {
        assert(raw_len2(p) == 0) by (nonlinear_arith)
            requires
                p.x == 0 && p.y == 0 && p.z == 0,
                raw_len2(p) == p.x * p.x + p.y * p.y + p.z * p.z;
        assert(dot_spec(p, p) == raw_len2(p) / 65536);
    }
}

/// A random direction on (approximately) the unit sphere.
pub fn random_unit_vector() -> (r: Vec3)
    ensures
        -65536 <= r.x <= 65536,
        -65536 <= r.y <= 65536,
        -65536 <= r.z <= 65536,
{
    let p = random_in_unit_sphere();
    let u = unit_vector(p);
    proof {
        lemma_unit_bounds(p);
    }
    u
}

/// A random point strictly inside the unit disk of the xy-plane.
pub fn random_in_unit_disk() -> (r: Vec3)
    ensures
        -65536 <= r.x <= 65536,
        -65536 <= r.y <= 65536,
        r.z == 0,
        dot_spec(r, r) < 65536,
{
    let mut tries: u32 = 0;
    while tries < 64
        invariant
            tries <= 64,
        decreases 64 - tries,
    {
        let p = Vec3 {
            x: crate::rng::random_double_lr(-65536, 65536),
            y: crate::rng::random_double_lr(-65536, 65536),
            z: 0,
        };
        let l2 = p.length_squared();
        if l2 < 65536 {
            return p;
        }
        tries = tries + 1;
    }
    let p = Vec3 { x: 0, y: 0, z: 0 };
    proof {
        assert(raw_len2(p) == 0) by (nonlinear_arith)
            requires
                p.x == 0 && p.y == 0 && p.z == 0,
                raw_len2(p) == p.x * p.x + p.y * p.y + p.z * p.z;
        assert(dot_spec(p, p) == raw_len2(p) / 65536);
    }
    p
}

} // verus!

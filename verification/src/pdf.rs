//! Sampling densities: the cosine-weighted hemisphere density used by the
//! diffuse material.

use crate::fixed::{clamp, fx_sqrt, FX_ONE};
use crate::onb::{onb_ok, Onb};
use crate::rng::random_double;
use crate::trig::{fx_cos, fx_sin};
use crate::vec3::{dot, unit_vector, vec_ok, Vec3};
use vstd::prelude::*;

verus! {

/// A direction drawn with density proportional to the cosine of its angle to
/// the local vertical axis; components lie within one.
pub fn random_cosine_direction() -> (r: Vec3)
    ensures
        -65536 <= r.x <= 65536,
        -65536 <= r.y <= 65536,
        0 <= r.z <= 65536,
{
    let r1 = random_double();
    let r2 = random_double();
    let z = sqrt_unit(FX_ONE - r2);
    proof {
        assert(0 <= 411774 * (r1 as int) <= 0x8_0000_0000) by (nonlinear_arith)
            requires
                0 <= (r1 as int) < 65536;
        crate::fixed::lemma_div_bounded(411774 * (r1 as int), 65536, 0x8_0000_0000);
    }
    let phi = crate::fixed::div_floor(411774 * (r1 as i128), 65536) as i64;
    let sq = sqrt_unit(r2);
    let x = mul_unit(fx_cos(phi), sq);
    let y = mul_unit(fx_sin(phi), sq);
    Vec3 { x, y, z }
}

/// The square root of a scalar in `[0, 1]`, itself in `[0, 1]`.
fn sqrt_unit(v: i64) -> (r: i64)
    requires
        0 <= v <= 65536,
    ensures
        0 <= r <= 65536,
{
    let r = fx_sqrt(v);
    proof {
        assert(r as int <= 65536) by (nonlinear_arith)
            requires
                r as int * r as int <= v as int * 65536,
                0 <= v <= 65536,
                r >= 0;
    }
    r
}

/// The product of two scalars within one, itself within one.
fn mul_unit(a: i64, b: i64) -> (r: i64)
    requires
        -65536 <= a <= 65536,
        -65536 <= b <= 65536,
    ensures
        -65536 <= r <= 65536,
{
    proof {
        assert(-0x1_0000_0000 <= a as int * b as int <= 0x1_0000_0000) by (nonlinear_arith)
            requires
                -65536 <= a as int <= 65536,
                -65536 <= b as int <= 65536;
        crate::fixed::lemma_div_bounded(a as int * b as int, 65536, 0x1_0000_0000);
        vstd::arithmetic::div_mod::lemma_div_is_ordered(a as int * b as int, 0x1_0000_0000, 65536);
        vstd::arithmetic::div_mod::lemma_div_is_ordered(-0x1_0000_0000, a as int * b as int, 65536);
    }
    crate::fixed::div_floor((a as i128) * (b as i128), 65536) as i64
}

pub struct CosinePdf {
    pub uvw: Onb,
}

impl CosinePdf {
    /// A density aimed along `w`.
    pub fn creat(w: Vec3) -> (r: CosinePdf)
        requires
            vec_ok(w),
            w != (Vec3 { x: 0, y: 0, z: 0 }),
        ensures
            onb_ok(r.uvw),
    {
        let mut ret: Onb = Default::default();
        ret.build_from_w(w);
        CosinePdf { uvw: ret }
    }

    /// The density of a direction: `cos(theta) / pi`, never negative.
    pub fn value(&self, dir: Vec3) -> (r: i64)
        requires
            onb_ok(self.uvw),
            vec_ok(dir),
            dir != (Vec3 { x: 0, y: 0, z: 0 }),
        ensures
            0 <= r <= 65536,
            r == (if crate::vec3::dot_spec(crate::vec3::unit_spec(dir), self.uvw.ax_w) <= 0 {
                0
            } else {
                crate::fixed::clamp_s(
                    crate::fixed::clamp_s(
                        crate::vec3::dot_spec(crate::vec3::unit_spec(dir), self.uvw.ax_w),
                        0,
                        65536,
                    ) * 65536 / 205887,
                    0,
                    65536,
                )
            }),
    {
        let u = unit_vector(dir);
        proof {
            crate::vec3::lemma_dot_fits(u, self.uvw.ax_w);
        }
        let cosine = dot(u, self.uvw.ax_w);
        if cosine <= 0 {
            0
        } else {
            let c = clamp(cosine, 0, FX_ONE);
            proof {
                crate::fixed::lemma_div_bounded(c as int * 65536, 205887, 0x1_0000_0000);
                assert(0 <= c as int * 65536 <= 0x1_0000_0000) by (nonlinear_arith)
                    requires
                        0 <= c as int <= 65536;
            }
            let q = crate::fixed::div_floor((c as i128) * 65536, 205887) as i64;
            clamp(q, 0, FX_ONE)
        }
    }

    /// A direction drawn from the density.
    pub fn generate(&self) -> (r: Vec3)
        requires
            onb_ok(self.uvw),
        ensures
            -0x18_0000 <= r.x <= 0x18_0000,
            -0x18_0000 <= r.y <= 0x18_0000,
            -0x18_0000 <= r.z <= 0x18_0000,
    {
        self.uvw.local_vec(random_cosine_direction())
    }
}

} // verus!

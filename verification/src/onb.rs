//! An orthonormal-basis helper used to aim cosine-weighted samples along a
//! surface normal.

use crate::vec3::{cross, fxm, unit_spec, unit_vector, vec_ok, Vec3};
use vstd::prelude::*;

verus! {

#[derive(Copy, Clone, Debug, PartialEq, Eq, Structural)]
pub struct Onb {
    pub ax_u: Vec3,
    pub ax_v: Vec3,
    pub ax_w: Vec3,
}

impl Default for Onb {
    /// The standard basis.
    fn default() -> (r: Onb)
        ensures
            onb_ok(r),
    {
        Onb {
            ax_u: Vec3 { x: 65536, y: 0, z: 0 },
            ax_v: Vec3 { x: 0, y: 65536, z: 0 },
            ax_w: Vec3 { x: 0, y: 0, z: 65536 },
        }
    }
}

/// Basis vectors stay within a small multiple of one.
pub open spec fn onb_ok(o: Onb) -> bool {
    &&& -0x8_0000 <= o.ax_u.x <= 0x8_0000 && -0x8_0000 <= o.ax_u.y <= 0x8_0000 && -0x8_0000
        <= o.ax_u.z <= 0x8_0000
    &&& -0x8_0000 <= o.ax_v.x <= 0x8_0000 && -0x8_0000 <= o.ax_v.y <= 0x8_0000 && -0x8_0000
        <= o.ax_v.z <= 0x8_0000
    &&& -0x8_0000 <= o.ax_w.x <= 0x8_0000 && -0x8_0000 <= o.ax_w.y <= 0x8_0000 && -0x8_0000
        <= o.ax_w.z <= 0x8_0000
}

/// One component of a basis combination.
pub open spec fn local_comp(uc: int, vc: int, wc: int, a: int, b: int, c: int) -> int {
    fxm(uc, a) + fxm(vc, b) + fxm(wc, c)
}

impl Onb {
    pub fn u(&self) -> (r: Vec3)
        ensures
            r == self.ax_u,
    {
        self.ax_u
    }

    pub fn v(&self) -> (r: Vec3)
        ensures
            r == self.ax_v,
    {
        self.ax_v
    }

    pub fn w(&self) -> (r: Vec3)
        ensures
            r == self.ax_w,
    {
        self.ax_w
    }

    /// The world vector with local coordinates `(a, b, c)`.
    pub fn local(&self, a: i64, b: i64, c: i64) -> (r: Vec3)
        requires
            onb_ok(*self),
            -65536 <= a <= 65536,
            -65536 <= b <= 65536,
            -65536 <= c <= 65536,
        ensures
            r.x == local_comp(self.ax_u.x as int, self.ax_v.x as int, self.ax_w.x as int, a as int, b as int, c as int),
            r.y == local_comp(self.ax_u.y as int, self.ax_v.y as int, self.ax_w.y as int, a as int, b as int, c as int),
            r.z == local_comp(self.ax_u.z as int, self.ax_v.z as int, self.ax_w.z as int, a as int, b as int, c as int),
            -0x18_0000 <= r.x <= 0x18_0000,
            -0x18_0000 <= r.y <= 0x18_0000,
            -0x18_0000 <= r.z <= 0x18_0000,
    {
        let ua = self.ax_u.scale(a);
        let vb = self.ax_v.scale(b);
        let wc = self.ax_w.scale(c);
        proof {
            lemma_scale_small(self.ax_u.x as int, a as int);
            lemma_scale_small(self.ax_u.y as int, a as int);
            lemma_scale_small(self.ax_u.z as int, a as int);
            lemma_scale_small(self.ax_v.x as int, b as int);
            lemma_scale_small(self.ax_v.y as int, b as int);
            lemma_scale_small(self.ax_v.z as int, b as int);
            lemma_scale_small(self.ax_w.x as int, c as int);
            lemma_scale_small(self.ax_w.y as int, c as int);
            lemma_scale_small(self.ax_w.z as int, c as int);
        }
        Vec3 { x: ua.x + vb.x + wc.x, y: ua.y + vb.y + wc.y, z: ua.z + vb.z + wc.z }
    }

    /// The world vector with the local coordinates of `v`.
    pub fn local_vec(&self, v: Vec3) -> (r: Vec3)
        requires
            onb_ok(*self),
            -65536 <= v.x <= 65536,
            -65536 <= v.y <= 65536,
            -65536 <= v.z <= 65536,
        ensures
            r.x == local_comp(self.ax_u.x as int, self.ax_v.x as int, self.ax_w.x as int, v.x as int, v.y as int, v.z as int),
            r.y == local_comp(self.ax_u.y as int, self.ax_v.y as int, self.ax_w.y as int, v.x as int, v.y as int, v.z as int),
            r.z == local_comp(self.ax_u.z as int, self.ax_v.z as int, self.ax_w.z as int, v.x as int, v.y as int, v.z as int),
            -0x18_0000 <= r.x <= 0x18_0000,
            -0x18_0000 <= r.y <= 0x18_0000,
            -0x18_0000 <= r.z <= 0x18_0000,
    {
        self.local(v.x, v.y, v.z)
    }

    /// Rebuilds the basis so that its third axis points along `n`.
    pub fn build_from_w(&mut self, n: Vec3)
        requires
            vec_ok(n),
            n != (Vec3 { x: 0, y: 0, z: 0 }),
        ensures
            final(self).ax_w == unit_spec(n),
            onb_ok(*final(self)),
    {
        let w = unit_vector(n);
        proof {
            crate::vec3::lemma_unit_bounds(n);
        }
        let a = if fx_abs_local(w.x) > 58982 {
            Vec3 { x: 0, y: 65536, z: 0 }
        } else {
            Vec3 { x: 65536, y: 0, z: 0 }
        };
        let cr = cross(w, a);
        proof {
            crate::vec3::lemma_cross_of_units_bounded(w, a);
        }
        let v = if cr.x == 0 && cr.y == 0 && cr.z == 0 {
            // a degenerate cross product cannot arise for a unit-length w,
            // but a fixed fallback keeps the basis well-formed regardless
            if fx_abs_local(w.x) > 58982 {
                Vec3 { x: 65536, y: 0, z: 0 }
            } else {
                Vec3 { x: 0, y: 65536, z: 0 }
            }
        } else {
            let uv = unit_vector(cr);
            proof {
                crate::vec3::lemma_unit_bounds(cr);
            }
            uv
        };
        let u = cross(w, v);
        proof {
            crate::vec3::lemma_cross_of_units_bounded(w, v);
        }
        self.ax_w = w;
        self.ax_v = v;
        self.ax_u = u;
    }
}

/// Scaling by at most one keeps a small component small.
proof fn lemma_scale_small(c: int, s: int)
    requires
        -0x8_0000 <= c <= 0x8_0000,
        -65536 <= s <= 65536,
    ensures
        -0x8_0000 <= fxm(c, s) <= 0x8_0000,
{
    assert(-0x8_0000_0000 <= c * s <= 0x8_0000_0000) by (nonlinear_arith)
        requires
            -0x8_0000 <= c <= 0x8_0000,
            -65536 <= s <= 65536;
    vstd::arithmetic::div_mod::lemma_div_is_ordered(c * s, 0x8_0000_0000, 65536);
    vstd::arithmetic::div_mod::lemma_div_is_ordered(-0x8_0000_0000, c * s, 65536);
}

/// Local absolute value for basis selection.
fn fx_abs_local(a: i64) -> (r: i64)
    requires
        -0x100_0000 <= a <= 0x100_0000,
    ensures
        r == if a < 0 { -(a as int) } else { a as int },
{
    if a < 0 { -a } else { a }
}

} // verus!

//! Rays: an origin, a direction, and the time the ray was cast.

use crate::fixed::div_floor;
use crate::vec3::{vec_ok, Point3, Vec3};
use vstd::prelude::*;

verus! {

/// Ray parameters are kept within this magnitude.
pub const TLIM: i64 = 0x100_0000_0000;

#[derive(Copy, Clone, Debug, PartialEq, Eq, Structural)]
pub struct Ray {
    pub st: Point3,
    pub dir: Vec3,
    pub tm: i64,
}

impl Default for Ray {
    /// A ray at rest at the origin.
    fn default() -> (r: Ray)
        ensures
            r.st == (Vec3 { x: 0, y: 0, z: 0 }),
            r.dir == (Vec3 { x: 0, y: 0, z: 0 }),
            r.tm == 0,
    {
        Ray { st: Vec3 { x: 0, y: 0, z: 0 }, dir: Vec3 { x: 0, y: 0, z: 0 }, tm: 0 }
    }
}

/// A ray whose origin and direction are within the working magnitudes.
pub open spec fn ray_ok(r: Ray) -> bool {
    &&& vec_ok(r.st)
    &&& vec_ok(r.dir)
}

/// One coordinate of the point a ray reaches at parameter `t`.
pub open spec fn at_comp(o: int, d: int, t: int) -> int {
    o + d * t / 65536
}

impl Ray {
    pub fn get_start(&self) -> (r: Point3)
        ensures
            r == self.st,
    {
        self.st
    }

    pub fn get_dir(&self) -> (r: Vec3)
        ensures
            r == self.dir,
    {
        self.dir
    }

    pub fn get_time(&self) -> (r: i64)
        ensures
            r == self.tm,
    {
        self.tm
    }

    /// The point reached after travelling `t` along the ray.
    pub fn at(&self, t: i64) -> (r: Point3)
        requires
            ray_ok(*self),
            -0x100_0000_0000 <= t <= 0x100_0000_0000,
        ensures
            r.x == at_comp(self.st.x as int, self.dir.x as int, t as int),
            r.y == at_comp(self.st.y as int, self.dir.y as int, t as int),
            r.z == at_comp(self.st.z as int, self.dir.z as int, t as int),
    {
        proof {
            lemma_at_fits(self.st.x as int, self.dir.x as int, t as int);
            lemma_at_fits(self.st.y as int, self.dir.y as int, t as int);
            lemma_at_fits(self.st.z as int, self.dir.z as int, t as int);
        }
        Vec3 {
            x: self.st.x + (div_floor((self.dir.x as i128) * (t as i128), 65536) as i64),
            y: self.st.y + (div_floor((self.dir.y as i128) * (t as i128), 65536) as i64),
            z: self.st.z + (div_floor((self.dir.z as i128) * (t as i128), 65536) as i64),
        }
    }
}

/// Travel along a working ray for a bounded parameter stays inside `i64`.
proof fn lemma_at_fits(o: int, d: int, t: int)
    requires
        -0x40_0000_0000 <= o <= 0x40_0000_0000,
        -0x40_0000_0000 <= d <= 0x40_0000_0000,
        -0x100_0000_0000 <= t <= 0x100_0000_0000,
    ensures
        -0x4000_0000_0000_0000 <= d * t / 65536 <= 0x4000_0000_0000_0000,
        i64::MIN <= at_comp(o, d, t) <= i64::MAX,
{
    assert(-0x4000_0000_0000_0000_0000 <= d * t <= 0x4000_0000_0000_0000_0000)
        by (nonlinear_arith)
        requires
            -0x40_0000_0000 <= d <= 0x40_0000_0000,
            -0x100_0000_0000 <= t <= 0x100_0000_0000;
    vstd::arithmetic::div_mod::lemma_div_is_ordered(d * t, 0x4000_0000_0000_0000_0000, 65536);
    vstd::arithmetic::div_mod::lemma_div_is_ordered(-0x4000_0000_0000_0000_0000, d * t, 65536);
}

} // verus!

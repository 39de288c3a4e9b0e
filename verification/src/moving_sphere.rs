//! A sphere whose center moves linearly between two keyframes; the ray's
//! time sample picks the interpolated position.

use crate::aabb::{pt_in_box, surrounding_spec, Aabb};
use crate::fixed::{clamp, div_floor, lemma_div_bounded};
use crate::hittable::HitRecord;
use crate::material::{mat_ok, Material};
use crate::nearest::answers;
use crate::ray::{at_comp, ray_ok, Ray};
use crate::sphere::{ball_bbox, ball_hit, ball_ok, ball_ts};
use crate::vec3::{Point3, Vec3};
use vstd::prelude::*;

verus! {

pub struct MovingSphere {
    pub center0: Point3,
    pub center1: Point3,
    pub time0: i64,
    pub time1: i64,
    pub radius: i64,
    pub mat_ptr: Material,
}

pub open spec fn ms_ok(s: MovingSphere) -> bool {
    &&& -0x2F_0000_0000 <= s.center0.x <= 0x2F_0000_0000
    &&& -0x2F_0000_0000 <= s.center0.y <= 0x2F_0000_0000
    &&& -0x2F_0000_0000 <= s.center0.z <= 0x2F_0000_0000
    &&& -0x2F_0000_0000 <= s.center1.x <= 0x2F_0000_0000
    &&& -0x2F_0000_0000 <= s.center1.y <= 0x2F_0000_0000
    &&& -0x2F_0000_0000 <= s.center1.z <= 0x2F_0000_0000
    &&& 1 <= s.radius <= 0xF_0000_0000
    &&& 0 <= s.time0 < s.time1 <= 0x10_0000
    &&& mat_ok(s.mat_ptr)
}

/// The keyframe blend for a time sample, clamped into `[0, 1]`: times
/// outside the keyframe span do not extrapolate.
pub open spec fn ms_frac(s: MovingSphere, tm: i64) -> int {
    let raw = (tm - s.time0) * 65536 / (s.time1 - s.time0);
    if raw < 0 {
        0
    } else if raw > 65536 {
        65536
    } else {
        raw
    }
}

/// One coordinate of the interpolated center.
pub open spec fn ms_center_comp(c0: int, c1: int, frac: int) -> int {
    c0 + (c1 - c0) * frac / 65536
}

/// The interpolated center for a time sample.
pub open spec fn ms_center(s: MovingSphere, tm: i64) -> Vec3 {
    Vec3 {
        x: ms_center_comp(s.center0.x as int, s.center1.x as int, ms_frac(s, tm)) as i64,
        y: ms_center_comp(s.center0.y as int, s.center1.y as int, ms_frac(s, tm)) as i64,
        z: ms_center_comp(s.center0.z as int, s.center1.z as int, ms_frac(s, tm)) as i64,
    }
}

/// The candidate parameters: those of the sphere at the interpolated center.
pub open spec fn ms_ts(s: MovingSphere, r: Ray) -> Set<int> {
    ball_ts(ms_center(s, r.tm), s.radius, r)
}

/// The box over the whole keyframe span (with the ball padding), further
/// widened by 2 raw units for the interpolation rounding.  It does not
/// depend on the query times: it covers every position the sphere can take.
pub open spec fn ms_bbox(s: MovingSphere) -> Aabb {
    let b = surrounding_spec(ball_bbox(s.center0, s.radius), ball_bbox(s.center1, s.radius));
    Aabb {
        min: Vec3 { x: (b.min.x - 2) as i64, y: (b.min.y - 2) as i64, z: (b.min.z - 2) as i64 },
        max: Vec3 { x: (b.max.x + 2) as i64, y: (b.max.y + 2) as i64, z: (b.max.z + 2) as i64 },
    }
}

/// The interpolated center's ball box stays inside the keyframe-span box.
pub proof fn lemma_ms_center_in_span(s: MovingSphere, tm: i64)
    requires
        ms_ok(s),
    ensures
        crate::aabb::box_contains_box(ms_bbox(s), ball_bbox(ms_center(s, tm), s.radius)),
{
    lemma_center_comp_bounds(s.center0.x as int, s.center1.x as int, ms_frac(s, tm));
    lemma_center_comp_bounds(s.center0.y as int, s.center1.y as int, ms_frac(s, tm));
    lemma_center_comp_bounds(s.center0.z as int, s.center1.z as int, ms_frac(s, tm));
}

/// The interpolation stays between the two keyframe coordinates.
proof fn lemma_center_comp_bounds(c0: int, c1: int, frac: int)
    requires
        -0x2F_0000_0000 <= c0 <= 0x2F_0000_0000,
        -0x2F_0000_0000 <= c1 <= 0x2F_0000_0000,
        0 <= frac <= 65536,
    ensures
        (if c0 < c1 {
            c0
        } else {
            c1
        }) <= ms_center_comp(c0, c1, frac),
        ms_center_comp(c0, c1, frac) <= (if c0 < c1 {
            c1
        } else {
            c0
        }),
{
    let d = c1 - c0;
    if d >= 0 {
        assert(0 <= d * frac <= d * 65536) by (nonlinear_arith)
            requires
                d >= 0,
                0 <= frac <= 65536;
        vstd::arithmetic::div_mod::lemma_div_is_ordered(0, d * frac, 65536);
        vstd::arithmetic::div_mod::lemma_div_is_ordered(d * frac, d * 65536, 65536);
        vstd::arithmetic::div_mod::lemma_div_multiples_vanish(d, 65536);
        assert(d * 65536 == 65536 * d) by (nonlinear_arith);
    } else {
        assert(d * 65536 <= d * frac <= 0) by (nonlinear_arith)
            requires
                d < 0,
                0 <= frac <= 65536;
        vstd::arithmetic::div_mod::lemma_div_is_ordered(d * frac, 0, 65536);
        vstd::arithmetic::div_mod::lemma_div_is_ordered(d * 65536, d * frac, 65536);
        vstd::arithmetic::div_mod::lemma_div_multiples_vanish(d, 65536);
        assert(d * 65536 == 65536 * d) by (nonlinear_arith);
    }
}

impl MovingSphere {
    /// The center at a time sample: the blend is clamped to the keyframe
    /// span (no extrapolation), and each product and quotient rounds down,
    /// so the result can sit one raw unit below the ideal interpolation.
    pub fn center(&self, time: i64) -> (c: Vec3)
        requires
            ms_ok(*self),
            -0x100_0000_0000 <= time <= 0x100_0000_0000,
        ensures
            c == ms_center(*self, time),
            ball_ok(c, self.radius),
            -2 + (if self.center0.x < self.center1.x { self.center0.x as int } else { self.center1.x as int }) <= c.x,
            c.x <= 2 + (if self.center0.x < self.center1.x { self.center1.x as int } else { self.center0.x as int }),
            -2 + (if self.center0.y < self.center1.y { self.center0.y as int } else { self.center1.y as int }) <= c.y,
            c.y <= 2 + (if self.center0.y < self.center1.y { self.center1.y as int } else { self.center0.y as int }),
            -2 + (if self.center0.z < self.center1.z { self.center0.z as int } else { self.center1.z as int }) <= c.z,
            c.z <= 2 + (if self.center0.z < self.center1.z { self.center1.z as int } else { self.center0.z as int }),
    {
        proof {
            assert(-0x200_0000_0000_0000 <= (time - self.time0) as int * 65536
                <= 0x200_0000_0000_0000) by (nonlinear_arith)
                requires
                    -0x200_0000_0000 <= (time - self.time0) as int <= 0x200_0000_0000;
            lemma_div_bounded(
                (time - self.time0) as int * 65536,
                (self.time1 - self.time0) as int,
                0x200_0000_0000_0000,
            );
        }
        let raw = div_floor(
            ((time as i128) - (self.time0 as i128)) * 65536,
            (self.time1 as i128) - (self.time0 as i128),
        ) as i64;
        let frac = clamp(raw, 0, 65536);
        let cx = interp_comp(self.center0.x, self.center1.x, frac);
        let cy = interp_comp(self.center0.y, self.center1.y, frac);
        let cz = interp_comp(self.center0.z, self.center1.z, frac);
        let c = Vec3 { x: cx, y: cy, z: cz };
        proof {
            assert(frac as int == ms_frac(*self, time));
            assert(c.x == ms_center(*self, time).x && c.y == ms_center(*self, time).y && c.z
                == ms_center(*self, time).z);
            assert(c == ms_center(*self, time));
        }
        c
    }

    /// The nearest root of the sphere at the ray's time sample.
    pub fn hit(&self, r: Ray, t_min: i64, t_max: i64) -> (res: Option<HitRecord>)
        requires
            ms_ok(*self),
            ray_ok(r),
            -0x100_0000_0000 <= r.tm <= 0x100_0000_0000,
            -0x100_0000_0000 <= t_min <= 0x100_0000_0000,
            -0x100_0000_0000 <= t_max <= 0x100_0000_0000,
        ensures
            answers(ms_ts(*self, r), t_min as int, t_max as int, match res {
                Some(rec) => Some(rec.t as int),
                None => None,
            }),
            res matches Some(rec) ==> t_min < rec.t <= t_max && pt_in_box(
                ball_bbox(ms_center(*self, r.tm), self.radius),
                r,
                rec.t as int,
            ) && crate::hittable::rec_ok(rec) && rec.p.x == at_comp(
                r.st.x as int,
                r.dir.x as int,
                rec.t as int,
            ) && rec.p.y == at_comp(r.st.y as int, r.dir.y as int, rec.t as int) && rec.p.z
                == at_comp(r.st.z as int, r.dir.z as int, rec.t as int) && rec.normal
                == crate::hittable::oriented_normal(
                r,
                crate::sphere::ball_outward(ms_center(*self, r.tm), self.radius, r, rec.t as int),
            ) && rec.front_face == (crate::vec3::dot_spec(
                r.dir,
                crate::sphere::ball_outward(ms_center(*self, r.tm), self.radius, r, rec.t as int),
            ) < 0) && rec.u == crate::sphere::sphere_u_spec(
                crate::sphere::ball_outward(ms_center(*self, r.tm), self.radius, r, rec.t as int),
            ) && rec.v == crate::sphere::sphere_v_spec(
                crate::sphere::ball_outward(ms_center(*self, r.tm), self.radius, r, rec.t as int),
            ),
    {
        let c = self.center(r.get_time());
        ball_hit(c, self.radius, r, t_min, t_max)
    }
}

/// Linear interpolation of one coordinate by a unit fraction.
fn interp_comp(c0: i64, c1: i64, frac: i64) -> (r: i64)
    requires
        -0x2F_0000_0000 <= c0 <= 0x2F_0000_0000,
        -0x2F_0000_0000 <= c1 <= 0x2F_0000_0000,
        0 <= frac <= 65536,
    ensures
        r == ms_center_comp(c0 as int, c1 as int, frac as int),
        -2 + (if c0 < c1 { c0 as int } else { c1 as int }) <= r,
        r <= 2 + (if c0 < c1 { c1 as int } else { c0 as int }),
{
    proof {
        assert(-0x6000_0000_0000_0000 <= (c1 - c0) as int * frac as int <= 0x6000_0000_0000_0000)
            by (nonlinear_arith)
            requires
                -0x60_0000_0000 <= (c1 - c0) as int <= 0x60_0000_0000,
                0 <= frac as int <= 65536;
        lemma_div_bounded((c1 - c0) as int * frac as int, 65536, 0x6000_0000_0000_0000);
        let d = (c1 - c0) as int;
        let q = d * frac as int / 65536;
        if d >= 0 {
            assert(0 <= d * frac as int <= d * 65536) by (nonlinear_arith)
                requires
                    d >= 0,
                    0 <= frac as int <= 65536;
            vstd::arithmetic::div_mod::lemma_div_is_ordered(0, d * frac as int, 65536);
            vstd::arithmetic::div_mod::lemma_div_is_ordered(d * frac as int, d * 65536, 65536);
            vstd::arithmetic::div_mod::lemma_div_multiples_vanish(d, 65536);
            assert(d * 65536 == 65536 * d) by (nonlinear_arith);
        } else {
            assert(d * 65536 <= d * frac as int <= 0) by (nonlinear_arith)
                requires
                    d < 0,
                    0 <= frac as int <= 65536;
            vstd::arithmetic::div_mod::lemma_div_is_ordered(d * frac as int, 0, 65536);
            vstd::arithmetic::div_mod::lemma_div_is_ordered(d * 65536, d * frac as int, 65536);
            vstd::arithmetic::div_mod::lemma_div_multiples_vanish(d, 65536);
            assert(d * 65536 == 65536 * d) by (nonlinear_arith);
        }
    }
    let q = div_floor(((c1 as i128) - (c0 as i128)) * (frac as i128), 65536) as i64;
    c0 + q
}

} // verus!

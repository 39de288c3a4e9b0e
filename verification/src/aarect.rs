//! Axis-aligned rectangles, one type per fixed axis.  Each is modelled as a
//! box thickened by 7/65536 along its fixed axis — exactly the shape the
//! bounding-volume hierarchy requires — and its hit query returns the
//! earliest representable parameter inside that thin box, which can sit up
//! to the slab's thickness before the ideal plane-crossing parameter.

use crate::aabb::{box_enter, box_ok, box_ts, pt_in_box, Aabb};
use crate::fixed::{clamp, div_floor, lemma_div_bounded};
use crate::hittable::HitRecord;
use crate::material::{mat_ok, Material};
use crate::nearest::answers;
use crate::ray::{at_comp, ray_ok, Ray};
use crate::vec3::{Point3, Vec3};
use vstd::prelude::*;

verus! {

pub struct XyRect {
    pub x0: i64,
    pub x1: i64,
    pub y0: i64,
    pub y1: i64,
    pub k: i64,
    pub mp: Material,
}

pub struct XzRect {
    pub x0: i64,
    pub x1: i64,
    pub z0: i64,
    pub z1: i64,
    pub k: i64,
    pub mp: Material,
}

pub struct YzRect {
    pub y0: i64,
    pub y1: i64,
    pub z0: i64,
    pub z1: i64,
    pub k: i64,
    pub mp: Material,
}

pub open spec fn coord_ok(c: i64) -> bool {
    -0x30_0000_0000 <= c <= 0x30_0000_0000
}

pub open spec fn xy_ok(q: XyRect) -> bool {
    &&& coord_ok(q.x0) && coord_ok(q.x1) && coord_ok(q.y0) && coord_ok(q.y1) && coord_ok(q.k)
    &&& q.x0 < q.x1
    &&& q.y0 < q.y1
    &&& mat_ok(q.mp)
}

pub open spec fn xz_ok(q: XzRect) -> bool {
    &&& coord_ok(q.x0) && coord_ok(q.x1) && coord_ok(q.z0) && coord_ok(q.z1) && coord_ok(q.k)
    &&& q.x0 < q.x1
    &&& q.z0 < q.z1
    &&& mat_ok(q.mp)
}

pub open spec fn yz_ok(q: YzRect) -> bool {
    &&& coord_ok(q.y0) && coord_ok(q.y1) && coord_ok(q.z0) && coord_ok(q.z1) && coord_ok(q.k)
    &&& q.y0 < q.y1
    &&& q.z0 < q.z1
    &&& mat_ok(q.mp)
}

pub open spec fn xy_bbox(q: XyRect) -> Aabb {
    Aabb {
        min: Vec3 { x: q.x0, y: q.y0, z: (q.k - 7) as i64 },
        max: Vec3 { x: q.x1, y: q.y1, z: (q.k + 7) as i64 },
    }
}

pub open spec fn xz_bbox(q: XzRect) -> Aabb {
    Aabb {
        min: Vec3 { x: q.x0, y: (q.k - 7) as i64, z: q.z0 },
        max: Vec3 { x: q.x1, y: (q.k + 7) as i64, z: q.z1 },
    }
}

pub open spec fn yz_bbox(q: YzRect) -> Aabb {
    Aabb {
        min: Vec3 { x: (q.k - 7) as i64, y: q.y0, z: q.z0 },
        max: Vec3 { x: (q.k + 7) as i64, y: q.y1, z: q.z1 },
    }
}

/// The fraction `(c - lo) / (hi - lo)`, clamped into `[0, 1]`.
fn extent_frac(c: i64, lo: i64, hi: i64) -> (r: i64)
    requires
        coord_ok(lo),
        coord_ok(hi),
        lo < hi,
        -0x41_0000_0000 <= c <= 0x41_0000_0000,
    ensures
        0 <= r <= 65536,
{
    proof {
        assert(-0x8200_0000_0000_0000 <= (c - lo) as int * 65536 <= 0x8200_0000_0000_0000)
            by (nonlinear_arith)
            requires
                -0x71_0000_0000 <= (c - lo) as int <= 0x71_0000_0000;
        lemma_div_bounded((c - lo) as int * 65536, (hi - lo) as int, 0x8200_0000_0000_0000);
    }
    let q = div_floor(((c as i128) - (lo as i128)) * 65536, (hi as i128) - (lo as i128)) as i64;
    clamp(q, 0, 65536)
}

impl XyRect {
    /// The nearest parameter inside the thin box, with surface coordinates
    /// taken from the hit point's extent in x and y.
    pub fn hit(&self, r: Ray, t_min: i64, t_max: i64) -> (res: Option<HitRecord>)
        requires
            xy_ok(*self),
            ray_ok(r),
            -0x100_0000_0000 <= t_min <= 0x100_0000_0000,
            -0x100_0000_0000 <= t_max <= 0x100_0000_0000,
        ensures
            answers(box_ts(xy_bbox(*self), r), t_min as int, t_max as int, match res {
                Some(rec) => Some(rec.t as int),
                None => None,
            }),
            res matches Some(rec) ==> t_min < rec.t <= t_max && pt_in_box(
                xy_bbox(*self),
                r,
                rec.t as int,
            ) && crate::hittable::rec_ok(rec) && rec.p.x == at_comp(
                r.st.x as int,
                r.dir.x as int,
                rec.t as int,
            ) && rec.p.y == at_comp(r.st.y as int, r.dir.y as int, rec.t as int) && rec.p.z
                == at_comp(r.st.z as int, r.dir.z as int, rec.t as int) && rec.normal
                == crate::hittable::oriented_normal(r, Vec3 { x: 0, y: 0, z: 65536 })
                && rec.front_face == (crate::vec3::dot_spec(r.dir, Vec3 { x: 0, y: 0, z: 65536 })
                < 0),
    {
        let b = Aabb {
            min: Vec3 { x: self.x0, y: self.y0, z: self.k - 7 },
            max: Vec3 { x: self.x1, y: self.y1, z: self.k + 7 },
        };
        match box_enter(&b, r, t_min, t_max) {
            Some(t) => {
                let p = r.at(t);
                proof {
                    lemma_box_point_bounds(b, r, t as int);
                }
                let u = extent_frac(p.x, self.x0, self.x1);
                let v = extent_frac(p.y, self.y0, self.y1);
                Some(HitRecord::creat(u, v, t, Vec3 { x: 0, y: 0, z: 65536 }, r, p))
            },
            None => None,
        }
    }
}

impl XzRect {
    pub fn hit(&self, r: Ray, t_min: i64, t_max: i64) -> (res: Option<HitRecord>)
        requires
            xz_ok(*self),
            ray_ok(r),
            -0x100_0000_0000 <= t_min <= 0x100_0000_0000,
            -0x100_0000_0000 <= t_max <= 0x100_0000_0000,
        ensures
            answers(box_ts(xz_bbox(*self), r), t_min as int, t_max as int, match res {
                Some(rec) => Some(rec.t as int),
                None => None,
            }),
            res matches Some(rec) ==> t_min < rec.t <= t_max && pt_in_box(
                xz_bbox(*self),
                r,
                rec.t as int,
            ) && crate::hittable::rec_ok(rec) && rec.p.x == at_comp(
                r.st.x as int,
                r.dir.x as int,
                rec.t as int,
            ) && rec.p.y == at_comp(r.st.y as int, r.dir.y as int, rec.t as int) && rec.p.z
                == at_comp(r.st.z as int, r.dir.z as int, rec.t as int) && rec.normal
                == crate::hittable::oriented_normal(r, Vec3 { x: 0, y: 65536, z: 0 })
                && rec.front_face == (crate::vec3::dot_spec(r.dir, Vec3 { x: 0, y: 65536, z: 0 })
                < 0),
    {
        let b = Aabb {
            min: Vec3 { x: self.x0, y: self.k - 7, z: self.z0 },
            max: Vec3 { x: self.x1, y: self.k + 7, z: self.z1 },
        };
        match box_enter(&b, r, t_min, t_max) {
            Some(t) => {
                let p = r.at(t);
                proof {
                    lemma_box_point_bounds(b, r, t as int);
                }
                let u = extent_frac(p.x, self.x0, self.x1);
                let v = extent_frac(p.z, self.z0, self.z1);
                Some(HitRecord::creat(u, v, t, Vec3 { x: 0, y: 65536, z: 0 }, r, p))
            },
            None => None,
        }
    }
}

impl YzRect {
    pub fn hit(&self, r: Ray, t_min: i64, t_max: i64) -> (res: Option<HitRecord>)
        requires
            yz_ok(*self),
            ray_ok(r),
            -0x100_0000_0000 <= t_min <= 0x100_0000_0000,
            -0x100_0000_0000 <= t_max <= 0x100_0000_0000,
        ensures
            answers(box_ts(yz_bbox(*self), r), t_min as int, t_max as int, match res {
                Some(rec) => Some(rec.t as int),
                None => None,
            }),
            res matches Some(rec) ==> t_min < rec.t <= t_max && pt_in_box(
                yz_bbox(*self),
                r,
                rec.t as int,
            ) && crate::hittable::rec_ok(rec) && rec.p.x == at_comp(
                r.st.x as int,
                r.dir.x as int,
                rec.t as int,
            ) && rec.p.y == at_comp(r.st.y as int, r.dir.y as int, rec.t as int) && rec.p.z
                == at_comp(r.st.z as int, r.dir.z as int, rec.t as int) && rec.normal
                == crate::hittable::oriented_normal(r, Vec3 { x: 65536, y: 0, z: 0 })
                && rec.front_face == (crate::vec3::dot_spec(r.dir, Vec3 { x: 65536, y: 0, z: 0 })
                < 0),
    {
        let b = Aabb {
            min: Vec3 { x: self.k - 7, y: self.y0, z: self.z0 },
            max: Vec3 { x: self.k + 7, y: self.y1, z: self.z1 },
        };
        match box_enter(&b, r, t_min, t_max) {
            Some(t) => {
                let p = r.at(t);
                proof {
                    lemma_box_point_bounds(b, r, t as int);
                }
                let u = extent_frac(p.y, self.y0, self.y1);
                let v = extent_frac(p.z, self.z0, self.z1);
                Some(HitRecord::creat(u, v, t, Vec3 { x: 65536, y: 0, z: 0 }, r, p))
            },
            None => None,
        }
    }
}

/// The evaluated hit point of a parameter inside a working box stays within
/// one unit of the box in every coordinate.
proof fn lemma_box_point_bounds(b: Aabb, r: Ray, t: int)
    requires
        box_ok(b),
        pt_in_box(b, r, t),
    ensures
        b.min.x <= at_comp(r.st.x as int, r.dir.x as int, t) <= b.max.x,
        b.min.y <= at_comp(r.st.y as int, r.dir.y as int, t) <= b.max.y,
        b.min.z <= at_comp(r.st.z as int, r.dir.z as int, t) <= b.max.z,
{
    crate::aabb::lemma_at_comp_in_box(b.min.x as int, b.max.x as int, r.st.x as int, r.dir.x as int, t);
    crate::aabb::lemma_at_comp_in_box(b.min.y as int, b.max.y as int, r.st.y as int, r.dir.y as int, t);
    crate::aabb::lemma_at_comp_in_box(b.min.z as int, b.max.z as int, r.st.z as int, r.dir.z as int, t);
}

} // verus!

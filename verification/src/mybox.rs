//! A rectangular prism: the aggregate of its six axis-aligned faces.

use crate::aabb::{box_ts, pt_in_box, surrounding_spec, Aabb};
use crate::aarect::{
    xy_bbox, xy_ok, xz_bbox, xz_ok, yz_bbox, yz_ok, XyRect, XzRect, YzRect,
};
use crate::hittable::HitRecord;
use crate::material::{mat_ok, Material};
use crate::nearest::{answers, lemma_scan_step};
use crate::ray::{ray_ok, Ray};
use crate::vec3::{Point3, Vec3};
use vstd::prelude::*;

verus! {

pub struct MyBox {
    pub box_min: Point3,
    pub box_max: Point3,
    pub side_xy0: XyRect,
    pub side_xy1: XyRect,
    pub side_xz0: XzRect,
    pub side_xz1: XzRect,
    pub side_yz0: YzRect,
    pub side_yz1: YzRect,
}

pub open spec fn mybox_ok(b: MyBox) -> bool {
    &&& xy_ok(b.side_xy0) && xy_ok(b.side_xy1)
    &&& xz_ok(b.side_xz0) && xz_ok(b.side_xz1)
    &&& yz_ok(b.side_yz0) && yz_ok(b.side_yz1)
}

/// The box around all six (padded) faces.
pub open spec fn mybox_bbox(b: MyBox) -> Aabb {
    surrounding_spec(
        surrounding_spec(
            surrounding_spec(xy_bbox(b.side_xy0), xy_bbox(b.side_xy1)),
            surrounding_spec(xz_bbox(b.side_xz0), xz_bbox(b.side_xz1)),
        ),
        surrounding_spec(yz_bbox(b.side_yz0), yz_bbox(b.side_yz1)),
    )
}

/// All candidate parameters of the six faces, in scan order.
pub open spec fn mybox_ts(b: MyBox, r: Ray) -> Set<int> {
    box_ts(xy_bbox(b.side_xy0), r).union(box_ts(xy_bbox(b.side_xy1), r)).union(
        box_ts(xz_bbox(b.side_xz0), r),
    ).union(box_ts(xz_bbox(b.side_xz1), r)).union(box_ts(yz_bbox(b.side_yz0), r)).union(
        box_ts(yz_bbox(b.side_yz1), r),
    )
}

impl MyBox {
    /// The prism spanned by two corners; every face carries an equal copy of
    /// the material.
    pub fn creat(p0: Point3, p1: Point3, ptr: Material) -> (r: MyBox)
        requires
            -0x30_0000_0000 <= p0.x && p0.x < p1.x && p1.x <= 0x30_0000_0000,
            -0x30_0000_0000 <= p0.y && p0.y < p1.y && p1.y <= 0x30_0000_0000,
            -0x30_0000_0000 <= p0.z && p0.z < p1.z && p1.z <= 0x30_0000_0000,
            mat_ok(ptr),
        ensures
            mybox_ok(r),
            r.box_min == p0,
            r.box_max == p1,
            r.side_xy0.k == p1.z && r.side_xy1.k == p0.z,
            r.side_xz0.k == p1.y && r.side_xz1.k == p0.y,
            r.side_yz0.k == p1.x && r.side_yz1.k == p0.x,
            r.side_xy0.x0 == p0.x && r.side_xy0.x1 == p1.x && r.side_xy0.y0 == p0.y
                && r.side_xy0.y1 == p1.y,
            r.side_xy1.x0 == p0.x && r.side_xy1.x1 == p1.x && r.side_xy1.y0 == p0.y
                && r.side_xy1.y1 == p1.y,
            r.side_xz0.x0 == p0.x && r.side_xz0.x1 == p1.x && r.side_xz0.z0 == p0.z
                && r.side_xz0.z1 == p1.z,
            r.side_xz1.x0 == p0.x && r.side_xz1.x1 == p1.x && r.side_xz1.z0 == p0.z
                && r.side_xz1.z1 == p1.z,
            r.side_yz0.y0 == p0.y && r.side_yz0.y1 == p1.y && r.side_yz0.z0 == p0.z
                && r.side_yz0.z1 == p1.z,
            r.side_yz1.y0 == p0.y && r.side_yz1.y1 == p1.y && r.side_yz1.z0 == p0.z
                && r.side_yz1.z1 == p1.z,
            r.side_yz1.mp == ptr,
    {
        MyBox {
            box_min: p0,
            box_max: p1,
            side_xy0: XyRect {
                x0: p0.x,
                x1: p1.x,
                y0: p0.y,
                y1: p1.y,
                k: p1.z,
                mp: ptr.duplicate(),
            },
            side_xy1: XyRect {
                x0: p0.x,
                x1: p1.x,
                y0: p0.y,
                y1: p1.y,
                k: p0.z,
                mp: ptr.duplicate(),
            },
            side_xz0: XzRect {
                x0: p0.x,
                x1: p1.x,
                z0: p0.z,
                z1: p1.z,
                k: p1.y,
                mp: ptr.duplicate(),
            },
            side_xz1: XzRect {
                x0: p0.x,
                x1: p1.x,
                z0: p0.z,
                z1: p1.z,
                k: p0.y,
                mp: ptr.duplicate(),
            },
            side_yz0: YzRect {
                y0: p0.y,
                y1: p1.y,
                z0: p0.z,
                z1: p1.z,
                k: p1.x,
                mp: ptr.duplicate(),
            },
            side_yz1: YzRect {
                y0: p0.y,
                y1: p1.y,
                z0: p0.z,
                z1: p1.z,
                k: p0.x,
                mp: ptr,
            },
        }
    }

    /// The nearest face hit in the window, scanning the six faces while
    /// shrinking the window to the best parameter found so far.
    pub fn hit(&self, r: Ray, t_min: i64, t_max: i64) -> (res: Option<(HitRecord, &Material)>)
        requires
            mybox_ok(*self),
            ray_ok(r),
            -0x100_0000_0000 <= t_min <= 0x100_0000_0000,
            -0x100_0000_0000 <= t_max <= 0x100_0000_0000,
        ensures
            answers(mybox_ts(*self, r), t_min as int, t_max as int, match res {
                Some(rm) => Some(rm.0.t as int),
                None => None,
            }),
            res matches Some(rm) ==> t_min < rm.0.t <= t_max && pt_in_box(
                mybox_bbox(*self),
                r,
                rm.0.t as int,
            ) && crate::hittable::rec_ok(rm.0) && mat_ok(*rm.1) && (*rm.1 == self.side_xy0.mp
                || *rm.1 == self.side_xy1.mp || *rm.1 == self.side_xz0.mp || *rm.1
                == self.side_xz1.mp || *rm.1 == self.side_yz0.mp || *rm.1 == self.side_yz1.mp)
                && rm.0.p.x == crate::ray::at_comp(r.st.x as int, r.dir.x as int, rm.0.t as int)
                && rm.0.p.y == crate::ray::at_comp(r.st.y as int, r.dir.y as int, rm.0.t as int)
                && rm.0.p.z == crate::ray::at_comp(r.st.z as int, r.dir.z as int, rm.0.t as int),
    {
        let ghost s1 = box_ts(xy_bbox(self.side_xy0), r);
        let ghost s2 = box_ts(xy_bbox(self.side_xy1), r);
        let ghost s3 = box_ts(xz_bbox(self.side_xz0), r);
        let ghost s4 = box_ts(xz_bbox(self.side_xz1), r);
        let ghost s5 = box_ts(yz_bbox(self.side_yz0), r);
        let ghost s6 = box_ts(yz_bbox(self.side_yz1), r);
        let ghost tmin = t_min as int;
        let ghost tmax = t_max as int;

        let h1 = self.side_xy0.hit(r, t_min, t_max);
        let mut closest: i64 = match &h1 {
            Some(rec) => rec.t,
            None => t_max,
        };
        let h2 = self.side_xy1.hit(r, t_min, closest);
        proof {
            lemma_scan_step(s1, s2, tmin, tmax, opt_t(&h1), opt_t(&h2));
        }
        let best2 = pick(h2, h1);
        let which2: u8 = match &h2 {
            Some(_) => 2,
            None => 1,
        };
        closest = match &best2 {
            Some(rec) => rec.t,
            None => t_max,
        };
        let h3 = self.side_xz0.hit(r, t_min, closest);
        proof {
            lemma_scan_step(s1.union(s2), s3, tmin, tmax, opt_t(&best2), opt_t(&h3));
        }
        let best3 = pick(h3, best2);
        let which3: u8 = match &h3 {
            Some(_) => 3,
            None => which2,
        };
        closest = match &best3 {
            Some(rec) => rec.t,
            None => t_max,
        };
        let h4 = self.side_xz1.hit(r, t_min, closest);
        proof {
            lemma_scan_step(s1.union(s2).union(s3), s4, tmin, tmax, opt_t(&best3), opt_t(&h4));
        }
        let best4 = pick(h4, best3);
        let which4: u8 = match &h4 {
            Some(_) => 4,
            None => which3,
        };
        closest = match &best4 {
            Some(rec) => rec.t,
            None => t_max,
        };
        let h5 = self.side_yz0.hit(r, t_min, closest);
        proof {
            lemma_scan_step(
                s1.union(s2).union(s3).union(s4),
                s5,
                tmin,
                tmax,
                opt_t(&best4),
                opt_t(&h5),
            );
        }
        let best5 = pick(h5, best4);
        let which5: u8 = match &h5 {
            Some(_) => 5,
            None => which4,
        };
        closest = match &best5 {
            Some(rec) => rec.t,
            None => t_max,
        };
        let h6 = self.side_yz1.hit(r, t_min, closest);
        proof {
            lemma_scan_step(
                s1.union(s2).union(s3).union(s4).union(s5),
                s6,
                tmin,
                tmax,
                opt_t(&best5),
                opt_t(&h6),
            );
        }
        // the later face wins ties, so track which face produced the answer
        let result: (Option<HitRecord>, u8) = match (h6, best5) {
            (Some(rec), _) => (Some(rec), 6u8),
            (None, Some(rec)) => (Some(rec), which5),
            (None, None) => (None, 0u8),
        };
        match result.0 {
            Some(rc) => {
                proof {
                    lemma_mybox_in_box(*self, r, rc.t as int);
                }
                let m: &Material = if result.1 == 6 {
                    &self.side_yz1.mp
                } else if result.1 == 5 {
                    &self.side_yz0.mp
                } else if result.1 == 4 {
                    &self.side_xz1.mp
                } else if result.1 == 3 {
                    &self.side_xz0.mp
                } else if result.1 == 2 {
                    &self.side_xy1.mp
                } else {
                    &self.side_xy0.mp
                };
                Some((rc, m))
            },
            None => None,
        }
    }
}

/// The parameter of an optional record.
pub open spec fn opt_t(o: &Option<HitRecord>) -> Option<int> {
    match o {
        Some(rec) => Some(rec.t as int),
        None => None,
    }
}

/// The later answer wins; otherwise the earlier one stands.
fn pick(later: Option<HitRecord>, earlier: Option<HitRecord>) -> (r: Option<HitRecord>)
    ensures
        r == if later is Some {
            later
        } else {
            earlier
        },
{
    match later {
        Some(rec) => Some(rec),
        None => earlier,
    }
}

/// A member of the aggregate set lies in the box around all six faces.
pub proof fn lemma_mybox_in_box(b: MyBox, r: Ray, t: int)
    requires
        mybox_ts(b, r).contains(t),
    ensures
        pt_in_box(mybox_bbox(b), r, t),
{
    let b12 = surrounding_spec(xy_bbox(b.side_xy0), xy_bbox(b.side_xy1));
    let b34 = surrounding_spec(xz_bbox(b.side_xz0), xz_bbox(b.side_xz1));
    let b56 = surrounding_spec(yz_bbox(b.side_yz0), yz_bbox(b.side_yz1));
    crate::aabb::lemma_surrounding_box_contains(xy_bbox(b.side_xy0), xy_bbox(b.side_xy1));
    crate::aabb::lemma_surrounding_box_contains(xz_bbox(b.side_xz0), xz_bbox(b.side_xz1));
    crate::aabb::lemma_surrounding_box_contains(yz_bbox(b.side_yz0), yz_bbox(b.side_yz1));
    crate::aabb::lemma_surrounding_box_contains(b12, b34);
    crate::aabb::lemma_surrounding_box_contains(surrounding_spec(b12, b34), b56);
    if box_ts(xy_bbox(b.side_xy0), r).contains(t) {
        assert(pt_in_box(xy_bbox(b.side_xy0), r, t));
    } else if box_ts(xy_bbox(b.side_xy1), r).contains(t) {
        assert(pt_in_box(xy_bbox(b.side_xy1), r, t));
    } else if box_ts(xz_bbox(b.side_xz0), r).contains(t) {
        assert(pt_in_box(xz_bbox(b.side_xz0), r, t));
    } else if box_ts(xz_bbox(b.side_xz1), r).contains(t) {
        assert(pt_in_box(xz_bbox(b.side_xz1), r, t));
    } else if box_ts(yz_bbox(b.side_yz0), r).contains(t) {
        assert(pt_in_box(yz_bbox(b.side_yz0), r, t));
    } else {
        assert(box_ts(yz_bbox(b.side_yz1), r).contains(t));
        assert(pt_in_box(yz_bbox(b.side_yz1), r, t));
    }
}

} // verus!

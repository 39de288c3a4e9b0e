//! The hit protocol: the record an intersection produces, and the closed
//! family of shapes a ray can strike.

use crate::aabb::{
    box_contains_box, box_hit_exists, box_ok, box_ts, hit_window, pt_in_box, pt_in_box_check, Aabb,
};
use crate::aarect::{xy_bbox, xy_ok, xz_bbox, xz_ok, yz_bbox, yz_ok, XyRect, XzRect, YzRect};
use crate::bvh::BvhNode;
use crate::fixed::{clamp, div_floor, lemma_div_bounded};
use crate::material::{mat_ok, Material};
use crate::moving_sphere::{ms_bbox, ms_ok, ms_ts, MovingSphere};
use crate::mybox::{mybox_bbox, mybox_ok, mybox_ts, MyBox};
use crate::nearest::{answers, has_hit, is_nearest, lemma_scan_step, qualifies};
use crate::ray::{at_comp, ray_ok, Ray};
use crate::sphere::{ball_bbox, sphere_bbox, sphere_ok, sphere_ts, Sphere};
use crate::vec3::{dot, dot_spec, vec_ok, Point3, Vec3};
use vstd::prelude::*;

verus! {

#[derive(Copy, Clone, Debug, PartialEq, Eq, Structural)]
pub struct HitRecord {
    pub p: Point3,
    pub normal: Vec3,
    pub t: i64,
    pub u: i64,
    pub v: i64,
    pub front_face: bool,
}

/// A record whose fields are within the working magnitudes.
pub open spec fn rec_ok(rec: HitRecord) -> bool {
    &&& vec_ok(rec.p)
    &&& -0x2_0000 <= rec.normal.x <= 0x2_0000
    &&& -0x2_0000 <= rec.normal.y <= 0x2_0000
    &&& -0x2_0000 <= rec.normal.z <= 0x2_0000
    &&& 0 <= rec.u <= 65536
    &&& 0 <= rec.v <= 65536
}

/// The normal stored in a record, oriented against the incoming ray.
pub open spec fn oriented_normal(r: Ray, outward: Vec3) -> Vec3 {
    if dot_spec(r.dir, outward) < 0 {
        outward
    } else {
        Vec3 { x: (-(outward.x as int)) as i64, y: (-(outward.y as int)) as i64, z: (-(outward.z
            as int)) as i64 }
    }
}

/// The oriented normal of a record opposes the incoming ray: whichever way
/// the outward normal faced, the stored normal's inner product with the ray
/// direction is never positive.
pub proof fn lemma_oriented_normal_opposes(r: Ray, outward: Vec3)
    requires
        -0x40_0000_0000 <= outward.x <= 0x40_0000_0000,
        -0x40_0000_0000 <= outward.y <= 0x40_0000_0000,
        -0x40_0000_0000 <= outward.z <= 0x40_0000_0000,
    ensures
        dot_spec(r.dir, oriented_normal(r, outward)) <= 0,
{
    let s = r.dir.x * outward.x + r.dir.y * outward.y + r.dir.z * outward.z;
    if dot_spec(r.dir, outward) < 0 {
        assert(oriented_normal(r, outward) == outward);
    } else {
        let n = oriented_normal(r, outward);
        assert(n.x == -outward.x && n.y == -outward.y && n.z == -outward.z);
        assert(r.dir.x * n.x + r.dir.y * n.y + r.dir.z * n.z == -s) by (nonlinear_arith)
            requires
                n.x == -outward.x && n.y == -outward.y && n.z == -outward.z,
                s == r.dir.x * outward.x + r.dir.y * outward.y + r.dir.z * outward.z;
        assert(s >= 0) by {
            if s < 0 {
                vstd::arithmetic::div_mod::lemma_div_is_ordered(s, -1, 65536);
                assert((-1 as int) / 65536 == -1);
            }
        }
        vstd::arithmetic::div_mod::lemma_div_is_ordered(-s, 0, 65536);
        assert((0 as int) / 65536 == 0);
    }
}

impl HitRecord {
    /// Orients `outward_normal` against the ray and stores the result
    /// together with the front-face flag.
    pub fn set_face_normal(&mut self, r: Ray, outward_normal: Vec3)
        requires
            vec_ok(r.dir),
            vec_ok(r.st),
            -0x2_0000 <= outward_normal.x <= 0x2_0000,
            -0x2_0000 <= outward_normal.y <= 0x2_0000,
            -0x2_0000 <= outward_normal.z <= 0x2_0000,
        ensures
            final(self).front_face == (dot_spec(r.dir, outward_normal) < 0),
            final(self).normal == oriented_normal(r, outward_normal),
            final(self).p == old(self).p,
            final(self).t == old(self).t,
            final(self).u == old(self).u,
            final(self).v == old(self).v,
    {
        proof {
            crate::vec3::lemma_dot_fits(r.dir, outward_normal);
        }
        let d = dot(r.dir, outward_normal);
        self.front_face = d < 0;
        self.normal = if self.front_face {
            outward_normal
        } else {
            Vec3 { x: -outward_normal.x, y: -outward_normal.y, z: -outward_normal.z }
        };
    }

    /// A fresh record with an oriented normal.
    pub fn creat(u: i64, v: i64, t: i64, outward_normal: Vec3, r: Ray, p: Point3) -> (rec:
        HitRecord)
        requires
            vec_ok(r.dir),
            vec_ok(r.st),
            -0x2_0000 <= outward_normal.x <= 0x2_0000,
            -0x2_0000 <= outward_normal.y <= 0x2_0000,
            -0x2_0000 <= outward_normal.z <= 0x2_0000,
        ensures
            rec.front_face == (dot_spec(r.dir, outward_normal) < 0),
            rec.normal == oriented_normal(r, outward_normal),
            rec.p == p,
            rec.t == t,
            rec.u == u,
            rec.v == v,
    {
        let mut rec = HitRecord {
            p,
            normal: Vec3 { x: 0, y: 0, z: 0 },
            t,
            u,
            v,
            front_face: false,
        };
        rec.set_face_normal(r, outward_normal);
        rec
    }
}

pub struct Translate {
    pub ptr: Box<Hittable>,
    pub offset: Vec3,
}

pub struct RotateY {
    pub ptr: Box<Hittable>,
    pub sin_theta: i64,
    pub cos_theta: i64,
    pub hasbox: bool,
    pub bbox: Aabb,
}

pub struct FlipFace {
    pub ptr: Box<Hittable>,
}

pub struct ConstantMedium {
    pub boundary: Box<Hittable>,
    pub phase_function: Material,
    pub neg_inv_density: i64,
}

/// The closed family of shapes a ray can strike.
pub enum Hittable {
    Sphere(Sphere),
    MovingSphere(MovingSphere),
    XyRect(XyRect),
    XzRect(XzRect),
    YzRect(YzRect),
    MyBox(MyBox),
    Translate(Translate),
    RotateY(RotateY),
    FlipFace(FlipFace),
    ConstantMedium(ConstantMedium),
    Bvh(BvhNode),
}

/// The ray as a translated object sees it.
pub open spec fn moved_ray(r: Ray, off: Vec3) -> Ray {
    Ray {
        st: Vec3 {
            x: (r.st.x - off.x) as i64,
            y: (r.st.y - off.y) as i64,
            z: (r.st.z - off.z) as i64,
        },
        dir: r.dir,
        tm: r.tm,
    }
}

/// The translated origin stays in the working range.
pub open spec fn moved_ok(r: Ray, off: Vec3) -> bool {
    &&& -0x40_0000_0000 <= r.st.x - off.x <= 0x40_0000_0000
    &&& -0x40_0000_0000 <= r.st.y - off.y <= 0x40_0000_0000
    &&& -0x40_0000_0000 <= r.st.z - off.z <= 0x40_0000_0000
}

/// The x and z of a point rotated into object space.
pub open spec fn rot_obj_x(c: int, s: int, x: int, z: int) -> int {
    (c * x - s * z) / 65536
}

pub open spec fn rot_obj_z(c: int, s: int, x: int, z: int) -> int {
    (s * x + c * z) / 65536
}

/// The ray as a rotated object sees it.
pub open spec fn rotated_ray(ro: RotateY, r: Ray) -> Ray {
    Ray {
        st: Vec3 {
            x: rot_obj_x(ro.cos_theta as int, ro.sin_theta as int, r.st.x as int, r.st.z as int)
                as i64,
            y: r.st.y,
            z: rot_obj_z(ro.cos_theta as int, ro.sin_theta as int, r.st.x as int, r.st.z as int)
                as i64,
        },
        dir: Vec3 {
            x: rot_obj_x(ro.cos_theta as int, ro.sin_theta as int, r.dir.x as int, r.dir.z as int)
                as i64,
            y: r.dir.y,
            z: rot_obj_z(ro.cos_theta as int, ro.sin_theta as int, r.dir.x as int, r.dir.z as int)
                as i64,
        },
        tm: r.tm,
    }
}

/// The rotated origin and direction stay in the working range.
pub open spec fn rot_ok(ro: RotateY, r: Ray) -> bool {
    &&& -0x40_0000_0000 <= rot_obj_x(
        ro.cos_theta as int,
        ro.sin_theta as int,
        r.st.x as int,
        r.st.z as int,
    ) <= 0x40_0000_0000
    &&& -0x40_0000_0000 <= rot_obj_z(
        ro.cos_theta as int,
        ro.sin_theta as int,
        r.st.x as int,
        r.st.z as int,
    ) <= 0x40_0000_0000
    &&& -0x40_0000_0000 <= rot_obj_x(
        ro.cos_theta as int,
        ro.sin_theta as int,
        r.dir.x as int,
        r.dir.z as int,
    ) <= 0x40_0000_0000
    &&& -0x40_0000_0000 <= rot_obj_z(
        ro.cos_theta as int,
        ro.sin_theta as int,
        r.dir.x as int,
        r.dir.z as int,
    ) <= 0x40_0000_0000
}

/// Well-formed scene geometry: bounded fields everywhere, and every interior
/// node's box enclosing the boxes of what hangs below it.
pub open spec fn wf(h: Hittable) -> bool
    decreases h,
{
    match h {
        Hittable::Sphere(s) => sphere_ok(s),
        Hittable::MovingSphere(s) => ms_ok(s),
        Hittable::XyRect(q) => xy_ok(q),
        Hittable::XzRect(q) => xz_ok(q),
        Hittable::YzRect(q) => yz_ok(q),
        Hittable::MyBox(b) => mybox_ok(b),
        Hittable::Translate(tr) => wf(*tr.ptr) && -0x8_0000_0000 <= tr.offset.x <= 0x8_0000_0000
            && -0x8_0000_0000 <= tr.offset.y <= 0x8_0000_0000 && -0x8_0000_0000 <= tr.offset.z
            <= 0x8_0000_0000 && box_within(spec_bbox(*tr.ptr), 0x38_0000_0000),
        Hittable::RotateY(ro) => wf(*ro.ptr) && -65536 <= ro.sin_theta <= 65536 && -65536
            <= ro.cos_theta <= 65536 && box_ok(ro.bbox),
        Hittable::FlipFace(f) => wf(*f.ptr),
        Hittable::ConstantMedium(cm) => wf(*cm.boundary) && -0x1_0000_0000 <= cm.neg_inv_density
            <= -1 && mat_ok(cm.phase_function) && box_ok(spec_bbox(*cm.boundary)),
        Hittable::Bvh(n) => {
            &&& box_ok(n.box_)
            &&& (match n.left {
                Some(l) => wf(*l) && box_contains_box(n.box_, spec_bbox(*l)),
                None => true,
            })
            &&& (match n.right {
                Some(rt) => wf(*rt) && box_contains_box(n.box_, spec_bbox(*rt)),
                None => true,
            })
        },
    }
}

/// Box corners within a magnitude.
pub open spec fn box_within(b: Aabb, m: int) -> bool {
    &&& -m <= b.min.x <= m && -m <= b.min.y <= m && -m <= b.min.z <= m
    &&& -m <= b.max.x <= m && -m <= b.max.y <= m && -m <= b.max.z <= m
}

/// The box the shape guarantees to stay inside.
pub open spec fn spec_bbox(h: Hittable) -> Aabb
    decreases h,
{
    match h {
        Hittable::Sphere(s) => sphere_bbox(s),
        Hittable::MovingSphere(s) => ms_bbox(s),
        Hittable::XyRect(q) => xy_bbox(q),
        Hittable::XzRect(q) => xz_bbox(q),
        Hittable::YzRect(q) => yz_bbox(q),
        Hittable::MyBox(b) => mybox_bbox(b),
        Hittable::Translate(tr) => {
            let c = spec_bbox(*tr.ptr);
            Aabb {
                min: Vec3 {
                    x: (c.min.x + tr.offset.x) as i64,
                    y: (c.min.y + tr.offset.y) as i64,
                    z: (c.min.z + tr.offset.z) as i64,
                },
                max: Vec3 {
                    x: (c.max.x + tr.offset.x) as i64,
                    y: (c.max.y + tr.offset.y) as i64,
                    z: (c.max.z + tr.offset.z) as i64,
                },
            }
        },
        Hittable::RotateY(ro) => ro.bbox,
        Hittable::FlipFace(f) => spec_bbox(*f.ptr),
        Hittable::ConstantMedium(cm) => spec_bbox(*cm.boundary),
        Hittable::Bvh(n) => n.box_,
    }
}

/// Shapes whose hit query is a pure function of the ray (a participating
/// medium draws a free-flight sample, so it is excluded).
pub open spec fn deterministic(h: Hittable) -> bool
    decreases h,
{
    match h {
        Hittable::Sphere(_) => true,
        Hittable::MovingSphere(_) => true,
        Hittable::XyRect(_) => true,
        Hittable::XzRect(_) => true,
        Hittable::YzRect(_) => true,
        Hittable::MyBox(_) => true,
        Hittable::Translate(tr) => deterministic(*tr.ptr),
        Hittable::RotateY(ro) => deterministic(*ro.ptr),
        Hittable::FlipFace(f) => deterministic(*f.ptr),
        Hittable::ConstantMedium(_) => false,
        Hittable::Bvh(n) => (match n.left {
            Some(l) => deterministic(*l),
            None => true,
        }) && (match n.right {
            Some(rt) => deterministic(*rt),
            None => true,
        }),
    }
}

/// The material `m` is one of the shape's own materials: every reported hit
/// carries one of these.
pub open spec fn holds_mat(h: Hittable, m: Material) -> bool
    decreases h,
{
    match h {
        Hittable::Sphere(s) => m == s.mat_ptr,
        Hittable::MovingSphere(s) => m == s.mat_ptr,
        Hittable::XyRect(q) => m == q.mp,
        Hittable::XzRect(q) => m == q.mp,
        Hittable::YzRect(q) => m == q.mp,
        Hittable::MyBox(b) => m == b.side_xy0.mp || m == b.side_xy1.mp || m == b.side_xz0.mp || m
            == b.side_xz1.mp || m == b.side_yz0.mp || m == b.side_yz1.mp,
        Hittable::Translate(tr) => holds_mat(*tr.ptr, m),
        Hittable::RotateY(ro) => holds_mat(*ro.ptr, m),
        Hittable::FlipFace(f) => holds_mat(*f.ptr, m),
        Hittable::ConstantMedium(cm) => m == cm.phase_function,
        Hittable::Bvh(n) => (match n.left {
            Some(l) => holds_mat(*l, m),
            None => false,
        }) || (match n.right {
            Some(rt) => holds_mat(*rt, m),
            None => false,
        }),
    }
}

/// Shapes whose record carries the ray's exact point at the returned
/// parameter (the transform decorators and the medium adjust or clamp it).
pub open spec fn point_exact(h: Hittable) -> bool
    decreases h,
{
    match h {
        Hittable::Sphere(_) => true,
        Hittable::MovingSphere(_) => true,
        Hittable::XyRect(_) => true,
        Hittable::XzRect(_) => true,
        Hittable::YzRect(_) => true,
        Hittable::MyBox(_) => true,
        Hittable::Translate(_) => false,
        Hittable::RotateY(_) => false,
        Hittable::FlipFace(f) => point_exact(*f.ptr),
        Hittable::ConstantMedium(_) => false,
        Hittable::Bvh(n) => (match n.left {
            Some(l) => point_exact(*l),
            None => true,
        }) && (match n.right {
            Some(rt) => point_exact(*rt),
            None => true,
        }),
    }
}

/// The constant outward normal of a flat shape (the axis rectangles), or
/// nothing for the other kinds.
pub open spec fn flat_outward(h: Hittable) -> Option<Vec3> {
    match h {
        Hittable::XyRect(_) => Some(Vec3 { x: 0, y: 0, z: 65536 }),
        Hittable::XzRect(_) => Some(Vec3 { x: 0, y: 65536, z: 0 }),
        Hittable::YzRect(_) => Some(Vec3 { x: 65536, y: 0, z: 0 }),
        _ => None,
    }
}

/// The candidate hit parameters a deterministic shape offers a ray.
pub open spec fn hit_ts(h: Hittable, r: Ray) -> Set<int>
    decreases h,
{
    match h {
        Hittable::Sphere(s) => sphere_ts(s, r),
        Hittable::MovingSphere(s) => ms_ts(s, r),
        Hittable::XyRect(q) => box_ts(xy_bbox(q), r),
        Hittable::XzRect(q) => box_ts(xz_bbox(q), r),
        Hittable::YzRect(q) => box_ts(yz_bbox(q), r),
        Hittable::MyBox(b) => mybox_ts(b, r),
        Hittable::Translate(tr) => if moved_ok(r, tr.offset) {
            hit_ts(*tr.ptr, moved_ray(r, tr.offset))
        } else {
            Set::empty()
        },
        Hittable::RotateY(ro) => if rot_ok(ro, r) {
            hit_ts(*ro.ptr, rotated_ray(ro, r)).intersect(box_ts(ro.bbox, r))
        } else {
            Set::empty()
        },
        Hittable::FlipFace(f) => hit_ts(*f.ptr, r),
        Hittable::ConstantMedium(_) => Set::empty(),
        Hittable::Bvh(n) => (match n.left {
            Some(l) => hit_ts(*l, r),
            None => Set::empty(),
        }).union(
            match n.right {
                Some(rt) => hit_ts(*rt, r),
                None => Set::empty(),
            },
        ),
    }
}

/// Every candidate parameter of a well-formed shape lies inside the shape's
/// box: the fact that justifies pruning by the slab test.
pub proof fn lemma_ts_in_box(h: Hittable, r: Ray, t: int)
    requires
        wf(h),
        hit_ts(h, r).contains(t),
    ensures
        pt_in_box(spec_bbox(h), r, t),
    decreases h,
{
    match h {
        Hittable::Sphere(s) => {
        },
        Hittable::MovingSphere(s) => {
            crate::moving_sphere::lemma_ms_center_in_span(s, r.tm);
            crate::aabb::lemma_pt_in_wider(
                ms_bbox(s),
                ball_bbox(crate::moving_sphere::ms_center(s, r.tm), s.radius),
                r,
                t,
            );
        },
        Hittable::XyRect(q) => {
        },
        Hittable::XzRect(q) => {
        },
        Hittable::YzRect(q) => {
        },
        Hittable::MyBox(b) => {
            crate::mybox::lemma_mybox_in_box(b, r, t);
        },
        Hittable::Translate(tr) => {
            lemma_ts_in_box(*tr.ptr, moved_ray(r, tr.offset), t);
            let c = spec_bbox(*tr.ptr);
            let m = moved_ray(r, tr.offset);
            assert(m.st.x == r.st.x - tr.offset.x && m.st.y == r.st.y - tr.offset.y && m.st.z
                == r.st.z - tr.offset.z);
            assert(pt_in_box(spec_bbox(h), r, t)) by {
                assert((c.min.x + tr.offset.x) * 65536 <= r.st.x * 65536 + r.dir.x * t <= (c.max.x
                    + tr.offset.x) * 65536) by (nonlinear_arith)
                    requires
                        c.min.x * 65536 <= (r.st.x - tr.offset.x) * 65536 + r.dir.x * t
                            <= c.max.x * 65536;
                assert((c.min.y + tr.offset.y) * 65536 <= r.st.y * 65536 + r.dir.y * t <= (c.max.y
                    + tr.offset.y) * 65536) by (nonlinear_arith)
                    requires
                        c.min.y * 65536 <= (r.st.y - tr.offset.y) * 65536 + r.dir.y * t
                            <= c.max.y * 65536;
                assert((c.min.z + tr.offset.z) * 65536 <= r.st.z * 65536 + r.dir.z * t <= (c.max.z
                    + tr.offset.z) * 65536) by (nonlinear_arith)
                    requires
                        c.min.z * 65536 <= (r.st.z - tr.offset.z) * 65536 + r.dir.z * t
                            <= c.max.z * 65536;
            }
        },
        Hittable::RotateY(ro) => {
            assert(box_ts(ro.bbox, r).contains(t));
        },
        Hittable::FlipFace(f) => {
            lemma_ts_in_box(*f.ptr, r, t);
        },
        Hittable::ConstantMedium(_) => {
            assert(false);
        },
        Hittable::Bvh(n) => {
            let tsl = match n.left {
                Some(l) => hit_ts(*l, r),
                None => Set::empty(),
            };
            if tsl.contains(t) {
                let l = n.left->Some_0;
                lemma_ts_in_box(*l, r, t);
                crate::aabb::lemma_pt_in_wider(n.box_, spec_bbox(*l), r, t);
            } else {
                let rt = n.right->Some_0;
                lemma_ts_in_box(*rt, r, t);
                crate::aabb::lemma_pt_in_wider(n.box_, spec_bbox(*rt), r, t);
            }
        },
    }
}

/// A point inside a box seen by a translated ray is inside the shifted box.
pub proof fn lemma_shift_box(c: Aabb, off: Vec3, r: Ray, t: int)
    requires
        moved_ok(r, off),
        -0x8_0000_0000 <= off.x <= 0x8_0000_0000,
        -0x8_0000_0000 <= off.y <= 0x8_0000_0000,
        -0x8_0000_0000 <= off.z <= 0x8_0000_0000,
        box_within(c, 0x38_0000_0000),
        pt_in_box(c, moved_ray(r, off), t),
    ensures
        pt_in_box(
            Aabb {
                min: Vec3 {
                    x: (c.min.x + off.x) as i64,
                    y: (c.min.y + off.y) as i64,
                    z: (c.min.z + off.z) as i64,
                },
                max: Vec3 {
                    x: (c.max.x + off.x) as i64,
                    y: (c.max.y + off.y) as i64,
                    z: (c.max.z + off.z) as i64,
                },
            },
            r,
            t,
        ),
{
    let m = moved_ray(r, off);
    assert(m.st.x == r.st.x - off.x && m.st.y == r.st.y - off.y && m.st.z == r.st.z - off.z);
    assert((c.min.x + off.x) * 65536 <= r.st.x * 65536 + r.dir.x * t <= (c.max.x + off.x) * 65536)
        by (nonlinear_arith)
        requires
            c.min.x * 65536 <= (r.st.x - off.x) * 65536 + r.dir.x * t <= c.max.x * 65536;
    assert((c.min.y + off.y) * 65536 <= r.st.y * 65536 + r.dir.y * t <= (c.max.y + off.y) * 65536)
        by (nonlinear_arith)
        requires
            c.min.y * 65536 <= (r.st.y - off.y) * 65536 + r.dir.y * t <= c.max.y * 65536;
    assert((c.min.z + off.z) * 65536 <= r.st.z * 65536 + r.dir.z * t <= (c.max.z + off.z) * 65536)
        by (nonlinear_arith)
        requires
            c.min.z * 65536 <= (r.st.z - off.z) * 65536 + r.dir.z * t <= c.max.z * 65536;
}

/// One fixed-point rotation component, bounded for working inputs.
fn rot_comp(c: i64, s: i64, x: i64, z: i64) -> (r: i128)
    requires
        -65536 <= c <= 65536,
        -65536 <= s <= 65536,
        -0x40_0000_0000 <= x <= 0x40_0000_0000,
        -0x40_0000_0000 <= z <= 0x40_0000_0000,
    ensures
        r == rot_obj_x(c as int, s as int, x as int, z as int),
        -0x80_0000_0000 <= r <= 0x80_0000_0000,
{
    proof {
        assert(-0x40_0000_0000_0000 <= c as int * x as int <= 0x40_0000_0000_0000
            && -0x40_0000_0000_0000 <= s as int * z as int <= 0x40_0000_0000_0000
            && -0x80_0000_0000_0000 <= c as int * x as int - s as int * z as int
            <= 0x80_0000_0000_0000) by (nonlinear_arith)
            requires
                -65536 <= c as int <= 65536,
                -65536 <= s as int <= 65536,
                -0x40_0000_0000 <= x as int <= 0x40_0000_0000,
                -0x40_0000_0000 <= z as int <= 0x40_0000_0000;
        vstd::arithmetic::div_mod::lemma_div_is_ordered(
            c as int * x as int - s as int * z as int,
            0x80_0000_0000_0000,
            65536,
        );
        vstd::arithmetic::div_mod::lemma_div_is_ordered(
            -0x80_0000_0000_0000,
            c as int * x as int - s as int * z as int,
            65536,
        );
    }
    div_floor((c as i128) * (x as i128) - (s as i128) * (z as i128), 65536)
}

impl Hittable {
    /// The nearest intersection of the ray with the shape within the
    /// open-closed window `(t_min, t_max]`, with the material at the hit.
    ///
    /// For deterministic shapes the result is exactly the least candidate
    /// parameter in the window; a participating medium promises only that a
    /// reported hit lies in the window and inside the shape's box.
    pub fn hit(&self, r: Ray, t_min: i64, t_max: i64) -> (res: Option<(HitRecord, &Material)>)
        requires
            wf(*self),
            ray_ok(r),
            -0x100_0000_0000 <= r.tm <= 0x100_0000_0000,
            -0x100_0000_0000 <= t_min <= 0x100_0000_0000,
            -0x100_0000_0000 <= t_max <= 0x100_0000_0000,
        ensures
            deterministic(*self) ==> answers(hit_ts(*self, r), t_min as int, t_max as int, match res {
                Some(rm) => Some(rm.0.t as int),
                None => None,
            }),
            res matches Some(rm) ==> t_min < rm.0.t <= t_max && pt_in_box(
                spec_bbox(*self),
                r,
                rm.0.t as int,
            ) && rec_ok(rm.0) && mat_ok(*rm.1) && holds_mat(*self, *rm.1),
            point_exact(*self) ==> (res matches Some(rm) ==> rm.0.p.x == at_comp(
                r.st.x as int,
                r.dir.x as int,
                rm.0.t as int,
            ) && rm.0.p.y == at_comp(r.st.y as int, r.dir.y as int, rm.0.t as int) && rm.0.p.z
                == at_comp(r.st.z as int, r.dir.z as int, rm.0.t as int)),
            *self matches Hittable::ConstantMedium(cm) ==> (res matches Some(rm) ==> rm.0.normal
                == (Vec3 { x: 65536, y: 0, z: 0 }) && rm.0.front_face && rm.0.u == 0 && rm.0.v
                == 0 && *rm.1 == cm.phase_function) && (deterministic(*cm.boundary) && !has_hit(
                hit_ts(*cm.boundary, r),
                -0x100_0000_0000,
                0x100_0000_0000,
            ) ==> res is None) && (forall|t1s: int|
                deterministic(*cm.boundary) && #[trigger] is_nearest(
                    hit_ts(*cm.boundary, r),
                    -0x100_0000_0000,
                    0x100_0000_0000,
                    t1s,
                ) && (t1s > 0x100_0000_0000 - 7 || !has_hit(
                    hit_ts(*cm.boundary, r),
                    t1s + 7,
                    0x100_0000_0000,
                )) ==> res is None),
            // a flat shape's record carries its axis normal oriented against
            // the ray, and the face decorator's sole effect is to negate the
            // side flag
            flat_outward(*self) is Some ==> (res matches Some(rm) ==> rm.0.normal
                == oriented_normal(r, flat_outward(*self)->Some_0) && rm.0.front_face == (
            dot_spec(r.dir, flat_outward(*self)->Some_0) < 0)),
            *self matches Hittable::FlipFace(f) ==> (flat_outward(*f.ptr) is Some ==> (
            res matches Some(rm) ==> rm.0.normal == oriented_normal(
                r,
                flat_outward(*f.ptr)->Some_0,
            ) && rm.0.front_face == !(dot_spec(r.dir, flat_outward(*f.ptr)->Some_0) < 0))),
            // the decorators re-orient the record's normal against the ray
            // they hand to their child, so it never points with that ray
            *self matches Hittable::Translate(tr) ==> (res matches Some(rm) ==> dot_spec(
                r.dir,
                rm.0.normal,
            ) <= 0) && (point_exact(*tr.ptr) ==> (res matches Some(rm) ==> rm.0.p.x
                == crate::fixed::clamp_s(
                at_comp(r.st.x as int, r.dir.x as int, rm.0.t as int),
                -0x40_0000_0000,
                0x40_0000_0000,
            ) && rm.0.p.y == crate::fixed::clamp_s(
                at_comp(r.st.y as int, r.dir.y as int, rm.0.t as int),
                -0x40_0000_0000,
                0x40_0000_0000,
            ) && rm.0.p.z == crate::fixed::clamp_s(
                at_comp(r.st.z as int, r.dir.z as int, rm.0.t as int),
                -0x40_0000_0000,
                0x40_0000_0000,
            ))),
            *self matches Hittable::RotateY(ro) ==> (res matches Some(rm) ==> dot_spec(
                rotated_ray(ro, r).dir,
                rm.0.normal,
            ) <= 0) && (point_exact(*ro.ptr) ==> (res matches Some(rm) ==> rm.0.p.y == at_comp(
                rotated_ray(ro, r).st.y as int,
                rotated_ray(ro, r).dir.y as int,
                rm.0.t as int,
            ) && rm.0.p.x == crate::fixed::clamp_s(
                rot_obj_x(
                    ro.cos_theta as int,
                    -ro.sin_theta as int,
                    at_comp(
                        rotated_ray(ro, r).st.x as int,
                        rotated_ray(ro, r).dir.x as int,
                        rm.0.t as int,
                    ),
                    at_comp(
                        rotated_ray(ro, r).st.z as int,
                        rotated_ray(ro, r).dir.z as int,
                        rm.0.t as int,
                    ),
                ),
                -0x40_0000_0000,
                0x40_0000_0000,
            ) && rm.0.p.z == crate::fixed::clamp_s(
                rot_obj_x(
                    ro.cos_theta as int,
                    ro.sin_theta as int,
                    at_comp(
                        rotated_ray(ro, r).st.z as int,
                        rotated_ray(ro, r).dir.z as int,
                        rm.0.t as int,
                    ),
                    at_comp(
                        rotated_ray(ro, r).st.x as int,
                        rotated_ray(ro, r).dir.x as int,
                        rm.0.t as int,
                    ),
                ),
                -0x40_0000_0000,
                0x40_0000_0000,
            ))),
        decreases *self,
    {
        match self {
            Hittable::Sphere(s) => {
                match s.hit(r, t_min, t_max) {
                    Some(rec) => Some((rec, &s.mat_ptr)),
                    None => None,
                }
            },
            Hittable::MovingSphere(s) => {
                let res0 = s.hit(r, t_min, t_max);
                proof {
                    if res0 is Some {
                        crate::moving_sphere::lemma_ms_center_in_span(*s, r.tm);
                        crate::aabb::lemma_pt_in_wider(
                            ms_bbox(*s),
                            ball_bbox(crate::moving_sphere::ms_center(*s, r.tm), s.radius),
                            r,
                            res0->Some_0.t as int,
                        );
                    }
                }
                match res0 {
                    Some(rec) => Some((rec, &s.mat_ptr)),
                    None => None,
                }
            },
            Hittable::XyRect(q) => {
                match q.hit(r, t_min, t_max) {
                    Some(rec) => Some((rec, &q.mp)),
                    None => None,
                }
            },
            Hittable::XzRect(q) => {
                match q.hit(r, t_min, t_max) {
                    Some(rec) => Some((rec, &q.mp)),
                    None => None,
                }
            },
            Hittable::YzRect(q) => {
                match q.hit(r, t_min, t_max) {
                    Some(rec) => Some((rec, &q.mp)),
                    None => None,
                }
            },
            Hittable::MyBox(b) => b.hit(r, t_min, t_max),
            Hittable::Translate(tr) => {
                let okx = -0x40_0000_0000 <= (r.st.x as i128) - (tr.offset.x as i128)
                    && (r.st.x as i128) - (tr.offset.x as i128) <= 0x40_0000_0000;
                let oky = -0x40_0000_0000 <= (r.st.y as i128) - (tr.offset.y as i128)
                    && (r.st.y as i128) - (tr.offset.y as i128) <= 0x40_0000_0000;
                let okz = -0x40_0000_0000 <= (r.st.z as i128) - (tr.offset.z as i128)
                    && (r.st.z as i128) - (tr.offset.z as i128) <= 0x40_0000_0000;
                if !(okx && oky && okz) {
                    proof {
                        lemma_none_for_empty(hit_ts(*self, r), t_min as int, t_max as int);
                    }
                    return None;
                }
                let moved = Ray {
                    st: Vec3 {
                        x: r.st.x - tr.offset.x,
                        y: r.st.y - tr.offset.y,
                        z: r.st.z - tr.offset.z,
                    },
                    dir: r.dir,
                    tm: r.tm,
                };
                proof {
                    assert(moved == moved_ray(r, tr.offset));
                }
                match (*tr.ptr).hit(moved, t_min, t_max) {
                    Some((rec0, m)) => {
                        proof {
                            lemma_shift_box(
                                spec_bbox(*tr.ptr),
                                tr.offset,
                                r,
                                rec0.t as int,
                            );
                            lemma_oriented_normal_opposes(moved, rec0.normal);
                        }
                        let mut rec = rec0;
                        rec.p = Vec3 {
                            x: clamp(rec0.p.x + tr.offset.x, -0x40_0000_0000, 0x40_0000_0000),
                            y: clamp(rec0.p.y + tr.offset.y, -0x40_0000_0000, 0x40_0000_0000),
                            z: clamp(rec0.p.z + tr.offset.z, -0x40_0000_0000, 0x40_0000_0000),
                        };
                        rec.set_face_normal(moved, rec0.normal);
                        Some((rec, m))
                    },
                    None => None,
                }
            },
            Hittable::RotateY(ro) => {
                let c = ro.cos_theta;
                let sn = ro.sin_theta;
                let rsx = rot_comp(c, sn, r.st.x, r.st.z);
                let rsz = rot_comp(c, -sn, r.st.z, r.st.x);
                let rdx = rot_comp(c, sn, r.dir.x, r.dir.z);
                let rdz = rot_comp(c, -sn, r.dir.z, r.dir.x);
                proof {
                    lemma_rot_z_form(c as int, sn as int, r.st.x as int, r.st.z as int);
                    lemma_rot_z_form(c as int, sn as int, r.dir.x as int, r.dir.z as int);
                }
                if !(-0x40_0000_0000 <= rsx && rsx <= 0x40_0000_0000 && -0x40_0000_0000 <= rsz
                    && rsz <= 0x40_0000_0000 && -0x40_0000_0000 <= rdx && rdx <= 0x40_0000_0000
                    && -0x40_0000_0000 <= rdz && rdz <= 0x40_0000_0000) {
                    proof {
                        lemma_none_for_empty(hit_ts(*self, r), t_min as int, t_max as int);
                    }
                    return None;
                }
                let rot_r = Ray {
                    st: Vec3 { x: rsx as i64, y: r.st.y, z: rsz as i64 },
                    dir: Vec3 { x: rdx as i64, y: r.dir.y, z: rdz as i64 },
                    tm: r.tm,
                };
                proof {
                    assert(rot_r == rotated_ray(*ro, r));
                }
                let ghost full = hit_ts(*ro.ptr, rot_r);
                let ghost filt = hit_ts(*self, r);
                let mut cur = t_min;
                loop
                    invariant
                        wf(*self),
                        ray_ok(r),
                        ray_ok(rot_r),
                        rot_r == rotated_ray(*ro, r),
                        rot_ok(*ro, r),
                        *self matches Hittable::RotateY(x) && x == *ro,
                        c == ro.cos_theta && sn == ro.sin_theta,
                        -65536 <= c <= 65536 && -65536 <= sn <= 65536,
                        full == hit_ts(*ro.ptr, rot_r),
                        filt == hit_ts(*self, r),
                        filt == full.intersect(box_ts(ro.bbox, r)),
                        t_min <= cur <= t_max || (cur == t_min && t_min > t_max),
                        -0x100_0000_0000 <= t_min <= 0x100_0000_0000,
                        -0x100_0000_0000 <= t_max <= 0x100_0000_0000,
                        -0x100_0000_0000 <= r.tm <= 0x100_0000_0000,
                        deterministic(*self) ==> forall|t2: int|
                            #[trigger] filt.contains(t2) ==> !(t_min < t2 <= cur),
                    decreases t_max - cur,
                {
                    match (*ro.ptr).hit(rot_r, cur, t_max) {
                        Some((rec0, m)) => {
                            if pt_in_box_check(&ro.bbox, r, rec0.t) {
                                proof {
                                    if deterministic(*self) {
                                        assert(filt.contains(rec0.t as int)) by {
                                            assert(full.contains(rec0.t as int));
                                            assert(box_ts(ro.bbox, r).contains(rec0.t as int));
                                        }
                                        assert(qualifies(
                                            filt,
                                            t_min as int,
                                            t_max as int,
                                            rec0.t as int,
                                        ));
                                        assert forall|t2: int|
                                            #[trigger] qualifies(
                                                filt,
                                                t_min as int,
                                                t_max as int,
                                                t2,
                                            ) implies rec0.t as int <= t2 by {
                                            assert(filt.contains(t2));
                                            assert(!(t_min < t2 <= cur));
                                            assert(full.contains(t2));
                                            assert(qualifies(
                                                full,
                                                cur as int,
                                                t_max as int,
                                                t2,
                                            ));
                                        }
                                    }
                                }
                                let wx = rot_comp(c, -sn, rec0.p.x, rec0.p.z);
                                let wz = rot_comp(c, sn, rec0.p.z, rec0.p.x);
                                let nx = rot_comp(c, -sn, rec0.normal.x, rec0.normal.z);
                                let nz = rot_comp(c, sn, rec0.normal.z, rec0.normal.x);
                                let p2 = Vec3 {
                                    x: clamp(wx as i64, -0x40_0000_0000, 0x40_0000_0000),
                                    y: rec0.p.y,
                                    z: clamp(wz as i64, -0x40_0000_0000, 0x40_0000_0000),
                                };
                                let n2 = Vec3 {
                                    x: clamp(nx as i64, -0x2_0000, 0x2_0000),
                                    y: rec0.normal.y,
                                    z: clamp(nz as i64, -0x2_0000, 0x2_0000),
                                };
                                proof {
                                    lemma_oriented_normal_opposes(rot_r, n2);
                                }
                                let mut rec = rec0;
                                rec.p = p2;
                                rec.set_face_normal(rot_r, n2);
                                return Some((rec, m));
                            } else {
                                proof {
                                    if deterministic(*self) {
                                        assert forall|t2: int|
                                            #[trigger] filt.contains(t2) implies !(t_min < t2
                                            <= rec0.t) by {
                                            if cur < t2 <= rec0.t {
                                                assert(full.contains(t2));
                                                assert(qualifies(
                                                    full,
                                                    cur as int,
                                                    t_max as int,
                                                    t2,
                                                ));
                                                assert(rec0.t as int <= t2);
                                                assert(t2 == rec0.t as int);
                                                assert(box_ts(ro.bbox, r).contains(t2));
                                                assert(pt_in_box(ro.bbox, r, t2));
                                                assert(false);
                                            }
                                        }
                                    }
                                }
                                cur = rec0.t;
                            }
                        },
                        None => {
                            proof {
                                if deterministic(*self) && has_hit(
                                    filt,
                                    t_min as int,
                                    t_max as int,
                                ) {
                                    let t2 = choose|t2: int|
                                        #[trigger] qualifies(filt, t_min as int, t_max as int, t2);
                                    assert(filt.contains(t2));
                                    assert(!(t_min < t2 <= cur));
                                    assert(full.contains(t2));
                                    assert(qualifies(full, cur as int, t_max as int, t2));
                                }
                            }
                            return None;
                        },
                    }
                }
            },
            Hittable::FlipFace(f) => {
                match (*f.ptr).hit(r, t_min, t_max) {
                    Some((rec0, m)) => {
                        let mut rec = rec0;
                        rec.front_face = !rec0.front_face;
                        Some((rec, m))
                    },
                    None => None,
                }
            },
            Hittable::ConstantMedium(cm) => {
                let rec1m = (*cm.boundary).hit(r, -0x100_0000_0000, 0x100_0000_0000);
                let rec1 = match rec1m {
                    Some(rm) => rm.0,
                    None => {
                        return None;
                    },
                };
                if rec1.t > 0x100_0000_0000 - 7 {
                    return None;
                }
                proof {
                    if deterministic(*cm.boundary) {
                        assert forall|t1s: int|
                            #[trigger] is_nearest(
                                hit_ts(*cm.boundary, r),
                                -0x100_0000_0000,
                                0x100_0000_0000,
                                t1s,
                            ) implies t1s == rec1.t as int by {
                            crate::nearest::lemma_nearest_unique(
                                hit_ts(*cm.boundary, r),
                                -0x100_0000_0000,
                                0x100_0000_0000,
                                t1s,
                                rec1.t as int,
                            );
                        }
                    }
                }
                let rec2m = (*cm.boundary).hit(r, rec1.t + 7, 0x100_0000_0000);
                let rec2 = match rec2m {
                    Some(rm) => rm.0,
                    None => {
                        return None;
                    },
                };
                proof {
                    if deterministic(*cm.boundary) {
                        assert(qualifies(
                            hit_ts(*cm.boundary, r),
                            rec1.t as int + 7,
                            0x100_0000_0000,
                            rec2.t as int,
                        ));
                    }
                }
                let mut t1 = rec1.t;
                let mut t2 = rec2.t;
                if t1 < t_min {
                    t1 = t_min;
                }
                if t2 > t_max {
                    t2 = t_max;
                }
                if t1 >= t2 {
                    return None;
                }
                if t1 < 0 {
                    t1 = 0;
                }
                if t1 >= t2 {
                    return None;
                }
                let len = r.get_dir().length();
                if len == 0 {
                    return None;
                }
                proof {
                    crate::vec3::lemma_dot_fits(r.dir, r.dir);
                    assert((len as int) < 0x100_0000_0000) by (nonlinear_arith)
                        requires
                            len as int * len as int <= crate::vec3::raw_len2(r.dir),
                            crate::vec3::raw_len2(r.dir) <= 0x3000_0000_0000_0000_0000,
                            len >= 0;
                    assert(-0x200_0000_0000 <= (t2 - t1) as int <= 0x200_0000_0000);
                    assert(-0x2_0000_0000_0000_0000_0000 <= (t2 - t1) as int * len as int
                        <= 0x2_0000_0000_0000_0000_0000) by (nonlinear_arith)
                        requires
                            -0x200_0000_0000 <= (t2 - t1) as int <= 0x200_0000_0000,
                            0 <= (len as int) < 0x100_0000_0000;
                }
                let u = crate::rng::random_double() + 1;
                let nl = crate::trig::fx_neg_ln(u);
                let t = match medium_scatter_t(t1, t2, len, cm.neg_inv_density, nl) {
                    Some(t) => t,
                    None => {
                        return None;
                    },
                };
                if !(t_min < t && t <= t_max) {
                    return None;
                }
                let mut ob: Aabb = Default::default();
                let okb = (*cm.boundary).bounding_box(0, 0, &mut ob);
                if !pt_in_box_check(&ob, r, t) {
                    return None;
                }
                let p = r.at(t);
                let rec = HitRecord {
                    p: Vec3 {
                        x: clamp(p.x, -0x40_0000_0000, 0x40_0000_0000),
                        y: clamp(p.y, -0x40_0000_0000, 0x40_0000_0000),
                        z: clamp(p.z, -0x40_0000_0000, 0x40_0000_0000),
                    },
                    normal: Vec3 { x: 65536, y: 0, z: 0 },
                    t,
                    u: 0,
                    v: 0,
                    front_face: true,
                };
                Some((rec, &cm.phase_function))
            },
            Hittable::Bvh(n) => {
                let ghost tsl = if n.left is Some {
                    hit_ts(*n.left->Some_0, r)
                } else {
                    Set::<int>::empty()
                };
                let ghost tsr = if n.right is Some {
                    hit_ts(*n.right->Some_0, r)
                } else {
                    Set::<int>::empty()
                };
                if !n.box_.hit(r, t_min, t_max) {
                    proof {
                        if deterministic(*self) && has_hit(
                            hit_ts(*self, r),
                            t_min as int,
                            t_max as int,
                        ) {
                            let t = choose|t: int|
                                #[trigger] qualifies(
                                    hit_ts(*self, r),
                                    t_min as int,
                                    t_max as int,
                                    t,
                                );
                            lemma_ts_in_box(*self, r, t);
                            assert(pt_in_box(n.box_, r, t) && hit_window(
                                t_min as int,
                                t_max as int,
                                t,
                            ));
                            assert(false);
                        }
                    }
                    return None;
                }
                let hit_left = match &n.left {
                    Some(l) => l.hit(r, t_min, t_max),
                    None => {
                        proof {
                            lemma_none_for_empty(tsl, t_min as int, t_max as int);
                        }
                        None
                    },
                };
                let w2 = match &hit_left {
                    Some(rm) => rm.0.t,
                    None => t_max,
                };
                let hit_right = match &n.right {
                    Some(rt) => rt.hit(r, t_min, w2),
                    None => {
                        proof {
                            lemma_none_for_empty(tsr, t_min as int, w2 as int);
                        }
                        None
                    },
                };
                proof {
                    if deterministic(*self) {
                        lemma_scan_step(
                            tsl,
                            tsr,
                            t_min as int,
                            t_max as int,
                            match hit_left {
                                Some(rm) => Some(rm.0.t as int),
                                None => None,
                            },
                            match hit_right {
                                Some(rm) => Some(rm.0.t as int),
                                None => None,
                            },
                        );
                    }
                    if hit_right is Some {
                        let rm = hit_right->Some_0;
                        crate::aabb::lemma_pt_in_wider(
                            n.box_,
                            spec_bbox(*n.right->Some_0),
                            r,
                            rm.0.t as int,
                        );
                    } else if hit_left is Some {
                        let rm = hit_left->Some_0;
                        crate::aabb::lemma_pt_in_wider(
                            n.box_,
                            spec_bbox(*n.left->Some_0),
                            r,
                            rm.0.t as int,
                        );
                    }
                }
                match hit_right {
                    Some(rm) => Some(rm),
                    None => hit_left,
                }
            },
        }
    }

    /// Writes the shape's box into `output_box`; every shape in the family
    /// has one, so the result is always true.
    pub fn bounding_box(&self, t0: i64, t1: i64, output_box: &mut Aabb) -> (b: bool)
        requires
            wf(*self),
        ensures
            b == true,
            *final(output_box) == spec_bbox(*self),
        decreases *self,
    {
        match self {
            Hittable::Sphere(s) => {
                *output_box = crate::sphere::ball_bbox_exec(s.center, s.radius);
            },
            Hittable::MovingSphere(s) => {
                let b0 = crate::sphere::ball_bbox_exec(s.center0, s.radius);
                let b1 = crate::sphere::ball_bbox_exec(s.center1, s.radius);
                let u = crate::aabb::surrounding_box(b0, b1);
                *output_box = Aabb {
                    min: Vec3 { x: u.min.x - 2, y: u.min.y - 2, z: u.min.z - 2 },
                    max: Vec3 { x: u.max.x + 2, y: u.max.y + 2, z: u.max.z + 2 },
                };
            },
            Hittable::XyRect(q) => {
                *output_box = Aabb {
                    min: Vec3 { x: q.x0, y: q.y0, z: q.k - 7 },
                    max: Vec3 { x: q.x1, y: q.y1, z: q.k + 7 },
                };
            },
            Hittable::XzRect(q) => {
                *output_box = Aabb {
                    min: Vec3 { x: q.x0, y: q.k - 7, z: q.z0 },
                    max: Vec3 { x: q.x1, y: q.k + 7, z: q.z1 },
                };
            },
            Hittable::YzRect(q) => {
                *output_box = Aabb {
                    min: Vec3 { x: q.k - 7, y: q.y0, z: q.z0 },
                    max: Vec3 { x: q.k + 7, y: q.y1, z: q.z1 },
                };
            },
            Hittable::MyBox(b) => {
                let b1 = crate::aabb::surrounding_box(
                    Aabb {
                        min: Vec3 { x: b.side_xy0.x0, y: b.side_xy0.y0, z: b.side_xy0.k - 7 },
                        max: Vec3 { x: b.side_xy0.x1, y: b.side_xy0.y1, z: b.side_xy0.k + 7 },
                    },
                    Aabb {
                        min: Vec3 { x: b.side_xy1.x0, y: b.side_xy1.y0, z: b.side_xy1.k - 7 },
                        max: Vec3 { x: b.side_xy1.x1, y: b.side_xy1.y1, z: b.side_xy1.k + 7 },
                    },
                );
                let b2 = crate::aabb::surrounding_box(
                    Aabb {
                        min: Vec3 { x: b.side_xz0.x0, y: b.side_xz0.k - 7, z: b.side_xz0.z0 },
                        max: Vec3 { x: b.side_xz0.x1, y: b.side_xz0.k + 7, z: b.side_xz0.z1 },
                    },
                    Aabb {
                        min: Vec3 { x: b.side_xz1.x0, y: b.side_xz1.k - 7, z: b.side_xz1.z0 },
                        max: Vec3 { x: b.side_xz1.x1, y: b.side_xz1.k + 7, z: b.side_xz1.z1 },
                    },
                );
                let b3 = crate::aabb::surrounding_box(
                    Aabb {
                        min: Vec3 { x: b.side_yz0.k - 7, y: b.side_yz0.y0, z: b.side_yz0.z0 },
                        max: Vec3 { x: b.side_yz0.k + 7, y: b.side_yz0.y1, z: b.side_yz0.z1 },
                    },
                    Aabb {
                        min: Vec3 { x: b.side_yz1.k - 7, y: b.side_yz1.y0, z: b.side_yz1.z0 },
                        max: Vec3 { x: b.side_yz1.k + 7, y: b.side_yz1.y1, z: b.side_yz1.z1 },
                    },
                );
                *output_box = crate::aabb::surrounding_box(
                    crate::aabb::surrounding_box(b1, b2),
                    b3,
                );
            },
            Hittable::Translate(tr) => {
                let mut inner: Aabb = Default::default();
                let got = (*tr.ptr).bounding_box(t0, t1, &mut inner);
                *output_box = Aabb {
                    min: Vec3 {
                        x: inner.min.x + tr.offset.x,
                        y: inner.min.y + tr.offset.y,
                        z: inner.min.z + tr.offset.z,
                    },
                    max: Vec3 {
                        x: inner.max.x + tr.offset.x,
                        y: inner.max.y + tr.offset.y,
                        z: inner.max.z + tr.offset.z,
                    },
                };
            },
            Hittable::RotateY(ro) => {
                *output_box = ro.bbox;
            },
            Hittable::FlipFace(f) => {
                let got = (*f.ptr).bounding_box(t0, t1, output_box);
            },
            Hittable::ConstantMedium(cm) => {
                let got = (*cm.boundary).bounding_box(t0, t1, output_box);
            },
            Hittable::Bvh(n) => {
                *output_box = n.box_;
            },
        }
        true
    }
}

/// One corner coordinate of a box, the corners indexed 0 to 7 by bits.
pub open spec fn corner_x(b: Aabb, i: int) -> int {
    if i % 2 == 1 {
        b.max.x as int
    } else {
        b.min.x as int
    }
}

pub open spec fn corner_y(b: Aabb, i: int) -> int {
    if (i / 2) % 2 == 1 {
        b.max.y as int
    } else {
        b.min.y as int
    }
}

pub open spec fn corner_z(b: Aabb, i: int) -> int {
    if (i / 4) % 2 == 1 {
        b.max.z as int
    } else {
        b.min.z as int
    }
}

/// A corner's world x after rotation about the y axis, clamped into the
/// working range.
pub open spec fn rot_new_x(c: int, sn: int, x: int, z: int) -> int {
    crate::fixed::clamp_s((c * x + sn * z) / 65536, -0x40_0000_0000, 0x40_0000_0000)
}

/// And its world z.
pub open spec fn rot_new_z(c: int, sn: int, x: int, z: int) -> int {
    crate::fixed::clamp_s((c * z - sn * x) / 65536, -0x40_0000_0000, 0x40_0000_0000)
}

/// The least world coordinate over the first `i` rotated corners (the three
/// max folds and the y folds are analogous).
pub open spec fn fold_min_x(b: Aabb, c: int, sn: int, i: int) -> int
    decreases i,
{
    if i <= 0 {
        0x40_0000_0000
    } else {
        crate::fixed::min_s(
            fold_min_x(b, c, sn, i - 1),
            rot_new_x(c, sn, corner_x(b, i - 1), corner_z(b, i - 1)),
        )
    }
}

pub open spec fn fold_max_x(b: Aabb, c: int, sn: int, i: int) -> int
    decreases i,
{
    if i <= 0 {
        -0x40_0000_0000
    } else {
        crate::fixed::max_s(
            fold_max_x(b, c, sn, i - 1),
            rot_new_x(c, sn, corner_x(b, i - 1), corner_z(b, i - 1)),
        )
    }
}

pub open spec fn fold_min_y(b: Aabb, i: int) -> int
    decreases i,
{
    if i <= 0 {
        0x40_0000_0000
    } else {
        crate::fixed::min_s(fold_min_y(b, i - 1), corner_y(b, i - 1))
    }
}

pub open spec fn fold_max_y(b: Aabb, i: int) -> int
    decreases i,
{
    if i <= 0 {
        -0x40_0000_0000
    } else {
        crate::fixed::max_s(fold_max_y(b, i - 1), corner_y(b, i - 1))
    }
}

pub open spec fn fold_min_z(b: Aabb, c: int, sn: int, i: int) -> int
    decreases i,
{
    if i <= 0 {
        0x40_0000_0000
    } else {
        crate::fixed::min_s(
            fold_min_z(b, c, sn, i - 1),
            rot_new_z(c, sn, corner_x(b, i - 1), corner_z(b, i - 1)),
        )
    }
}

pub open spec fn fold_max_z(b: Aabb, c: int, sn: int, i: int) -> int
    decreases i,
{
    if i <= 0 {
        -0x40_0000_0000
    } else {
        crate::fixed::max_s(
            fold_max_z(b, c, sn, i - 1),
            rot_new_z(c, sn, corner_x(b, i - 1), corner_z(b, i - 1)),
        )
    }
}

/// The extent of a box's eight corners rotated about the y axis by the
/// stored sine and cosine.
pub open spec fn rotated_corners_bbox(b: Aabb, c: int, sn: int) -> Aabb {
    Aabb {
        min: Vec3 {
            x: fold_min_x(b, c, sn, 8) as i64,
            y: fold_min_y(b, 8) as i64,
            z: fold_min_z(b, c, sn, 8) as i64,
        },
        max: Vec3 {
            x: fold_max_x(b, c, sn, 8) as i64,
            y: fold_max_y(b, 8) as i64,
            z: fold_max_z(b, c, sn, 8) as i64,
        },
    }
}

impl RotateY {
    /// Wraps a shape rotated about the y axis by `angle` degrees: the sine
    /// and cosine are fixed at construction, and the world-space box is the
    /// extent of the child's eight rotated corners.  The box is consulted by
    /// the hit query as a filter, so it is part of the shape's meaning: a
    /// smaller box means a smaller shape.
    #[verifier::rlimit(100)]
    pub fn creat(p: Hittable, angle: i64) -> (ret: RotateY)
        requires
            wf(p),
            -0x1_0000_0000_0000 <= angle <= 0x1_0000_0000_0000,
        ensures
            wf(Hittable::RotateY(ret)),
            *ret.ptr == p,
            ret.sin_theta == crate::trig::sin_spec(angle as int * 205887 / ((180 as int) * 65536)),
            ret.cos_theta == crate::trig::cos_spec(angle as int * 205887 / ((180 as int) * 65536)),
            -65536 <= ret.sin_theta <= 65536,
            -65536 <= ret.cos_theta <= 65536,
            ret.hasbox,
            ret.bbox == rotated_corners_bbox(
                spec_bbox(p),
                ret.cos_theta as int,
                ret.sin_theta as int,
            ),
    {
        let radians = crate::fixed::degrees_to_radians(angle);
        proof {
            assert(-57952038530026831872 <= (angle as int) * 205887 <= 57952038530026831872)
                by (nonlinear_arith)
                requires
                    -0x1_0000_0000_0000 <= angle as int <= 0x1_0000_0000_0000,
            ;
            vstd::arithmetic::div_mod::lemma_div_is_ordered(
                (angle as int) * 205887,
                57952038530026831872,
                11796480,
            );
            vstd::arithmetic::div_mod::lemma_div_is_ordered(
                -57952038530026831872,
                (angle as int) * 205887,
                11796480,
            );
        }
        let sin_theta_ = crate::trig::fx_sin(radians);
        let cos_theta_ = crate::trig::fx_cos(radians);
        let mut bbox0: Aabb = Default::default();
        let hasbox_ = p.bounding_box(0, 65536, &mut bbox0);
        proof {
            crate::bvh::lemma_box_ok_of_wf(p);
        }
        let mut mnx: i64 = 0x40_0000_0000;
        let mut mny: i64 = 0x40_0000_0000;
        let mut mnz: i64 = 0x40_0000_0000;
        let mut mxx: i64 = -0x40_0000_0000;
        let mut mxy: i64 = -0x40_0000_0000;
        let mut mxz: i64 = -0x40_0000_0000;
        let mut i: usize = 0;
        while i < 8
            invariant
                i <= 8,
                mnx == fold_min_x(bbox0, cos_theta_ as int, sin_theta_ as int, i as int),
                mxx == fold_max_x(bbox0, cos_theta_ as int, sin_theta_ as int, i as int),
                mny == fold_min_y(bbox0, i as int),
                mxy == fold_max_y(bbox0, i as int),
                mnz == fold_min_z(bbox0, cos_theta_ as int, sin_theta_ as int, i as int),
                mxz == fold_max_z(bbox0, cos_theta_ as int, sin_theta_ as int, i as int),
                -0x40_0000_0000 <= mnx <= 0x40_0000_0000,
                -0x40_0000_0000 <= mny <= 0x40_0000_0000,
                -0x40_0000_0000 <= mnz <= 0x40_0000_0000,
                -0x40_0000_0000 <= mxx <= 0x40_0000_0000,
                -0x40_0000_0000 <= mxy <= 0x40_0000_0000,
                -0x40_0000_0000 <= mxz <= 0x40_0000_0000,
                -65536 <= sin_theta_ <= 65536,
                -65536 <= cos_theta_ <= 65536,
                box_ok(bbox0),
            decreases 8 - i,
        {
            let x = if i % 2 == 1 {
                bbox0.max.x
            } else {
                bbox0.min.x
            };
            let y = if (i / 2) % 2 == 1 {
                bbox0.max.y
            } else {
                bbox0.min.y
            };
            let z = if (i / 4) % 2 == 1 {
                bbox0.max.z
            } else {
                bbox0.min.z
            };
            let newx = clamp(
                rot_comp(cos_theta_, -sin_theta_, x, z) as i64,
                -0x40_0000_0000,
                0x40_0000_0000,
            );
            let newz = clamp(
                rot_comp(cos_theta_, sin_theta_, z, x) as i64,
                -0x40_0000_0000,
                0x40_0000_0000,
            );
            proof {
                assert(x as int == corner_x(bbox0, i as int));
                assert(y as int == corner_y(bbox0, i as int));
                assert(z as int == corner_z(bbox0, i as int));
                assert(cos_theta_ as int * x as int - (-sin_theta_ as int) * z as int
                    == cos_theta_ as int * x as int + sin_theta_ as int * z as int)
                    by (nonlinear_arith);
                assert(newx as int == rot_new_x(
                    cos_theta_ as int,
                    sin_theta_ as int,
                    x as int,
                    z as int,
                ));
                assert(newz as int == rot_new_z(
                    cos_theta_ as int,
                    sin_theta_ as int,
                    x as int,
                    z as int,
                ));
            }
            mnx = crate::fixed::fmin(mnx, newx);
            mny = crate::fixed::fmin(mny, y);
            mnz = crate::fixed::fmin(mnz, newz);
            mxx = crate::fixed::fmax(mxx, newx);
            mxy = crate::fixed::fmax(mxy, y);
            mxz = crate::fixed::fmax(mxz, newz);
            i = i + 1;
        }
        let ret = RotateY {
            ptr: Box::new(p),
            sin_theta: sin_theta_,
            cos_theta: cos_theta_,
            hasbox: hasbox_,
            bbox: Aabb {
                min: Vec3 { x: mnx, y: mny, z: mnz },
                max: Vec3 { x: mxx, y: mxy, z: mxz },
            },
        };
        proof {
            let m = rotated_corners_bbox(bbox0, cos_theta_ as int, sin_theta_ as int);
            assert(ret.bbox.min == m.min && ret.bbox.max == m.max);
            assert(ret.bbox == m);
        }
        ret
    }
}

impl ConstantMedium {
    /// A homogeneous medium of the given density bounded by a shape, with
    /// an arbitrary texture for its phase function.
    pub fn creat(b: Hittable, d: i64, a: crate::texture::Texture) -> (ret: ConstantMedium)
        requires
            wf(b),
            1 <= d <= 0x4000_0000,
            crate::texture::tex_ok(a),
        ensures
            wf(Hittable::ConstantMedium(ret)),
            *ret.boundary == b,
            ret.phase_function == Material::Isotropic(crate::material::Isotropic { albedo: a }),
            ret.neg_inv_density == -(((65536 as int) * 65536) / (d as int)),
    {
        proof {
            crate::bvh::lemma_box_ok_of_wf(b);
        }
        let nid = neg_inv(d);
        ConstantMedium {
            boundary: Box::new(b),
            phase_function: Material::Isotropic(crate::material::Isotropic { albedo: a }),
            neg_inv_density: nid,
        }
    }

    /// The same, with a solid color.
    pub fn creat2(b: Hittable, d: i64, c: crate::vec3::Color) -> (ret: ConstantMedium)
        requires
            wf(b),
            1 <= d <= 0x4000_0000,
            crate::texture::color_ok(c),
        ensures
            wf(Hittable::ConstantMedium(ret)),
            *ret.boundary == b,
            ret.phase_function == Material::Isotropic(
                crate::material::Isotropic {
                    albedo: crate::texture::Texture::Solid(
                        crate::texture::SolidColor { color_value: c },
                    ),
                },
            ),
            ret.neg_inv_density == -(((65536 as int) * 65536) / (d as int)),
    {
        proof {
            crate::bvh::lemma_box_ok_of_wf(b);
        }
        let nid = neg_inv(d);
        ConstantMedium {
            boundary: Box::new(b),
            phase_function: Material::Isotropic(crate::material::Isotropic::creat(c)),
            neg_inv_density: nid,
        }
    }
}

/// `-1/d` as a fixed-point scalar, within the medium's working range.
fn neg_inv(d: i64) -> (r: i64)
    requires
        1 <= d <= 0x4000_0000,
    ensures
        r == -(((65536 as int) * 65536) / (d as int)),
        -0x1_0000_0000 <= r <= -1,
{
    proof {
        crate::fixed::lemma_div_bounded((65536 as int) * 65536, d as int, 0x1_0000_0000);
        vstd::arithmetic::div_mod::lemma_div_is_ordered_by_denominator(
            (65536 as int) * 65536,
            1,
            d as int,
        );
        assert((65536 as int) * 65536 / 1 == 0x1_0000_0000);
        assert((65536 as int) * 65536 / (d as int) >= 1) by {
            vstd::arithmetic::div_mod::lemma_div_is_ordered_by_denominator(
                (65536 as int) * 65536,
                d as int,
                0x1_0000_0000,
            );
            assert((65536 as int) * 65536 / 0x1_0000_0000 == 1);
        }
    }
    let q = div_floor(65536 * 65536, d as i128) as i64;
    -q
}

/// The free-flight outcome as a mathematical function: the scattering
/// distance `-1/density * ln(draw)` compared against the distance the ray
/// spends inside the boundary, and the resulting parameter.
pub open spec fn free_flight_spec(t1: int, t2: int, len: int, nid: int, nl: int) -> Option<int> {
    let hd = (-nid) * nl / 65536;
    let dib = (t2 - t1) * len / 65536;
    if hd > dib {
        None
    } else {
        Some(t1 + hd * 65536 / len)
    }
}

/// The free-flight step of a participating medium, taking the (already
/// log-transformed) draw as an argument: exactly `free_flight_spec`.
pub fn medium_scatter_t(t1: i64, t2: i64, len: i64, nid: i64, nl: i64) -> (res: Option<i64>)
    requires
        -0x100_0000_0000 <= t1 <= 0x100_0000_0000,
        -0x100_0000_0000 <= t2 <= 0x100_0000_0000,
        1 <= len < 0x100_0000_0000,
        -0x1_0000_0000 <= nid <= -1,
        0 <= nl <= 2000000,
    ensures
        (match res {
            Some(t) => Some(t as int),
            None => None,
        }) == free_flight_spec(t1 as int, t2 as int, len as int, nid as int, nl as int),
        res matches Some(t) ==> t1 <= t,
{
    proof {
        assert(-0x2_0000_0000_0000_0000_0000 <= (t2 - t1) as int * len as int
            <= 0x2_0000_0000_0000_0000_0000) by (nonlinear_arith)
            requires
                -0x200_0000_0000 <= (t2 - t1) as int <= 0x200_0000_0000,
                0 <= (len as int) < 0x100_0000_0000;
    }
    let dib = div_floor(((t2 as i128) - (t1 as i128)) * (len as i128), 65536);
    proof {
        assert(0 <= (-(nid as int)) * nl as int <= 0x20_0000_0000_0000) by (nonlinear_arith)
            requires
                1 <= -(nid as int) <= 0x1_0000_0000,
                0 <= nl as int <= 2000000;
        lemma_div_bounded((-(nid as int)) * nl as int, 65536, 0x20_0000_0000_0000);
        vstd::arithmetic::div_mod::lemma_div_pos_is_pos((-(nid as int)) * nl as int, 65536);
    }
    let hd = div_floor((-(nid as i128)) * (nl as i128), 65536);
    if hd > dib {
        return None;
    }
    proof {
        assert(0 <= hd * 65536 <= 0x200_0000_0000_0000_0000) by (nonlinear_arith)
            requires
                0 <= hd <= 0x20_0000_0000_0000;
        lemma_div_bounded(hd as int * 65536, len as int, 0x200_0000_0000_0000_0000);
        vstd::arithmetic::div_mod::lemma_div_pos_is_pos(hd as int * 65536, len as int);
    }
    let dt = div_floor((hd as i128) * 65536, len as i128);
    Some(((t1 as i128) + dt) as i64)
}

/// An empty candidate set answers every query with nothing.
pub proof fn lemma_none_for_empty(ts: Set<int>, tmin: int, tmax: int)
    requires
        ts =~= Set::<int>::empty(),
    ensures
        answers(ts, tmin, tmax, None::<int>),
{
    if has_hit(ts, tmin, tmax) {
        let t = choose|t: int| #[trigger] qualifies(ts, tmin, tmax, t);
        assert(ts.contains(t));
    }
}

/// The z-form of the object-space rotation is the x-form with swapped
/// arguments and a negated sine.
proof fn lemma_rot_z_form(c: int, s: int, x: int, z: int)
    ensures
        rot_obj_x(c, -s, z, x) == rot_obj_z(c, s, x, z),
{
    assert(c * z - (-s) * x == s * x + c * z) by (nonlinear_arith);
}

} // verus!

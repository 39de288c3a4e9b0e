//! The sphere primitive: analytic quadratic intersection.

use crate::aabb::{box_ok, pt_in_box, pt_in_box_check, Aabb};
use crate::fixed::{clamp, div_floor, fx_div, isqrt_spec, sqrt_u128};
use crate::hittable::HitRecord;
use crate::material::{mat_ok, Material};
use crate::nearest::{answers, has_hit, qualifies};
use crate::ray::{at_comp, ray_ok, Ray};
use crate::trig::{acos_spec, atan2_spec, fx_acos, fx_atan2};
use crate::vec3::{dot_spec, Point3, Vec3};
use vstd::arithmetic::div_mod::lemma_div_is_ordered;
use vstd::prelude::*;

verus! {

pub struct Sphere {
    pub center: Point3,
    pub radius: i64,
    pub mat_ptr: Material,
}

/// A usable sphere: a positive, bounded radius around a working center.
pub open spec fn sphere_ok(s: Sphere) -> bool {
    &&& -0x30_0000_0000 <= s.center.x <= 0x30_0000_0000
    &&& -0x30_0000_0000 <= s.center.y <= 0x30_0000_0000
    &&& -0x30_0000_0000 <= s.center.z <= 0x30_0000_0000
    &&& 1 <= s.radius <= 0xF_0000_0000
    &&& mat_ok(s.mat_ptr)
}

/// The box around the sphere: center +- (radius + 256/65536).  The pad of
/// 256 raw units per side goes beyond the ideal center +- radius so that
/// hit points rounded onto the fixed-point grid still test inside.
pub open spec fn ball_bbox(cen: Vec3, rad: i64) -> Aabb {
    Aabb {
        min: Vec3 {
            x: (cen.x - rad - 256) as i64,
            y: (cen.y - rad - 256) as i64,
            z: (cen.z - rad - 256) as i64,
        },
        max: Vec3 {
            x: (cen.x + rad + 256) as i64,
            y: (cen.y + rad + 256) as i64,
            z: (cen.z + rad + 256) as i64,
        },
    }
}

pub open spec fn sphere_bbox(s: Sphere) -> Aabb {
    ball_bbox(s.center, s.radius)
}

/// The quadratic coefficient `a = dir . dir`.
pub open spec fn sph_a(r: Ray) -> int {
    (r.dir.x * r.dir.x + r.dir.y * r.dir.y + r.dir.z * r.dir.z) / 65536
}

/// The half-coefficient `b/2 = oc . dir`.
pub open spec fn sph_hb(cen: Vec3, r: Ray) -> int {
    ((r.st.x - cen.x) * r.dir.x + (r.st.y - cen.y) * r.dir.y + (r.st.z - cen.z) * r.dir.z) / 65536
}

/// The constant coefficient `c = oc . oc - radius^2`.
pub open spec fn sph_c(cen: Vec3, rad: i64, r: Ray) -> int {
    ((r.st.x - cen.x) * (r.st.x - cen.x) + (r.st.y - cen.y) * (r.st.y - cen.y) + (r.st.z - cen.z)
        * (r.st.z - cen.z)) / 65536 - rad * rad / 65536
}

/// The discriminant of the half-form quadratic.
pub open spec fn sph_disc(cen: Vec3, rad: i64, r: Ray) -> int {
    sph_hb(cen, r) * sph_hb(cen, r) / 65536 - sph_a(r) * sph_c(cen, rad, r) / 65536
}

/// Its square root as a fixed-point scalar.
pub open spec fn sph_sq(cen: Vec3, rad: i64, r: Ray) -> int {
    isqrt_spec((sph_disc(cen, rad, r) * 65536) as nat) as int
}

/// The two candidate parameters, nearest first.
pub open spec fn sph_root1(cen: Vec3, rad: i64, r: Ray) -> int {
    (-sph_hb(cen, r) - sph_sq(cen, rad, r)) * 65536 / sph_a(r)
}

pub open spec fn sph_root2(cen: Vec3, rad: i64, r: Ray) -> int {
    (-sph_hb(cen, r) + sph_sq(cen, rad, r)) * 65536 / sph_a(r)
}

/// The coefficients are small enough for exact evaluation (true of every
/// realistic scene; checked by the intersector).
pub open spec fn sph_sane(cen: Vec3, rad: i64, r: Ray) -> bool {
    &&& 0 < sph_a(r) <= 0x4_0000_0000_0000
    &&& -0x4_0000_0000_0000 <= sph_hb(cen, r) <= 0x4_0000_0000_0000
    &&& -0x4_0000_0000_0000 <= sph_c(cen, rad, r) <= 0x4_0000_0000_0000
}

/// The candidate parameters the sphere offers a ray: the real quadratic
/// roots that land inside the sphere's padded box.
pub open spec fn ball_ts(cen: Vec3, rad: i64, r: Ray) -> Set<int> {
    Set::new(
        |t: int|
            sph_sane(cen, rad, r) && sph_disc(cen, rad, r) >= 0 && (t == sph_root1(cen, rad, r)
                || t == sph_root2(cen, rad, r)) && pt_in_box(ball_bbox(cen, rad), r, t),
    )
}

pub open spec fn sphere_ts(s: Sphere, r: Ray) -> Set<int> {
    ball_ts(s.center, s.radius, r)
}

/// The clamped outward normal the intersector stores: the hit point's
/// offset from the center, divided by the radius.
pub open spec fn ball_outward(cen: Vec3, rad: i64, r: Ray, t: int) -> Vec3 {
    Vec3 {
        x: out_comp(at_comp(r.st.x as int, r.dir.x as int, t) - cen.x, rad as int) as i64,
        y: out_comp(at_comp(r.st.y as int, r.dir.y as int, t) - cen.y, rad as int) as i64,
        z: out_comp(at_comp(r.st.z as int, r.dir.z as int, t) - cen.z, rad as int) as i64,
    }
}

/// One component of the outward normal.
pub open spec fn out_comp(d: int, rad: int) -> int {
    let q = d * 65536 / rad;
    if q < -0x2_0000 {
        -0x2_0000
    } else if q > 0x2_0000 {
        0x2_0000
    } else {
        q
    }
}

/// The outward normal really points outward: its inner product with the
/// offset from the center is never negative.
pub proof fn lemma_ball_outward_points_out(cen: Vec3, rad: i64, r: Ray, t: int)
    requires
        1 <= rad,
    ensures
        ({
            let n = ball_outward(cen, rad, r, t);
            let dx = at_comp(r.st.x as int, r.dir.x as int, t) - cen.x;
            let dy = at_comp(r.st.y as int, r.dir.y as int, t) - cen.y;
            let dz = at_comp(r.st.z as int, r.dir.z as int, t) - cen.z;
            n.x * dx + n.y * dy + n.z * dz >= 0
        }),
{
    let dx = at_comp(r.st.x as int, r.dir.x as int, t) - cen.x;
    let dy = at_comp(r.st.y as int, r.dir.y as int, t) - cen.y;
    let dz = at_comp(r.st.z as int, r.dir.z as int, t) - cen.z;
    lemma_out_comp_sign(dx, rad as int);
    lemma_out_comp_sign(dy, rad as int);
    lemma_out_comp_sign(dz, rad as int);
    let n = ball_outward(cen, rad, r, t);
    assert(n.x == out_comp(dx, rad as int) && n.y == out_comp(dy, rad as int) && n.z == out_comp(
        dz,
        rad as int,
    ));
    assert(n.x * dx >= 0 && n.y * dy >= 0 && n.z * dz >= 0) by (nonlinear_arith)
        requires
            n.x == out_comp(dx, rad as int),
            n.y == out_comp(dy, rad as int),
            n.z == out_comp(dz, rad as int),
            dx >= 0 ==> out_comp(dx, rad as int) >= 0,
            dx < 0 ==> out_comp(dx, rad as int) <= 0,
            dy >= 0 ==> out_comp(dy, rad as int) >= 0,
            dy < 0 ==> out_comp(dy, rad as int) <= 0,
            dz >= 0 ==> out_comp(dz, rad as int) >= 0,
            dz < 0 ==> out_comp(dz, rad as int) <= 0;
}

/// The quotient keeps the sign of its numerator.
proof fn lemma_out_comp_sign(d: int, rad: int)
    requires
        1 <= rad,
    ensures
        d >= 0 ==> out_comp(d, rad) >= 0,
        d < 0 ==> out_comp(d, rad) <= 0,
{
    if d >= 0 {
        vstd::arithmetic::div_mod::lemma_div_pos_is_pos(d * 65536, rad);
        assert(d * 65536 >= 0) by (nonlinear_arith)
            requires
                d >= 0;
    } else {
        assert(d * 65536 <= -1) by (nonlinear_arith)
            requires
                d < 0;
        vstd::arithmetic::div_mod::lemma_div_is_ordered(d * 65536, -1, rad);
        lemma_neg_one_div(rad);
    }
}

/// The quotient of minus one by a positive divisor is at most zero.
proof fn lemma_neg_one_div(rad: int)
    requires
        1 <= rad,
    ensures
        -1 / rad <= 0,
{
    vstd::arithmetic::div_mod::lemma_div_is_ordered(-1, 0, rad);
    vstd::arithmetic::div_mod::lemma_div_of0(rad);
}

/// The azimuthal surface coordinate of a point on the unit sphere.
pub open spec fn sphere_u_spec(p: Point3) -> int {
    (atan2_spec(-(p.z as int), p.x as int) + 205887) * 65536 / 411774
}

/// The polar surface coordinate of a point on the unit sphere.
pub open spec fn sphere_v_spec(p: Point3) -> int {
    acos_spec(crate::fixed::clamp_s(-(p.y as int), -65536, 65536)) * 65536 / 205887
}

/// Surface coordinates from a point on the unit sphere: the azimuth over
/// two pi and the polar angle over pi, both in `[0, 1]`.
pub fn get_sphere_uv(p: Point3, u: &mut i64, v: &mut i64)
    requires
        -0x2_0000 <= p.x <= 0x2_0000,
        -0x2_0000 <= p.y <= 0x2_0000,
        -0x2_0000 <= p.z <= 0x2_0000,
    ensures
        *final(u) == sphere_u_spec(p),
        *final(v) == sphere_v_spec(p),
        0 <= *final(u) <= 65536,
        0 <= *final(v) <= 65536,
{
    let phi = fx_atan2(-p.z, p.x) + 205887;
    let theta = fx_acos(clamp(-p.y, -65536, 65536));
    proof {
        assert(0 <= phi as int * 65536 <= 0x1_0000_0000_0000) by (nonlinear_arith)
            requires
                0 <= phi as int <= 411774;
        crate::fixed::lemma_div_bounded(phi as int * 65536, 411774, 0x1_0000_0000_0000);
        lemma_div_is_ordered(phi as int * 65536, (411774 as int) * 65536, 411774);
        vstd::arithmetic::div_mod::lemma_div_multiples_vanish(65536, 411774);
        assert((411774 as int) * 65536 == 411774 * (65536 as int)) by (nonlinear_arith);
        vstd::arithmetic::div_mod::lemma_div_pos_is_pos(phi as int * 65536, 411774);
        assert(0 <= theta as int * 65536 <= 0x1_0000_0000_0000) by (nonlinear_arith)
            requires
                0 <= theta as int <= 205887;
        crate::fixed::lemma_div_bounded(theta as int * 65536, 205887, 0x1_0000_0000_0000);
        lemma_div_is_ordered(theta as int * 65536, (205887 as int) * 65536, 205887);
        vstd::arithmetic::div_mod::lemma_div_multiples_vanish(65536, 205887);
        assert((205887 as int) * 65536 == 205887 * (65536 as int)) by (nonlinear_arith);
        vstd::arithmetic::div_mod::lemma_div_pos_is_pos(theta as int * 65536, 205887);
    }
    *u = div_floor((phi as i128) * 65536, 411774) as i64;
    *v = div_floor((theta as i128) * 65536, 205887) as i64;
}

/// A working center and radius.
pub open spec fn ball_ok(cen: Vec3, rad: i64) -> bool {
    &&& -0x30_0000_0000 <= cen.x <= 0x30_0000_0000
    &&& -0x30_0000_0000 <= cen.y <= 0x30_0000_0000
    &&& -0x30_0000_0000 <= cen.z <= 0x30_0000_0000
    &&& 1 <= rad <= 0xF_0000_0000
}

/// The nearest quadratic root of a sphere of the given center and radius
/// that lies in the window and inside the padded box.
pub fn ball_hit(cen: Vec3, rad: i64, r: Ray, t_min: i64, t_max: i64) -> (res: Option<HitRecord>)
    requires
        ball_ok(cen, rad),
        ray_ok(r),
        -0x100_0000_0000 <= t_min <= 0x100_0000_0000,
        -0x100_0000_0000 <= t_max <= 0x100_0000_0000,
    ensures
        answers(ball_ts(cen, rad, r), t_min as int, t_max as int, match res {
            Some(rec) => Some(rec.t as int),
            None => None,
        }),
        res matches Some(rec) ==> t_min < rec.t <= t_max && pt_in_box(
            ball_bbox(cen, rad),
            r,
            rec.t as int,
        ) && crate::hittable::rec_ok(rec) && rec.p.x == at_comp(
            r.st.x as int,
            r.dir.x as int,
            rec.t as int,
        ) && rec.p.y == at_comp(r.st.y as int, r.dir.y as int, rec.t as int) && rec.p.z == at_comp(
            r.st.z as int,
            r.dir.z as int,
            rec.t as int,
        ) && rec.normal == crate::hittable::oriented_normal(
            r,
            ball_outward(cen, rad, r, rec.t as int),
        ) && rec.front_face == (dot_spec(r.dir, ball_outward(cen, rad, r, rec.t as int)) < 0)
            && rec.u == sphere_u_spec(ball_outward(cen, rad, r, rec.t as int)) && rec.v
            == sphere_v_spec(ball_outward(cen, rad, r, rec.t as int)),
{
    let ghost ts = ball_ts(cen, rad, r);
    proof {
        lemma_sph_prods(cen, rad, r);
    }
    let dx = r.dir.x as i128;
    let dy = r.dir.y as i128;
    let dz = r.dir.z as i128;
    let ocx = (r.st.x as i128) - (cen.x as i128);
    let ocy = (r.st.y as i128) - (cen.y as i128);
    let ocz = (r.st.z as i128) - (cen.z as i128);
    let a = div_floor(dx * dx + dy * dy + dz * dz, 65536);
    let hb = div_floor(ocx * dx + ocy * dy + ocz * dz, 65536);
    let c = div_floor(ocx * ocx + ocy * ocy + ocz * ocz, 65536) - div_floor(
        (rad as i128) * (rad as i128),
        65536,
    );
    proof {
        assert(a == sph_a(r));
        assert(hb == sph_hb(cen, r));
        assert(c == sph_c(cen, rad, r));
    }
    if !(0 < a && a <= 0x4_0000_0000_0000 && -0x4_0000_0000_0000 <= hb && hb <= 0x4_0000_0000_0000
        && -0x4_0000_0000_0000 <= c && c <= 0x4_0000_0000_0000) {
        proof {
            lemma_empty_when_insane(cen, rad, r, t_min as int, t_max as int);
        }
        return None;
    }
    proof {
        assert(-0x1000_0000_0000_0000_0000_0000_0000 <= hb as int * hb as int
            <= 0x1000_0000_0000_0000_0000_0000_0000 && -0x1000_0000_0000_0000_0000_0000_0000
            <= a as int * c as int <= 0x1000_0000_0000_0000_0000_0000_0000) by (nonlinear_arith)
            requires
                -0x4_0000_0000_0000 <= hb as int <= 0x4_0000_0000_0000,
                -0x4_0000_0000_0000 <= a as int <= 0x4_0000_0000_0000,
                -0x4_0000_0000_0000 <= c as int <= 0x4_0000_0000_0000;
        crate::fixed::lemma_div_bounded(
            hb as int * hb as int,
            65536,
            0x1000_0000_0000_0000_0000_0000_0000,
        );
        crate::fixed::lemma_div_bounded(
            a as int * c as int,
            65536,
            0x1000_0000_0000_0000_0000_0000_0000,
        );
    }
    let disc = div_floor(hb * hb, 65536) - div_floor(a * c, 65536);
    proof {
        assert(disc == sph_disc(cen, rad, r));
    }
    if disc < 0 {
        proof {
            lemma_empty_when_no_disc(cen, rad, r, t_min as int, t_max as int);
        }
        return None;
    }
    let sq = sqrt_u128((disc as u128) * 65536) as i128;
    proof {
        assert((disc as u128) * 65536 == (disc * 65536) as u128);
        assert(sq == sph_sq(cen, rad, r));
        assert(0 <= sq < 0x8000_0000_0000_0000);
    }
    let root1 = div_floor((-hb - sq) * 65536, a);
    let root2 = div_floor((-hb + sq) * 65536, a);
    proof {
        assert(root1 == sph_root1(cen, rad, r));
        assert(root2 == sph_root2(cen, rad, r));
        lemma_div_is_ordered((-hb - sq) * 65536, (-hb + sq) * 65536, a as int);
        assert(root1 <= root2);
    }
    let bbox = ball_bbox_exec(cen, rad);
    if (t_min as i128) < root1 && root1 <= (t_max as i128) && pt_in_box_check(
        &bbox,
        r,
        root1 as i64,
    ) {
        proof {
            assert(qualifies(ts, t_min as int, t_max as int, root1 as int));
            assert forall|t2: int|
                #[trigger] qualifies(ts, t_min as int, t_max as int, t2) implies root1 as int
                <= t2 by {
                assert(ts.contains(t2));
            }
        }
        Some(ball_record(cen, rad, r, root1 as i64))
    } else if (t_min as i128) < root2 && root2 <= (t_max as i128) && pt_in_box_check(
        &bbox,
        r,
        root2 as i64,
    ) {
        proof {
            assert(qualifies(ts, t_min as int, t_max as int, root2 as int));
            assert forall|t2: int|
                #[trigger] qualifies(ts, t_min as int, t_max as int, t2) implies root2 as int
                <= t2 by {
                assert(ts.contains(t2));
                assert(t2 == root1 as int || t2 == root2 as int);
                if t2 == root1 as int {
                    assert(t_min < root1 <= t_max);
                    assert(pt_in_box(ball_bbox(cen, rad), r, root1 as int));
                    assert(false);
                }
            }
        }
        Some(ball_record(cen, rad, r, root2 as i64))
    } else {
        proof {
            if has_hit(ts, t_min as int, t_max as int) {
                let t = choose|t: int| #[trigger] qualifies(ts, t_min as int, t_max as int, t);
                assert(ts.contains(t));
                assert(t == root1 as int || t == root2 as int);
            }
        }
        None
    }
}

/// The padded bounding box as a value.
pub fn ball_bbox_exec(cen: Vec3, rad: i64) -> (b: Aabb)
    requires
        ball_ok(cen, rad),
    ensures
        b == ball_bbox(cen, rad),
        box_ok(b),
{
    Aabb {
        min: Vec3 { x: cen.x - rad - 256, y: cen.y - rad - 256, z: cen.z - rad - 256 },
        max: Vec3 { x: cen.x + rad + 256, y: cen.y + rad + 256, z: cen.z + rad + 256 },
    }
}

/// The record for a confirmed parameter.
fn ball_record(cen: Vec3, rad: i64, r: Ray, t: i64) -> (rec: HitRecord)
    requires
        ball_ok(cen, rad),
        ray_ok(r),
        -0x100_0000_0000 <= t <= 0x100_0000_0000,
        pt_in_box(ball_bbox(cen, rad), r, t as int),
    ensures
        rec.t == t,
        crate::hittable::rec_ok(rec),
        rec.p.x == at_comp(r.st.x as int, r.dir.x as int, t as int),
        rec.p.y == at_comp(r.st.y as int, r.dir.y as int, t as int),
        rec.p.z == at_comp(r.st.z as int, r.dir.z as int, t as int),
        rec.normal == crate::hittable::oriented_normal(r, ball_outward(cen, rad, r, t as int)),
        rec.front_face == (dot_spec(r.dir, ball_outward(cen, rad, r, t as int)) < 0),
        rec.u == sphere_u_spec(ball_outward(cen, rad, r, t as int)),
        rec.v == sphere_v_spec(ball_outward(cen, rad, r, t as int)),
{
    proof {
        let b = ball_bbox(cen, rad);
        crate::aabb::lemma_at_comp_in_box(
            b.min.x as int,
            b.max.x as int,
            r.st.x as int,
            r.dir.x as int,
            t as int,
        );
        crate::aabb::lemma_at_comp_in_box(
            b.min.y as int,
            b.max.y as int,
            r.st.y as int,
            r.dir.y as int,
            t as int,
        );
        crate::aabb::lemma_at_comp_in_box(
            b.min.z as int,
            b.max.z as int,
            r.st.z as int,
            r.dir.z as int,
            t as int,
        );
    }
    let p = r.at(t);
    proof {
        assert(-0x7F_0000_0200 <= p.x - cen.x <= 0x7F_0000_0200);
        assert(-0x7F_0000_0200 <= p.y - cen.y <= 0x7F_0000_0200);
        assert(-0x7F_0000_0200 <= p.z - cen.z <= 0x7F_0000_0200);
        assert(-0x7F_0000_0200_0000 <= (p.x - cen.x) as int * 65536 <= 0x7F_0000_0200_0000)
            by (nonlinear_arith)
            requires
                -0x7F_0000_0200 <= p.x - cen.x <= 0x7F_0000_0200;
        assert(-0x7F_0000_0200_0000 <= (p.y - cen.y) as int * 65536 <= 0x7F_0000_0200_0000)
            by (nonlinear_arith)
            requires
                -0x7F_0000_0200 <= p.y - cen.y <= 0x7F_0000_0200;
        assert(-0x7F_0000_0200_0000 <= (p.z - cen.z) as int * 65536 <= 0x7F_0000_0200_0000)
            by (nonlinear_arith)
            requires
                -0x7F_0000_0200 <= p.z - cen.z <= 0x7F_0000_0200;
        crate::fixed::lemma_div_bounded((p.x - cen.x) as int * 65536, rad as int, 0x7F_0000_0200_0000);
        crate::fixed::lemma_div_bounded((p.y - cen.y) as int * 65536, rad as int, 0x7F_0000_0200_0000);
        crate::fixed::lemma_div_bounded((p.z - cen.z) as int * 65536, rad as int, 0x7F_0000_0200_0000);
    }
    let onx = clamp(fx_div(p.x - cen.x, rad), -0x2_0000, 0x2_0000);
    let ony = clamp(fx_div(p.y - cen.y, rad), -0x2_0000, 0x2_0000);
    let onz = clamp(fx_div(p.z - cen.z, rad), -0x2_0000, 0x2_0000);
    let outward = Vec3 { x: onx, y: ony, z: onz };
    proof {
        assert(outward.x == ball_outward(cen, rad, r, t as int).x && outward.y == ball_outward(
            cen,
            rad,
            r,
            t as int,
        ).y && outward.z == ball_outward(cen, rad, r, t as int).z);
        assert(outward == ball_outward(cen, rad, r, t as int));
    }
    let mut u: i64 = 0;
    let mut v: i64 = 0;
    get_sphere_uv(outward, &mut u, &mut v);
    HitRecord::creat(u, v, t, outward, r, p)
}

impl Sphere {
    /// The nearest quadratic root in the window, if any.
    pub fn hit(&self, r: Ray, t_min: i64, t_max: i64) -> (res: Option<HitRecord>)
        requires
            sphere_ok(*self),
            ray_ok(r),
            -0x100_0000_0000 <= t_min <= 0x100_0000_0000,
            -0x100_0000_0000 <= t_max <= 0x100_0000_0000,
        ensures
            answers(sphere_ts(*self, r), t_min as int, t_max as int, match res {
                Some(rec) => Some(rec.t as int),
                None => None,
            }),
            res matches Some(rec) ==> t_min < rec.t <= t_max && pt_in_box(
                sphere_bbox(*self),
                r,
                rec.t as int,
            ) && crate::hittable::rec_ok(rec) && rec.p.x == at_comp(
                r.st.x as int,
                r.dir.x as int,
                rec.t as int,
            ) && rec.p.y == at_comp(r.st.y as int, r.dir.y as int, rec.t as int) && rec.p.z
                == at_comp(r.st.z as int, r.dir.z as int, rec.t as int) && rec.normal
                == crate::hittable::oriented_normal(
                r,
                ball_outward(self.center, self.radius, r, rec.t as int),
            ) && rec.front_face == (dot_spec(
                r.dir,
                ball_outward(self.center, self.radius, r, rec.t as int),
            ) < 0) && rec.u == sphere_u_spec(
                ball_outward(self.center, self.radius, r, rec.t as int),
            ) && rec.v == sphere_v_spec(
                ball_outward(self.center, self.radius, r, rec.t as int),
            ),
    {
        ball_hit(self.center, self.radius, r, t_min, t_max)
    }
}

/// The products appearing in the quadratic stay within the range the exact
/// divisions accept.
proof fn lemma_sph_prods(cen: Vec3, rad: i64, r: Ray)
    requires
        ball_ok(cen, rad),
        ray_ok(r),
    ensures
        -0x100_0000_0000_0000_0000_0000 <= r.dir.x * r.dir.x <= 0x100_0000_0000_0000_0000_0000,
        -0x100_0000_0000_0000_0000_0000 <= r.dir.y * r.dir.y <= 0x100_0000_0000_0000_0000_0000,
        -0x100_0000_0000_0000_0000_0000 <= r.dir.z * r.dir.z <= 0x100_0000_0000_0000_0000_0000,
        -0x100_0000_0000_0000_0000_0000 <= (r.st.x - cen.x) * r.dir.x
            <= 0x100_0000_0000_0000_0000_0000,
        -0x100_0000_0000_0000_0000_0000 <= (r.st.y - cen.y) * r.dir.y
            <= 0x100_0000_0000_0000_0000_0000,
        -0x100_0000_0000_0000_0000_0000 <= (r.st.z - cen.z) * r.dir.z
            <= 0x100_0000_0000_0000_0000_0000,
        -0x100_0000_0000_0000_0000_0000 <= (r.st.x - cen.x) * (r.st.x - cen.x)
            <= 0x100_0000_0000_0000_0000_0000,
        -0x100_0000_0000_0000_0000_0000 <= (r.st.y - cen.y) * (r.st.y - cen.y)
            <= 0x100_0000_0000_0000_0000_0000,
        -0x100_0000_0000_0000_0000_0000 <= (r.st.z - cen.z) * (r.st.z - cen.z)
            <= 0x100_0000_0000_0000_0000_0000,
        -0x1000_0000_0000_0000_0000_0000 <= r.dir.x * r.dir.x + r.dir.y * r.dir.y + r.dir.z
            * r.dir.z <= 0x1000_0000_0000_0000_0000_0000,
        -0x1000_0000_0000_0000_0000_0000 <= (r.st.x - cen.x) * r.dir.x + (r.st.y - cen.y) * r.dir.y
            + (r.st.z - cen.z) * r.dir.z <= 0x1000_0000_0000_0000_0000_0000,
        -0x1000_0000_0000_0000_0000_0000 <= (r.st.x - cen.x) * (r.st.x - cen.x) + (r.st.y - cen.y)
            * (r.st.y - cen.y) + (r.st.z - cen.z) * (r.st.z - cen.z)
            <= 0x1000_0000_0000_0000_0000_0000,
        0 <= rad * rad <= 0x1000_0000_0000_0000_0000_0000,
{
    assert(-0x100_0000_0000_0000_0000_0000 <= r.dir.x * r.dir.x <= 0x100_0000_0000_0000_0000_0000
        && -0x100_0000_0000_0000_0000_0000 <= r.dir.y * r.dir.y
        <= 0x100_0000_0000_0000_0000_0000 && -0x100_0000_0000_0000_0000_0000 <= r.dir.z * r.dir.z
        <= 0x100_0000_0000_0000_0000_0000 && -0x1000_0000_0000_0000_0000_0000 <= r.dir.x * r.dir.x
        + r.dir.y * r.dir.y + r.dir.z * r.dir.z <= 0x1000_0000_0000_0000_0000_0000)
        by (nonlinear_arith)
        requires
            -0x40_0000_0000 <= r.dir.x <= 0x40_0000_0000,
            -0x40_0000_0000 <= r.dir.y <= 0x40_0000_0000,
            -0x40_0000_0000 <= r.dir.z <= 0x40_0000_0000;
    assert(-0x100_0000_0000_0000_0000_0000 <= (r.st.x - cen.x) * r.dir.x
        <= 0x100_0000_0000_0000_0000_0000 && -0x100_0000_0000_0000_0000_0000 <= (r.st.y - cen.y)
        * r.dir.y <= 0x100_0000_0000_0000_0000_0000 && -0x100_0000_0000_0000_0000_0000 <= (r.st.z
        - cen.z) * r.dir.z <= 0x100_0000_0000_0000_0000_0000 && -0x1000_0000_0000_0000_0000_0000
        <= (r.st.x - cen.x) * r.dir.x + (r.st.y - cen.y) * r.dir.y + (r.st.z - cen.z) * r.dir.z
        <= 0x1000_0000_0000_0000_0000_0000) by (nonlinear_arith)
        requires
            -0x80_0000_0000 <= r.st.x - cen.x <= 0x80_0000_0000,
            -0x80_0000_0000 <= r.st.y - cen.y <= 0x80_0000_0000,
            -0x80_0000_0000 <= r.st.z - cen.z <= 0x80_0000_0000,
            -0x40_0000_0000 <= r.dir.x <= 0x40_0000_0000,
            -0x40_0000_0000 <= r.dir.y <= 0x40_0000_0000,
            -0x40_0000_0000 <= r.dir.z <= 0x40_0000_0000;
    assert(-0x100_0000_0000_0000_0000_0000 <= (r.st.x - cen.x) * (r.st.x - cen.x)
        <= 0x100_0000_0000_0000_0000_0000 && -0x100_0000_0000_0000_0000_0000 <= (r.st.y - cen.y)
        * (r.st.y - cen.y) <= 0x100_0000_0000_0000_0000_0000 && -0x100_0000_0000_0000_0000_0000
        <= (r.st.z - cen.z) * (r.st.z - cen.z) <= 0x100_0000_0000_0000_0000_0000
        && -0x1000_0000_0000_0000_0000_0000 <= (r.st.x - cen.x) * (r.st.x - cen.x) + (r.st.y
        - cen.y) * (r.st.y - cen.y) + (r.st.z - cen.z) * (r.st.z - cen.z)
        <= 0x1000_0000_0000_0000_0000_0000) by (nonlinear_arith)
        requires
            -0x80_0000_0000 <= r.st.x - cen.x <= 0x80_0000_0000,
            -0x80_0000_0000 <= r.st.y - cen.y <= 0x80_0000_0000,
            -0x80_0000_0000 <= r.st.z - cen.z <= 0x80_0000_0000;
    assert(0 <= rad * rad <= 0x1000_0000_0000_0000_0000_0000) by (nonlinear_arith)
        requires
            1 <= rad <= 0xF_0000_0000;
}

/// Out-of-range coefficients make the candidate set empty.
proof fn lemma_empty_when_insane(cen: Vec3, rad: i64, r: Ray, tmin: int, tmax: int)
    requires
        !sph_sane(cen, rad, r),
    ensures
        answers(ball_ts(cen, rad, r), tmin, tmax, None::<int>),
{
    if has_hit(ball_ts(cen, rad, r), tmin, tmax) {
        let t = choose|t: int| #[trigger] qualifies(ball_ts(cen, rad, r), tmin, tmax, t);
        assert(ball_ts(cen, rad, r).contains(t));
    }
}

/// A negative discriminant makes the candidate set empty.
proof fn lemma_empty_when_no_disc(cen: Vec3, rad: i64, r: Ray, tmin: int, tmax: int)
    requires
        sph_disc(cen, rad, r) < 0,
    ensures
        answers(ball_ts(cen, rad, r), tmin, tmax, None::<int>),
{
    if has_hit(ball_ts(cen, rad, r), tmin, tmax) {
        let t = choose|t: int| #[trigger] qualifies(ball_ts(cen, rad, r), tmin, tmax, t);
        assert(ball_ts(cen, rad, r).contains(t));
    }
}

} // verus!

//! The thin-lens camera: a pure function from construction parameters to a
//! ray generator with depth of field and a shutter interval.

use crate::fixed::{clamp, clamp_s, degrees_to_radians, div_floor};
use crate::trig::{fx_tan, tan_spec};
use crate::ray::{at_comp, ray_ok, Ray};
use crate::rng::random_double_lr;
use crate::vec3::{
    cross, cross_comp, fxm, random_in_unit_disk, unit_spec, unit_vector, vec_ok, Point3, Vec3,
};
use vstd::prelude::*;

verus! {

#[derive(Copy, Clone, Debug, PartialEq, Eq, Structural)]
pub struct Camera {
    pub origin: Point3,
    pub lower_left_corner: Point3,
    pub horizontal: Vec3,
    pub vertical: Vec3,
    pub u: Vec3,
    pub v: Vec3,
    pub w: Vec3,
    pub lens_radius: i64,
    pub time0: i64,
    pub time1: i64,
}

/// The clamped image-plane half height: the tangent of half the vertical
/// field of view (given in degrees).
pub open spec fn cam_h(vfov: int) -> int {
    clamp_s(tan_spec((vfov * 205887 / 11796480) / 2), 0, 0x40_0000)
}

/// The clamped viewport width for an aspect ratio and height.
pub open spec fn cam_vw(aspect: int, vh: int) -> int {
    clamp_s(aspect * vh / 65536, 0, 0x800_0000)
}

/// The eye-to-target difference vector.
pub open spec fn cam_diff(lookfrom: Point3, lookat: Point3) -> Vec3 {
    Vec3 {
        x: (lookfrom.x - lookat.x) as i64,
        y: (lookfrom.y - lookat.y) as i64,
        z: (lookfrom.z - lookat.z) as i64,
    }
}

/// The view axis: the unit of the eye-to-target difference, or the world
/// z axis for a degenerate pair.
pub open spec fn cam_w(lookfrom: Point3, lookat: Point3) -> Vec3 {
    let diff = cam_diff(lookfrom, lookat);
    if diff == (Vec3 { x: 0, y: 0, z: 0 }) {
        Vec3 { x: 0, y: 0, z: 65536 }
    } else {
        unit_spec(diff)
    }
}

/// A vector clamped componentwise.
pub open spec fn clamp_v(v: Vec3, m: int) -> Vec3 {
    Vec3 {
        x: clamp_s(v.x as int, -m, m) as i64,
        y: clamp_s(v.y as int, -m, m) as i64,
        z: clamp_s(v.z as int, -m, m) as i64,
    }
}

/// The cross product, as a mathematical function.
pub open spec fn cross_spec(u: Vec3, v: Vec3) -> Vec3 {
    Vec3 {
        x: cross_comp(u.y as int, v.z as int, u.z as int, v.y as int) as i64,
        y: cross_comp(u.z as int, v.x as int, u.x as int, v.z as int) as i64,
        z: cross_comp(u.x as int, v.y as int, u.y as int, v.x as int) as i64,
    }
}

/// The horizontal basis vector: the unit of up cross view, or the world x
/// axis for a degenerate pair.
pub open spec fn cam_u(vup: Vec3, w: Vec3) -> Vec3 {
    let cuc = clamp_v(cross_spec(clamp_v(vup, 0x2_0000), w), 0x2_0000);
    if cuc == (Vec3 { x: 0, y: 0, z: 0 }) {
        Vec3 { x: 65536, y: 0, z: 0 }
    } else {
        unit_spec(cuc)
    }
}

/// The clamped triple product `a * b * c` of one basis component with the
/// viewport extent and the focus distance.
pub open spec fn mul3_s(a: int, b: int, c: int) -> int {
    fxm(clamp_s(fxm(a, b), -0x800_0000, 0x800_0000), c)
}

/// A camera whose derived quantities are within the working magnitudes.
pub open spec fn camera_ok(c: Camera) -> bool {
    &&& -0xC_0000_0000 <= c.origin.x <= 0xC_0000_0000
    &&& -0xC_0000_0000 <= c.origin.y <= 0xC_0000_0000
    &&& -0xC_0000_0000 <= c.origin.z <= 0xC_0000_0000
    &&& -0xC_0000_0000 <= c.lower_left_corner.x <= 0xC_0000_0000
    &&& -0xC_0000_0000 <= c.lower_left_corner.y <= 0xC_0000_0000
    &&& -0xC_0000_0000 <= c.lower_left_corner.z <= 0xC_0000_0000
    &&& -0xC_0000_0000 <= c.horizontal.x <= 0xC_0000_0000
    &&& -0xC_0000_0000 <= c.horizontal.y <= 0xC_0000_0000
    &&& -0xC_0000_0000 <= c.horizontal.z <= 0xC_0000_0000
    &&& -0xC_0000_0000 <= c.vertical.x <= 0xC_0000_0000
    &&& -0xC_0000_0000 <= c.vertical.y <= 0xC_0000_0000
    &&& -0xC_0000_0000 <= c.vertical.z <= 0xC_0000_0000
    &&& -65536 <= c.u.x <= 65536 && -65536 <= c.u.y <= 65536 && -65536 <= c.u.z <= 65536
    &&& -65536 <= c.v.x <= 65536 && -65536 <= c.v.y <= 65536 && -65536 <= c.v.z <= 65536
    &&& -65536 <= c.w.x <= 65536 && -65536 <= c.w.y <= 65536 && -65536 <= c.w.z <= 65536
    &&& 0 <= c.lens_radius <= 0x100_0000
    &&& 0 <= c.time0 <= c.time1 <= 0x10_0000
}

impl Camera {
    /// Derives the image-plane frame from eye position, view target, up
    /// vector, vertical field of view (degrees), aspect ratio, aperture,
    /// focus distance and shutter interval.
    #[verifier::rlimit(80)]
    pub fn creat(
        lookfrom: Point3,
        lookat: Point3,
        vup: Vec3,
        vfov: i64,
        aspect_ratio: i64,
        aperture: i64,
        focus_dist: i64,
        time0: i64,
        time1: i64,
    ) -> (cam: Camera)
        requires
            -0x8_0000_0000 <= lookfrom.x <= 0x8_0000_0000,
            -0x8_0000_0000 <= lookfrom.y <= 0x8_0000_0000,
            -0x8_0000_0000 <= lookfrom.z <= 0x8_0000_0000,
            -0x8_0000_0000 <= lookat.x <= 0x8_0000_0000,
            -0x8_0000_0000 <= lookat.y <= 0x8_0000_0000,
            -0x8_0000_0000 <= lookat.z <= 0x8_0000_0000,
            -0x100_0000 <= vup.x <= 0x100_0000,
            -0x100_0000 <= vup.y <= 0x100_0000,
            -0x100_0000 <= vup.z <= 0x100_0000,
            65536 <= vfov <= 170 * 65536,
            6553 <= aspect_ratio <= 16 * 65536,
            0 <= aperture <= 0x200_0000,
            65536 <= focus_dist <= 0x400_0000,
            0 <= time0 <= time1 <= 0x10_0000,
        ensures
            camera_ok(cam),
            cam.origin == lookfrom,
            cam.time0 == time0,
            cam.time1 == time1,
            cam.lens_radius == aperture as int / 2,
            cam.w == cam_w(lookfrom, lookat),
            cam.u == cam_u(vup, cam.w),
            cam.v == clamp_v(cross_spec(cam.w, cam.u), 65536),
            cam.horizontal.x == clamp_s(
                mul3_s(
                    cam.u.x as int,
                    cam_vw(aspect_ratio as int, 2 * cam_h(vfov as int)),
                    focus_dist as int,
                ),
                -0xC_0000_0000,
                0xC_0000_0000,
            ),
            cam.horizontal.y == clamp_s(
                mul3_s(
                    cam.u.y as int,
                    cam_vw(aspect_ratio as int, 2 * cam_h(vfov as int)),
                    focus_dist as int,
                ),
                -0xC_0000_0000,
                0xC_0000_0000,
            ),
            cam.horizontal.z == clamp_s(
                mul3_s(
                    cam.u.z as int,
                    cam_vw(aspect_ratio as int, 2 * cam_h(vfov as int)),
                    focus_dist as int,
                ),
                -0xC_0000_0000,
                0xC_0000_0000,
            ),
            cam.vertical.x == clamp_s(
                mul3_s(cam.v.x as int, 2 * cam_h(vfov as int), focus_dist as int),
                -0xC_0000_0000,
                0xC_0000_0000,
            ),
            cam.vertical.y == clamp_s(
                mul3_s(cam.v.y as int, 2 * cam_h(vfov as int), focus_dist as int),
                -0xC_0000_0000,
                0xC_0000_0000,
            ),
            cam.vertical.z == clamp_s(
                mul3_s(cam.v.z as int, 2 * cam_h(vfov as int), focus_dist as int),
                -0xC_0000_0000,
                0xC_0000_0000,
            ),
            cam.lower_left_corner.x == clamp_s(
                lookfrom.x - cam.horizontal.x / 2 - cam.vertical.x / 2 - clamp_s(
                    fxm(cam.w.x as int, focus_dist as int),
                    -0x8_0000_0000,
                    0x8_0000_0000,
                ),
                -0xC_0000_0000,
                0xC_0000_0000,
            ),
            cam.lower_left_corner.y == clamp_s(
                lookfrom.y - cam.horizontal.y / 2 - cam.vertical.y / 2 - clamp_s(
                    fxm(cam.w.y as int, focus_dist as int),
                    -0x8_0000_0000,
                    0x8_0000_0000,
                ),
                -0xC_0000_0000,
                0xC_0000_0000,
            ),
            cam.lower_left_corner.z == clamp_s(
                lookfrom.z - cam.horizontal.z / 2 - cam.vertical.z / 2 - clamp_s(
                    fxm(cam.w.z as int, focus_dist as int),
                    -0x8_0000_0000,
                    0x8_0000_0000,
                ),
                -0xC_0000_0000,
                0xC_0000_0000,
            ),
    {
        let theta = degrees_to_radians(vfov);
        let h = clamp(fx_tan(theta / 2), 0, 0x40_0000);
        let viewport_height = 2 * h;
        let viewport_width = clamp(mul_fx_small(aspect_ratio, viewport_height), 0, 0x800_0000);
        let diff = Vec3 {
            x: lookfrom.x - lookat.x,
            y: lookfrom.y - lookat.y,
            z: lookfrom.z - lookat.z,
        };
        let w_ = if diff.x == 0 && diff.y == 0 && diff.z == 0 {
            Vec3 { x: 0, y: 0, z: 65536 }
        } else {
            proof {
                if diff == (Vec3 { x: 0, y: 0, z: 0 }) {
                    assert(diff.x == 0);
                }
            }
            unit_vector(diff)
        };
        let vupc = Vec3 {
            x: clamp(vup.x, -0x2_0000, 0x2_0000),
            y: clamp(vup.y, -0x2_0000, 0x2_0000),
            z: clamp(vup.z, -0x2_0000, 0x2_0000),
        };
        let cu = cross(vupc, w_);
        proof {
            crate::vec3::lemma_cross_of_units_bounded(vupc, w_);
        }
        let cuc = Vec3 {
            x: clamp(cu.x, -0x2_0000, 0x2_0000),
            y: clamp(cu.y, -0x2_0000, 0x2_0000),
            z: clamp(cu.z, -0x2_0000, 0x2_0000),
        };
        let u_ = if cuc.x == 0 && cuc.y == 0 && cuc.z == 0 {
            Vec3 { x: 65536, y: 0, z: 0 }
        } else {
            proof {
                if cuc == (Vec3 { x: 0, y: 0, z: 0 }) {
                    assert(cuc.x == 0);
                }
            }
            unit_vector(cuc)
        };
        let cv = cross(w_, u_);
        let v_ = Vec3 {
            x: clamp(cv.x, -65536, 65536),
            y: clamp(cv.y, -65536, 65536),
            z: clamp(cv.z, -65536, 65536),
        };
        let horizontal_ = Vec3 {
            x: clamp(mul3(u_.x, viewport_width, focus_dist), -0xC_0000_0000, 0xC_0000_0000),
            y: clamp(mul3(u_.y, viewport_width, focus_dist), -0xC_0000_0000, 0xC_0000_0000),
            z: clamp(mul3(u_.z, viewport_width, focus_dist), -0xC_0000_0000, 0xC_0000_0000),
        };
        let vertical_ = Vec3 {
            x: clamp(mul3(v_.x, viewport_height, focus_dist), -0xC_0000_0000, 0xC_0000_0000),
            y: clamp(mul3(v_.y, viewport_height, focus_dist), -0xC_0000_0000, 0xC_0000_0000),
            z: clamp(mul3(v_.z, viewport_height, focus_dist), -0xC_0000_0000, 0xC_0000_0000),
        };
        let wf_ = Vec3 {
            x: clamp(mul_fx_small(w_.x, focus_dist), -0x8_0000_0000, 0x8_0000_0000),
            y: clamp(mul_fx_small(w_.y, focus_dist), -0x8_0000_0000, 0x8_0000_0000),
            z: clamp(mul_fx_small(w_.z, focus_dist), -0x8_0000_0000, 0x8_0000_0000),
        };
        proof {
            crate::fixed::lemma_div_bounded(horizontal_.x as int, 2, 0xC_0000_0000);
            crate::fixed::lemma_div_bounded(horizontal_.y as int, 2, 0xC_0000_0000);
            crate::fixed::lemma_div_bounded(horizontal_.z as int, 2, 0xC_0000_0000);
            crate::fixed::lemma_div_bounded(vertical_.x as int, 2, 0xC_0000_0000);
            crate::fixed::lemma_div_bounded(vertical_.y as int, 2, 0xC_0000_0000);
            crate::fixed::lemma_div_bounded(vertical_.z as int, 2, 0xC_0000_0000);
        }
        let lower_left_corner_ = Vec3 {
            x: clamp(
                lookfrom.x - (div_floor(horizontal_.x as i128, 2) as i64) - (div_floor(
                    vertical_.x as i128,
                    2,
                ) as i64) - wf_.x,
                -0xC_0000_0000,
                0xC_0000_0000,
            ),
            y: clamp(
                lookfrom.y - (div_floor(horizontal_.y as i128, 2) as i64) - (div_floor(
                    vertical_.y as i128,
                    2,
                ) as i64) - wf_.y,
                -0xC_0000_0000,
                0xC_0000_0000,
            ),
            z: clamp(
                lookfrom.z - (div_floor(horizontal_.z as i128, 2) as i64) - (div_floor(
                    vertical_.z as i128,
                    2,
                ) as i64) - wf_.z,
                -0xC_0000_0000,
                0xC_0000_0000,
            ),
        };
        let cam = Camera {
            origin: lookfrom,
            lower_left_corner: lower_left_corner_,
            horizontal: horizontal_,
            vertical: vertical_,
            u: u_,
            v: v_,
            w: w_,
            lens_radius: aperture / 2,
            time0,
            time1,
        };
        proof {
            assert(diff == cam_diff(lookfrom, lookat));
            if diff.x == 0 && diff.y == 0 && diff.z == 0 {
                assert(diff == (Vec3 { x: 0, y: 0, z: 0 }));
            }
            assert(cam.w == cam_w(lookfrom, lookat));
            assert(vupc == clamp_v(vup, 0x2_0000));
            assert(cu == cross_spec(vupc, w_));
            assert(cuc == clamp_v(cu, 0x2_0000));
            if cuc.x == 0 && cuc.y == 0 && cuc.z == 0 {
                assert(cuc == (Vec3 { x: 0, y: 0, z: 0 }));
            }
            assert(cam.u == cam_u(vup, cam.w));
            assert(cv == cross_spec(w_, u_));
            assert(cam.v == clamp_v(cross_spec(cam.w, cam.u), 65536));
            assert(h as int == cam_h(vfov as int));
            assert(viewport_width as int == cam_vw(aspect_ratio as int, 2 * cam_h(vfov as int)));
        }
        cam
    }

    /// The world-space ray through normalized image coordinates `(s, t)`,
    /// jittered over the lens disk and the shutter interval.
    pub fn get_ray(&self, s: i64, t: i64) -> (r: Ray)
        requires
            camera_ok(*self),
            0 <= s <= 65536,
            0 <= t <= 65536,
        ensures
            ray_ok(r),
            self.time0 <= r.tm <= self.time1,
            // the origin is offset only within the lens disk (componentwise
            // within twice the lens radius, one contribution per lens axis)
            -(2 * self.lens_radius) <= r.st.x - self.origin.x <= 2 * self.lens_radius,
            -(2 * self.lens_radius) <= r.st.y - self.origin.y <= 2 * self.lens_radius,
            -(2 * self.lens_radius) <= r.st.z - self.origin.z <= 2 * self.lens_radius,
            // whatever the lens draw, the ray passes through the focal-plane
            // target of (s, t): the offset cancels out of origin + direction
            at_comp(r.st.x as int, r.dir.x as int, 65536) == self.lower_left_corner.x + fxm(
                self.horizontal.x as int,
                s as int,
            ) + fxm(self.vertical.x as int, t as int),
            at_comp(r.st.y as int, r.dir.y as int, 65536) == self.lower_left_corner.y + fxm(
                self.horizontal.y as int,
                s as int,
            ) + fxm(self.vertical.y as int, t as int),
            at_comp(r.st.z as int, r.dir.z as int, 65536) == self.lower_left_corner.z + fxm(
                self.horizontal.z as int,
                s as int,
            ) + fxm(self.vertical.z as int, t as int),
            // with a closed aperture the ray is a pure function of (s, t)
            self.lens_radius == 0 ==> r.st == self.origin && r.dir.x == clamp_s(
                self.lower_left_corner.x + fxm(self.horizontal.x as int, s as int) + fxm(
                    self.vertical.x as int,
                    t as int,
                ) - self.origin.x,
                -0x40_0000_0000,
                0x40_0000_0000,
            ) && r.dir.y == clamp_s(
                self.lower_left_corner.y + fxm(self.horizontal.y as int, s as int) + fxm(
                    self.vertical.y as int,
                    t as int,
                ) - self.origin.y,
                -0x40_0000_0000,
                0x40_0000_0000,
            ) && r.dir.z == clamp_s(
                self.lower_left_corner.z + fxm(self.horizontal.z as int, s as int) + fxm(
                    self.vertical.z as int,
                    t as int,
                ) - self.origin.z,
                -0x40_0000_0000,
                0x40_0000_0000,
            ),
    {
        let rd0 = random_in_unit_disk();
        proof {
            lemma_draw_comp(rd0.x as int, self.lens_radius as int);
            lemma_draw_comp(rd0.y as int, self.lens_radius as int);
        }
        let rdx = clamp(mul_fx_small(rd0.x, self.lens_radius), -0x100_0000, 0x100_0000);
        let rdy = clamp(mul_fx_small(rd0.y, self.lens_radius), -0x100_0000, 0x100_0000);
        proof {
            if self.lens_radius == 0 {
                lemma_times_zero(rd0.x as int);
                lemma_times_zero(rd0.y as int);
            }
        }
        let offset = Vec3 {
            x: clamp(
                mul_fx_small(self.u.x, rdx) + mul_fx_small(self.v.x, rdy),
                -0x1_0000_0000,
                0x1_0000_0000,
            ),
            y: clamp(
                mul_fx_small(self.u.y, rdx) + mul_fx_small(self.v.y, rdy),
                -0x1_0000_0000,
                0x1_0000_0000,
            ),
            z: clamp(
                mul_fx_small(self.u.z, rdx) + mul_fx_small(self.v.z, rdy),
                -0x1_0000_0000,
                0x1_0000_0000,
            ),
        };
        proof {
            if self.lens_radius == 0 {
                lemma_times_zero(self.u.x as int);
                lemma_times_zero(self.u.y as int);
                lemma_times_zero(self.u.z as int);
                lemma_times_zero(self.v.x as int);
                lemma_times_zero(self.v.y as int);
                lemma_times_zero(self.v.z as int);
            }
        }
        proof {
            lemma_lens_comp(self.u.x as int, self.v.x as int, rdx as int, rdy as int, self.lens_radius as int);
            lemma_lens_comp(self.u.y as int, self.v.y as int, rdx as int, rdy as int, self.lens_radius as int);
            lemma_lens_comp(self.u.z as int, self.v.z as int, rdx as int, rdy as int, self.lens_radius as int);
            lemma_plane_comp(
                self.lower_left_corner.x as int,
                self.horizontal.x as int,
                self.vertical.x as int,
                s as int,
                t as int,
            );
            lemma_plane_comp(
                self.lower_left_corner.y as int,
                self.horizontal.y as int,
                self.vertical.y as int,
                s as int,
                t as int,
            );
            lemma_plane_comp(
                self.lower_left_corner.z as int,
                self.horizontal.z as int,
                self.vertical.z as int,
                s as int,
                t as int,
            );
        }
        let dir = Vec3 {
            x: clamp(
                self.lower_left_corner.x + mul_fx_small(self.horizontal.x, s) + mul_fx_small(
                    self.vertical.x,
                    t,
                ) - self.origin.x - offset.x,
                -0x40_0000_0000,
                0x40_0000_0000,
            ),
            y: clamp(
                self.lower_left_corner.y + mul_fx_small(self.horizontal.y, s) + mul_fx_small(
                    self.vertical.y,
                    t,
                ) - self.origin.y - offset.y,
                -0x40_0000_0000,
                0x40_0000_0000,
            ),
            z: clamp(
                self.lower_left_corner.z + mul_fx_small(self.horizontal.z, s) + mul_fx_small(
                    self.vertical.z,
                    t,
                ) - self.origin.z - offset.z,
                -0x40_0000_0000,
                0x40_0000_0000,
            ),
        };
        let ray = Ray {
            st: Vec3 {
                x: clamp(self.origin.x + offset.x, -0x40_0000_0000, 0x40_0000_0000),
                y: clamp(self.origin.y + offset.y, -0x40_0000_0000, 0x40_0000_0000),
                z: clamp(self.origin.z + offset.z, -0x40_0000_0000, 0x40_0000_0000),
            },
            dir,
            tm: random_double_lr(self.time0, self.time1),
        };
        proof {
            vstd::arithmetic::div_mod::lemma_div_multiples_vanish(ray.dir.x as int, 65536);
            vstd::arithmetic::div_mod::lemma_div_multiples_vanish(ray.dir.y as int, 65536);
            vstd::arithmetic::div_mod::lemma_div_multiples_vanish(ray.dir.z as int, 65536);
            assert(ray.dir.x as int * 65536 == 65536 * (ray.dir.x as int) && ray.dir.y as int
                * 65536 == 65536 * (ray.dir.y as int) && ray.dir.z as int * 65536 == 65536 * (
            ray.dir.z as int)) by (nonlinear_arith);
        }
        ray
    }
}

/// A lens draw scaled by the radius stays within the radius.
proof fn lemma_draw_comp(rd: int, lr: int)
    requires
        -65536 <= rd <= 65536,
        0 <= lr <= 0x100_0000,
    ensures
        -lr <= rd * lr / 65536 <= lr,
{
    assert(-(65536 * lr) <= rd * lr <= 65536 * lr) by (nonlinear_arith)
        requires
            -65536 <= rd <= 65536,
            0 <= lr;
    vstd::arithmetic::div_mod::lemma_div_is_ordered(rd * lr, 65536 * lr, 65536);
    vstd::arithmetic::div_mod::lemma_div_is_ordered(-(65536 * lr), rd * lr, 65536);
    vstd::arithmetic::div_mod::lemma_div_multiples_vanish(lr, 65536);
    vstd::arithmetic::div_mod::lemma_div_multiples_vanish(-lr, 65536);
}

/// One component of the lens offset is within twice the lens radius: each
/// of the two basis contributions scales a unit component by a draw inside
/// the radius.
proof fn lemma_lens_comp(ux: int, vx: int, rdx: int, rdy: int, lr: int)
    requires
        -65536 <= ux <= 65536,
        -65536 <= vx <= 65536,
        -lr <= rdx <= lr,
        -lr <= rdy <= lr,
        0 <= lr <= 0x100_0000,
    ensures
        -lr <= ux * rdx / 65536 <= lr,
        -lr <= vx * rdy / 65536 <= lr,
{
    assert(-(65536 * lr) <= ux * rdx <= 65536 * lr && -(65536 * lr) <= vx * rdy <= 65536 * lr)
        by (nonlinear_arith)
        requires
            -65536 <= ux <= 65536,
            -65536 <= vx <= 65536,
            -lr <= rdx <= lr,
            -lr <= rdy <= lr,
            0 <= lr;
    vstd::arithmetic::div_mod::lemma_div_is_ordered(ux * rdx, 65536 * lr, 65536);
    vstd::arithmetic::div_mod::lemma_div_is_ordered(-(65536 * lr), ux * rdx, 65536);
    vstd::arithmetic::div_mod::lemma_div_is_ordered(vx * rdy, 65536 * lr, 65536);
    vstd::arithmetic::div_mod::lemma_div_is_ordered(-(65536 * lr), vx * rdy, 65536);
    vstd::arithmetic::div_mod::lemma_div_multiples_vanish(lr, 65536);
    vstd::arithmetic::div_mod::lemma_div_multiples_vanish(-lr, 65536);
}

/// One component of the image-plane target stays within the working range.
proof fn lemma_plane_comp(llc: int, h: int, v: int, s: int, t: int)
    requires
        -0xC_0000_0000 <= llc <= 0xC_0000_0000,
        -0xC_0000_0000 <= h <= 0xC_0000_0000,
        -0xC_0000_0000 <= v <= 0xC_0000_0000,
        0 <= s <= 65536,
        0 <= t <= 65536,
    ensures
        -0xC_0000_0000 <= h * s / 65536 <= 0xC_0000_0000,
        -0xC_0000_0000 <= v * t / 65536 <= 0xC_0000_0000,
{
    assert(-((65536 as int) * 0xC_0000_0000) <= h * s <= (65536 as int) * 0xC_0000_0000 && -((
    65536 as int) * 0xC_0000_0000) <= v * t <= (65536 as int) * 0xC_0000_0000)
        by (nonlinear_arith)
        requires
            -0xC_0000_0000 <= h <= 0xC_0000_0000,
            -0xC_0000_0000 <= v <= 0xC_0000_0000,
            0 <= s <= 65536,
            0 <= t <= 65536;
    vstd::arithmetic::div_mod::lemma_div_is_ordered(h * s, (65536 as int) * 0xC_0000_0000, 65536);
    vstd::arithmetic::div_mod::lemma_div_is_ordered(-((65536 as int) * 0xC_0000_0000), h * s, 65536);
    vstd::arithmetic::div_mod::lemma_div_is_ordered(v * t, (65536 as int) * 0xC_0000_0000, 65536);
    vstd::arithmetic::div_mod::lemma_div_is_ordered(-((65536 as int) * 0xC_0000_0000), v * t, 65536);
    vstd::arithmetic::div_mod::lemma_div_multiples_vanish(0xC_0000_0000, 65536);
    vstd::arithmetic::div_mod::lemma_div_multiples_vanish(-0xC_0000_0000, 65536);
}

/// A product with a zero factor vanishes, and so does its scaled quotient.
proof fn lemma_times_zero(a: int)
    ensures
        a * 0 == 0,
        a * 0 / 65536 == 0,
{
    assert(a * 0 == 0) by (nonlinear_arith);
    assert((0 as int) / 65536 == 0);
}

/// A fixed-point product of moderately sized scalars.
fn mul_fx_small(a: i64, b: i64) -> (r: i64)
    requires
        -0xC_0000_0000 <= a <= 0xC_0000_0000,
        -0xC_0000_0000 <= b <= 0xC_0000_0000,
    ensures
        r == a as int * b as int / 65536,
        -0x100_0000_0000_0000 <= r <= 0x100_0000_0000_0000,
{
    proof {
        assert(-0x100_0000_0000_0000_0000 <= a as int * b as int <= 0x100_0000_0000_0000_0000)
            by (nonlinear_arith)
            requires
                -0xC_0000_0000 <= a as int <= 0xC_0000_0000,
                -0xC_0000_0000 <= b as int <= 0xC_0000_0000,
        ;
        vstd::arithmetic::div_mod::lemma_div_is_ordered(
            a as int * b as int,
            0x100_0000_0000_0000_0000,
            65536,
        );
        vstd::arithmetic::div_mod::lemma_div_is_ordered(
            -0x100_0000_0000_0000_0000,
            a as int * b as int,
            65536,
        );
    }
    div_floor((a as i128) * (b as i128), 65536) as i64
}

/// The triple fixed-point product `a * b * c`.
fn mul3(a: i64, b: i64, c: i64) -> (r: i64)
    requires
        -65536 <= a <= 65536,
        0 <= b <= 0x800_0000,
        0 <= c <= 0x400_0000,
    ensures
        r == mul3_s(a as int, b as int, c as int),
        -0x100_0000_0000_0000 <= r <= 0x100_0000_0000_0000,
{
    let ab = mul_fx_small(a, b);
    let abc = clamp(ab, -0x800_0000, 0x800_0000);
    mul_fx_small(abc, c)
}

} // verus!

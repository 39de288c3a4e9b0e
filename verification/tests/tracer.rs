//! End-to-end exercises of the fixed-point tracer: scalar kernel, vectors,
//! boxes, primitives, the hierarchy, materials, textures and the integrator.

use raytracer::aabb::{surrounding_box, Aabb};
use raytracer::aarect::{XyRect, XzRect, YzRect};
use raytracer::bvh::BvhNode;
use raytracer::camera::Camera;
use raytracer::fixed::{clamp, div_floor, fmax, fmin, fx_abs, fx_sqrt};
use raytracer::hittable::{ConstantMedium, HitRecord, Hittable, RotateY, Translate, FlipFace};
use raytracer::hittable_list::HittableList;
use raytracer::material::{Dielectric, DiffuseLight, Lambertian, Material, Metal};
use raytracer::moving_sphere::MovingSphere;
use raytracer::mybox::MyBox;
use raytracer::ray::Ray;
use raytracer::render::{ray_color, solve, write_color, MAXDEPTH};
use raytracer::rng::{random_double, random_double_lr, random_int_lr};
use raytracer::sphere::Sphere;
use raytracer::texture::{CheckerTexture, ImageTexture, NoiseTexture, SolidColor, Texture};
use raytracer::trig::{fx_acos, fx_atan2, fx_cos, fx_neg_ln, fx_sin, fx_tan};
use raytracer::fixed::{fx_div, fx_mul};
use raytracer::onb::Onb;
use raytracer::pdf::{random_cosine_direction, CosinePdf};
use raytracer::perlin::Perlin;
use raytracer::vec3::{
    cross, dot, random_in_unit_disk, random_in_unit_sphere, random_unit_vector, reflect, refract,
    unit_vector, Vec3,
};

const ONE: i64 = 65536;

fn v(x: i64, y: i64, z: i64) -> Vec3 {
    Vec3 { x, y, z }
}

fn gray(level: i64) -> Vec3 {
    Vec3 { x: level, y: level, z: level }
}

fn lamb(c: Vec3) -> Material {
    Material::Lambertian(Lambertian::creat(c))
}

fn unit_sphere(cx: i64, cy: i64, cz: i64, r: i64) -> Sphere {
    Sphere { center: v(cx, cy, cz), radius: r, mat_ptr: lamb(gray(ONE / 2)) }
}

#[test]
fn floor_division_rounds_toward_negative_infinity() {
    assert_eq!(div_floor(7, 2), 3);
    assert_eq!(div_floor(-7, 2), -4);
    assert_eq!(div_floor(-8, 2), -4);
    assert_eq!(div_floor(0, 5), 0);
}

#[test]
fn square_root_is_exact_on_squares() {
    assert_eq!(fx_sqrt(ONE), ONE); // sqrt(1) = 1
    assert_eq!(fx_sqrt(4 * ONE), 2 * ONE);
    assert_eq!(fx_sqrt(ONE / 4), ONE / 2);
    assert_eq!(fx_sqrt(0), 0);
}

#[test]
fn scalar_helpers() {
    assert_eq!(fmin(3, 5), 3);
    assert_eq!(fmax(3, 5), 5);
    assert_eq!(clamp(7, 0, 5), 5);
    assert_eq!(clamp(-7, 0, 5), 0);
    assert_eq!(clamp(3, 0, 5), 3);
    assert_eq!(fx_abs(-42), 42);
}

#[test]
fn sine_and_cosine_land_on_the_axis_values() {
    assert_eq!(fx_sin(0), 0);
    assert!((fx_sin(102944) - ONE).abs() < 64); // sin(pi/2) ~ 1
    assert!((fx_cos(0) - ONE).abs() < 64);
    assert!(fx_sin(205887).abs() < 64); // sin(pi) ~ 0
    assert!((fx_sin(-102944) + ONE).abs() < 64);
}

#[test]
fn tangent_of_half_right_angle_is_one() {
    // tan(45 degrees): the camera's 90-degree field of view relies on this
    let rad = raytracer::fixed::degrees_to_radians(45 * ONE);
    let t = fx_tan(rad);
    assert!((t - ONE).abs() < 128, "tan(45deg) = {}", t);
}

#[test]
fn negated_logarithm_anchors() {
    assert_eq!(fx_neg_ln(ONE), 0);
    let l2 = fx_neg_ln(ONE / 2);
    assert!((l2 - 45426).abs() < 512, "-ln(1/2) = {}", l2); // ln 2
    assert!(fx_neg_ln(1) > 0);
}

#[test]
fn arc_functions_cover_their_ranges() {
    assert!(fx_acos(ONE) < 1024); // acos(1) ~ 0
    assert!((fx_acos(-ONE) - 205887).abs() < 1024); // acos(-1) ~ pi
    assert!(fx_atan2(0, ONE).abs() < 8);
    assert!(fx_atan2(ONE, 0) > 0);
    assert!(fx_atan2(-ONE, 0) < 0);
}

#[test]
fn vector_algebra_is_exact() {
    let a = v(ONE, 2 * ONE, 3 * ONE);
    let b = v(4 * ONE, 5 * ONE, 6 * ONE);
    let s = a.add(b);
    assert_eq!((s.x, s.y, s.z), (5 * ONE, 7 * ONE, 9 * ONE));
    let d = b.sub(a);
    assert_eq!((d.x, d.y, d.z), (3 * ONE, 3 * ONE, 3 * ONE));
    assert_eq!(dot(a, b), 32 * ONE); // 4 + 10 + 18
    let c = cross(v(ONE, 0, 0), v(0, ONE, 0));
    assert_eq!((c.x, c.y, c.z), (0, 0, ONE));
    let m = a.mul(b);
    assert_eq!((m.x, m.y, m.z), (4 * ONE, 10 * ONE, 18 * ONE));
    let sc = a.scale(ONE / 2);
    assert_eq!((sc.x, sc.y, sc.z), (ONE / 2, ONE, 3 * ONE / 2));
}

#[test]
fn unit_vector_of_a_three_four_five_triangle() {
    let u = unit_vector(v(3 * ONE, 4 * ONE, 0));
    assert!((u.x - 39321).abs() <= 2, "{}", u.x); // 0.6
    assert!((u.y - 52428).abs() <= 2, "{}", u.y); // 0.8
    assert_eq!(u.z, 0);
}

#[test]
fn reflection_about_the_vertical_axis() {
    let r = reflect(v(ONE, -ONE, 0), v(0, ONE, 0));
    assert_eq!((r.x, r.y, r.z), (ONE, ONE, 0));
}

#[test]
fn refraction_at_matched_indices_is_undeviated() {
    let r = refract(v(0, 0, -ONE), v(0, 0, ONE), ONE);
    assert_eq!((r.x, r.y, r.z), (0, 0, -ONE));
}

#[test]
fn surrounding_box_is_commutative_and_contains_both() {
    let a = Aabb { min: v(-ONE, 0, 0), max: v(ONE, ONE, ONE) };
    let b = Aabb { min: v(0, -2 * ONE, 0), max: v(3 * ONE, 0, ONE / 2) };
    let ab = surrounding_box(a, b);
    let ba = surrounding_box(b, a);
    assert_eq!(ab, ba);
    assert!(ab.min.x <= a.min.x && ab.min.x <= b.min.x);
    assert!(ab.min.y <= a.min.y && ab.min.y <= b.min.y);
    assert!(ab.min.z <= a.min.z && ab.min.z <= b.min.z);
    assert!(ab.max.x >= a.max.x && ab.max.x >= b.max.x);
    assert!(ab.max.y >= a.max.y && ab.max.y >= b.max.y);
    assert!(ab.max.z >= a.max.z && ab.max.z >= b.max.z);
}

#[test]
fn slab_test_accepts_and_rejects() {
    let b = Aabb { min: v(-ONE, -ONE, -ONE), max: v(ONE, ONE, ONE) };
    let through = Ray { st: v(0, 0, 5 * ONE), dir: v(0, 0, -ONE), tm: 0 };
    assert!(b.hit(through, 0, 100 * ONE));
    let miss = Ray { st: v(5 * ONE, 0, 5 * ONE), dir: v(0, 0, -ONE), tm: 0 };
    assert!(!b.hit(miss, 0, 100 * ONE));
    // behind the window
    assert!(!b.hit(through, 20 * ONE, 100 * ONE));
}

#[test]
fn sphere_hit_round_trip() {
    let s = unit_sphere(0, 0, 0, ONE);
    let r = Ray { st: v(0, 0, 2 * ONE), dir: v(0, 0, -ONE), tm: 0 };
    let rec = s.hit(r, 0, 100 * ONE).expect("must hit");
    assert_eq!(rec.t, ONE);
    // the hit point lies on the surface
    assert!((rec.p.z - ONE).abs() <= 2);
    assert!(rec.p.x.abs() <= 2 && rec.p.y.abs() <= 2);
    // the outward normal is unit length and points outward
    let n = rec.normal;
    let len2 = dot(n, n);
    assert!((len2 - ONE).abs() < 512, "normal length^2 = {}", len2);
    assert!(dot(n, rec.p.sub(v(0, 0, 0))) > 0);
    assert!(rec.front_face);
    // surface coordinates are inside the unit square
    assert!(0 <= rec.u && rec.u <= ONE);
    assert!(0 <= rec.v && rec.v <= ONE);
}

#[test]
fn sphere_misses_when_pointed_away() {
    let s = unit_sphere(0, 0, 0, ONE);
    let r = Ray { st: v(0, 0, 2 * ONE), dir: v(0, 0, ONE), tm: 0 };
    assert!(s.hit(r, 0, 100 * ONE).is_none());
    // degenerate direction never hits
    let z = Ray { st: v(0, 0, 2 * ONE), dir: v(0, 0, 0), tm: 0 };
    assert!(s.hit(z, 0, 100 * ONE).is_none());
}

#[test]
fn sphere_window_excludes_near_root_and_falls_back_to_far_root() {
    let s = unit_sphere(0, 0, 0, ONE);
    let r = Ray { st: v(0, 0, 2 * ONE), dir: v(0, 0, -ONE), tm: 0 };
    // near root at t=1 excluded, far root at t=3 accepted
    let rec = s.hit(r, 2 * ONE, 100 * ONE).expect("far root");
    assert_eq!(rec.t, 3 * ONE);
    assert!(!rec.front_face); // leaving the sphere: normal flipped
}

#[test]
fn rectangles_hit_at_their_plane() {
    let q = XyRect { x0: -ONE, x1: ONE, y0: -ONE, y1: ONE, k: -3 * ONE, mp: lamb(gray(ONE)) };
    let r = Ray { st: v(0, 0, 0), dir: v(0, 0, -ONE), tm: 0 };
    let rec = q.hit(r, 0, 100 * ONE).expect("hit the plane");
    assert!((rec.t - 3 * ONE).abs() <= 8);
    assert!(0 <= rec.u && rec.u <= ONE && 0 <= rec.v && rec.v <= ONE);
    // a parallel ray misses
    let par = Ray { st: v(0, 0, 0), dir: v(ONE, 0, 0), tm: 0 };
    assert!(q.hit(par, 0, 100 * ONE).is_none());
}

#[test]
fn all_three_rect_orientations_work() {
    let m1 = lamb(gray(ONE));
    let m2 = lamb(gray(ONE));
    let xz = XzRect { x0: -ONE, x1: ONE, z0: -ONE, z1: ONE, k: -2 * ONE, mp: m1 };
    let down = Ray { st: v(0, 0, 0), dir: v(0, -ONE, 0), tm: 0 };
    assert!((xz.hit(down, 0, 100 * ONE).expect("xz").t - 2 * ONE).abs() <= 8);
    let yz = YzRect { y0: -ONE, y1: ONE, z0: -ONE, z1: ONE, k: 2 * ONE, mp: m2 };
    let right = Ray { st: v(0, 0, 0), dir: v(ONE, 0, 0), tm: 0 };
    assert!((yz.hit(right, 0, 100 * ONE).expect("yz").t - 2 * ONE).abs() <= 8);
}

#[test]
fn box_aggregate_reports_nearest_face() {
    let b = MyBox::creat(v(-ONE, -ONE, -ONE), v(ONE, ONE, ONE), lamb(gray(ONE)));
    let r = Ray { st: v(0, 0, 5 * ONE), dir: v(0, 0, -ONE), tm: 0 };
    let (rec, _m) = b.hit(r, 0, 100 * ONE).expect("hits the near face");
    assert!((rec.t - 4 * ONE).abs() <= 8, "t = {}", rec.t);
}

#[test]
fn translate_shifts_the_hit() {
    let s = Hittable::Sphere(unit_sphere(0, 0, 0, ONE));
    let t = Hittable::Translate(Translate { ptr: Box::new(s), offset: v(0, 0, -2 * ONE) });
    let r = Ray { st: v(0, 0, 2 * ONE), dir: v(0, 0, -ONE), tm: 0 };
    let (rec, _m) = t.hit(r, 0, 100 * ONE).expect("hits the moved sphere");
    assert_eq!(rec.t, 3 * ONE);
    assert!((rec.p.z + ONE).abs() <= 4);
}

#[test]
fn flip_face_inverts_the_flag() {
    let s = Hittable::Sphere(unit_sphere(0, 0, 0, ONE));
    let f = Hittable::FlipFace(FlipFace { ptr: Box::new(s) });
    let r = Ray { st: v(0, 0, 2 * ONE), dir: v(0, 0, -ONE), tm: 0 };
    let (rec, _m) = f.hit(r, 0, 100 * ONE).expect("still hits");
    assert!(!rec.front_face);
}

#[test]
fn rotate_y_keeps_a_centered_sphere_hittable() {
    let s = Hittable::Sphere(unit_sphere(0, 0, 0, ONE));
    let ro = RotateY::creat(s, 15 * ONE);
    let h = Hittable::RotateY(ro);
    let r = Ray { st: v(0, 0, 2 * ONE), dir: v(0, 0, -ONE), tm: 0 };
    let (rec, _m) = h.hit(r, 0, 100 * ONE).expect("rotation about y keeps it in place");
    assert!((rec.t - ONE).abs() <= 64);
}

#[test]
fn constant_medium_reports_inside_hits_only() {
    let boundary = Hittable::Sphere(unit_sphere(0, 0, 0, ONE));
    // enormous density: scattering happens essentially immediately
    let cm = Hittable::ConstantMedium(ConstantMedium::creat2(
        boundary,
        1000 * ONE,
        gray(ONE / 2),
    ));
    let r = Ray { st: v(0, 0, 2 * ONE), dir: v(0, 0, -ONE), tm: 0 };
    let mut saw_hit = false;
    for _ in 0..32 {
        if let Some((rec, _m)) = cm.hit(r, 0, 100 * ONE) {
            saw_hit = true;
            assert!(0 < rec.t && rec.t <= 100 * ONE);
            assert!(rec.t >= ONE - 1024, "scatter before entry: {}", rec.t);
            assert!(rec.t <= 3 * ONE + 1024, "scatter after exit: {}", rec.t);
        }
    }
    assert!(saw_hit, "a dense medium must scatter almost surely");
}

#[test]
fn moving_sphere_interpolates_its_center() {
    let ms = MovingSphere {
        center0: v(0, 0, 0),
        center1: v(10 * ONE, 0, 0),
        time0: 0,
        time1: ONE,
        radius: ONE,
        mat_ptr: lamb(gray(ONE)),
    };
    let c0 = ms.center(0);
    assert_eq!((c0.x, c0.y, c0.z), (0, 0, 0));
    let c1 = ms.center(ONE);
    assert_eq!((c1.x, c1.y, c1.z), (10 * ONE, 0, 0));
    let cm = ms.center(ONE / 2);
    assert_eq!(cm.x, 5 * ONE);
    // a ray at shutter-open hits the sphere at its first keyframe
    let r = Ray { st: v(0, 0, 2 * ONE), dir: v(0, 0, -ONE), tm: 0 };
    let rec = ms.hit(r, 0, 100 * ONE).expect("hit at time zero");
    assert_eq!(rec.t, ONE);
}

fn two_sphere_collection() -> Vec<Hittable> {
    vec![
        Hittable::Sphere(unit_sphere(0, 0, -ONE, ONE / 2)),
        Hittable::Sphere(unit_sphere(0, -100 * ONE - ONE / 2, -ONE, 100 * ONE)),
    ]
}

fn bigger_collection() -> Vec<Hittable> {
    vec![
        Hittable::Sphere(unit_sphere(0, 0, -ONE, ONE / 2)),
        Hittable::Sphere(unit_sphere(2 * ONE, 0, -3 * ONE, ONE)),
        Hittable::Sphere(unit_sphere(-2 * ONE, ONE, -2 * ONE, ONE / 2)),
        Hittable::XyRect(XyRect {
            x0: -4 * ONE,
            x1: 4 * ONE,
            y0: -4 * ONE,
            y1: 4 * ONE,
            k: -6 * ONE,
            mp: lamb(gray(ONE)),
        }),
        Hittable::Sphere(unit_sphere(ONE, -ONE, -4 * ONE, ONE)),
    ]
}

#[test]
fn hierarchy_matches_linear_scan() {
    // the hierarchy and the flat list must report the same nearest hit
    let list = HittableList { objects: bigger_collection() };
    let bvh = Hittable::Bvh(BvhNode::creat(bigger_collection(), 0, ONE));
    let rays = [
        Ray { st: v(0, 0, 2 * ONE), dir: v(0, 0, -ONE), tm: 0 },
        Ray { st: v(2 * ONE, 0, 2 * ONE), dir: v(0, 0, -ONE), tm: 0 },
        Ray { st: v(0, 0, 2 * ONE), dir: v(6553, 0, -ONE), tm: 0 },
        Ray { st: v(0, 10 * ONE, 0), dir: v(0, -ONE, 0), tm: 0 },
        Ray { st: v(0, 0, 2 * ONE), dir: v(0, ONE, 0), tm: 0 },
        Ray { st: v(-2 * ONE, ONE, 3 * ONE), dir: v(0, 0, -ONE), tm: 0 },
    ];
    for r in rays {
        let from_list = list.hit(r, 66, 0x100_0000_0000).map(|(rec, _)| rec.t);
        let from_tree = bvh.hit(r, 66, 0x100_0000_0000).map(|(rec, _)| rec.t);
        assert_eq!(from_list, from_tree, "ray {:?}", r);
    }
}

#[test]
fn hierarchy_handles_one_and_two_element_collections() {
    let one_obj = vec![Hittable::Sphere(unit_sphere(0, 0, -ONE, ONE / 2))];
    let bvh1 = Hittable::Bvh(BvhNode::creat(one_obj, 0, ONE));
    let r = Ray { st: v(0, 0, ONE), dir: v(0, 0, -ONE), tm: 0 };
    assert!(bvh1.hit(r, 66, 0x100_0000_0000).is_some());
    let bvh2 = Hittable::Bvh(BvhNode::creat(two_sphere_collection(), 0, ONE));
    assert!(bvh2.hit(r, 66, 0x100_0000_0000).is_some());
}

#[test]
fn depth_exhaustion_returns_exact_black() {
    let world = HittableList { objects: two_sphere_collection() };
    let r = Ray { st: v(0, 0, 0), dir: v(0, 0, -ONE), tm: 0 };
    let bg = gray(ONE / 4);
    let c = ray_color(r, bg, &world, 0);
    assert_eq!((c.x, c.y, c.z), (0, 0, 0));
    let c2 = ray_color(r, bg, &world, -3);
    assert_eq!((c2.x, c2.y, c2.z), (0, 0, 0));
}

#[test]
fn radiance_is_never_negative() {
    let world = HittableList { objects: bigger_collection() };
    let bg = gray(ONE / 4);
    let rays = [
        Ray { st: v(0, 0, 2 * ONE), dir: v(0, 0, -ONE), tm: 0 },
        Ray { st: v(0, 0, 2 * ONE), dir: v(6553, -6553, -ONE), tm: 0 },
        Ray { st: v(0, 10 * ONE, 0), dir: v(0, -ONE, 0), tm: 0 },
    ];
    for r in rays {
        for depth in [1isize, 2, 5, MAXDEPTH] {
            let c = ray_color(r, bg, &world, depth);
            assert!(c.x >= 0 && c.y >= 0 && c.z >= 0);
        }
    }
}

#[test]
fn missing_everything_returns_the_background() {
    let world = HittableList { objects: two_sphere_collection() };
    let bg = v(ONE / 4, ONE / 2, ONE);
    let r = Ray { st: v(0, 0, 2 * ONE), dir: v(0, ONE, 0), tm: 0 };
    let c = ray_color(r, bg, &world, 10);
    assert_eq!((c.x, c.y, c.z), (bg.x, bg.y, bg.z));
}

#[test]
fn emissive_material_reaches_the_eye() {
    // a ray straight at a diffuse light picks up its emission
    let light = Material::DiffuseLight(DiffuseLight::creat_color(gray(2 * ONE)));
    let panel = Hittable::XyRect(XyRect {
        x0: -ONE,
        x1: ONE,
        y0: -ONE,
        y1: ONE,
        k: -3 * ONE,
        mp: light,
    });
    let world = HittableList { objects: vec![panel] };
    let r = Ray { st: v(0, 0, 0), dir: v(0, 0, -ONE), tm: 0 };
    let c = ray_color(r, gray(0), &world, 5);
    assert_eq!((c.x, c.y, c.z), (2 * ONE, 2 * ONE, 2 * ONE));
}

#[test]
fn dielectric_at_normal_incidence_passes_straight_through() {
    let mat = Material::Dielectric(Dielectric { ir: ONE });
    let rec = HitRecord {
        p: v(0, 0, -ONE / 2),
        normal: v(0, 0, ONE),
        t: ONE / 2,
        u: 0,
        v: 0,
        front_face: true,
    };
    let r_in = Ray { st: v(0, 0, ONE), dir: v(0, 0, -ONE), tm: 0 };
    let mut albedo = gray(0);
    let mut scattered = Ray { st: gray(0), dir: gray(0), tm: 0 };
    let mut pdf = 0i64;
    for _ in 0..16 {
        let ok = mat.scatter(r_in, rec, &mut albedo, &mut scattered, &mut pdf);
        assert!(ok);
        assert_eq!((albedo.x, albedo.y, albedo.z), (ONE, ONE, ONE));
        assert_eq!((scattered.dir.x, scattered.dir.y, scattered.dir.z), (0, 0, -ONE));
        assert_eq!((scattered.st.x, scattered.st.y, scattered.st.z), (0, 0, -ONE / 2));
    }
}

#[test]
fn metal_reflects_off_a_flat_mirror() {
    let mat = Material::Metal(Metal::creat(gray(ONE), 0));
    let rec = HitRecord {
        p: v(0, 0, 0),
        normal: v(0, ONE, 0),
        t: ONE,
        u: 0,
        v: 0,
        front_face: true,
    };
    let r_in = Ray { st: v(-ONE, ONE, 0), dir: v(ONE, -ONE, 0), tm: 0 };
    let mut albedo = gray(0);
    let mut scattered = Ray { st: gray(0), dir: gray(0), tm: 0 };
    let mut pdf = 0i64;
    let ok = mat.scatter(r_in, rec, &mut albedo, &mut scattered, &mut pdf);
    assert!(ok);
    assert!(scattered.dir.y > 0, "mirror must send the ray back up");
}

#[test]
fn lights_do_not_scatter() {
    let mat = Material::DiffuseLight(DiffuseLight::creat_color(gray(ONE)));
    let rec = HitRecord {
        p: v(0, 0, 0),
        normal: v(0, ONE, 0),
        t: ONE,
        u: 0,
        v: 0,
        front_face: true,
    };
    let r_in = Ray { st: v(0, ONE, 0), dir: v(0, -ONE, 0), tm: 0 };
    let mut albedo = gray(0);
    let mut scattered = Ray { st: gray(0), dir: gray(0), tm: 0 };
    let mut pdf = 0i64;
    assert!(!mat.scatter(r_in, rec, &mut albedo, &mut scattered, &mut pdf));
    // front face emits, back face is black
    let e = mat.emitted(r_in, rec, 0, 0, v(0, 0, 0));
    assert_eq!((e.x, e.y, e.z), (ONE, ONE, ONE));
    let back = HitRecord { front_face: false, ..rec };
    let eb = mat.emitted(r_in, back, 0, 0, v(0, 0, 0));
    assert_eq!((eb.x, eb.y, eb.z), (0, 0, 0));
}

#[test]
fn checker_texture_parity_and_axis_symmetry() {
    let even = v(ONE, 0, 0);
    let odd = v(0, ONE, 0);
    let tex = Texture::Checker(CheckerTexture::creat(even, odd));
    // all three sines positive: the even color
    let p_even = v(9830, 9830, 9830); // 0.15: sin(1.5) > 0
    let c1 = tex.value(0, 0, p_even);
    assert_eq!((c1.x, c1.y, c1.z), (even.x, even.y, even.z));
    // one sine negative: the odd color
    let p_odd = v(29491, 9830, 9830); // 0.45: sin(4.5) < 0
    let c2 = tex.value(0, 0, p_odd);
    assert_eq!((c2.x, c2.y, c2.z), (odd.x, odd.y, odd.z));
    // permuting which axis carries the offset does not change the parity
    let c3 = tex.value(0, 0, v(9830, 29491, 9830));
    let c4 = tex.value(0, 0, v(9830, 9830, 29491));
    assert_eq!((c3.x, c3.y, c3.z), (odd.x, odd.y, odd.z));
    assert_eq!((c4.x, c4.y, c4.z), (odd.x, odd.y, odd.z));
}

#[test]
fn noise_texture_stays_in_the_unit_range() {
    let tex = Texture::Noise(NoiseTexture::creat(ONE / 10));
    for i in 0..16 {
        let p = v(i * 1234, -i * 991, i * 333);
        let c = tex.value(0, 0, p);
        assert!(0 <= c.x && c.x <= ONE);
        assert_eq!(c.x, c.y);
        assert_eq!(c.y, c.z);
    }
}

#[test]
fn image_texture_validates_and_samples() {
    assert!(ImageTexture::creat(vec![0u8; 5], 2, 2).is_none());
    assert!(ImageTexture::creat(vec![0u8; 12], 0, 2).is_none());
    let data = vec![255u8, 0, 0, 0, 255, 0, 0, 0, 255, 255, 255, 255];
    let img = ImageTexture::creat(data, 2, 2).expect("consistent buffer");
    let tex = Texture::Image(img);
    // v = 1 selects the top row, u = 0 its left pixel: pure red
    let c = tex.value(0, ONE, v(0, 0, 0));
    assert_eq!((c.x, c.y, c.z), (255 * 257, 0, 0));
}

#[test]
fn solid_texture_returns_its_color() {
    let tex = Texture::Solid(SolidColor { color_value: v(ONE / 3, ONE / 5, ONE / 7) });
    let c = tex.value(ONE / 2, ONE / 2, v(ONE, ONE, ONE));
    assert_eq!((c.x, c.y, c.z), (ONE / 3, ONE / 5, ONE / 7));
}

#[test]
fn center_ray_hits_the_small_sphere_at_half_a_unit() {
    // two spheres, a 90-degree camera at the origin looking down -z:
    // the exact center ray strikes the small sphere at t ~ 0.5
    let world = HittableList { objects: two_sphere_collection() };
    let cam = Camera::creat(
        v(0, 0, 0),
        v(0, 0, -ONE),
        v(0, ONE, 0),
        90 * ONE,
        ONE * 16 / 9,
        0,
        ONE,
        0,
        ONE,
    );
    let r = cam.get_ray(ONE / 2, ONE / 2);
    assert_eq!(r.st.x, 0);
    let rec = world.hit(r, 66, 0x100_0000_0000).map(|(rec, _)| rec).expect("center hit");
    assert!(
        (rec.t - ONE / 2).abs() <= 64,
        "expected t ~ 0.5, got {} ({} in units)",
        rec.t,
        rec.t as f64 / 65536.0
    );
    // it is the small sphere: the hit point is near (0, 0, -0.5)
    assert!(rec.p.y.abs() < ONE / 8, "hit the ground sphere instead");
}

#[test]
fn camera_ray_times_stay_in_the_shutter_interval() {
    let cam = Camera::creat(
        v(0, 0, 0),
        v(0, 0, -ONE),
        v(0, ONE, 0),
        90 * ONE,
        ONE,
        ONE / 2,
        2 * ONE,
        ONE / 4,
        ONE / 2,
    );
    for _ in 0..32 {
        let r = cam.get_ray(ONE / 3, 2 * ONE / 3);
        assert!(cam.time0 <= r.tm && r.tm <= cam.time1);
    }
}

#[test]
fn uniform_draws_stay_in_range() {
    for _ in 0..256 {
        let u = random_double();
        assert!(0 <= u && u < ONE);
        let b = random_double_lr(-2 * ONE, 3 * ONE);
        assert!(-2 * ONE <= b && b <= 3 * ONE);
        let i = random_int_lr(0, 2);
        assert!(0 <= i && i <= 2);
    }
}

#[test]
fn draws_are_not_constant() {
    // would fail if the sampler handed back a fixed value
    let first = random_double();
    let mut varied = false;
    for _ in 0..64 {
        if random_double() != first {
            varied = true;
        }
    }
    assert!(varied, "64 identical uniform draws");
}

#[test]
fn tone_map_averages_and_gamma_corrects() {
    // 0.25 averaged over one sample, gamma corrected: sqrt(0.25) = 0.5 -> 128
    let (r, g, b) = write_color(v(ONE / 4, ONE, 0), 1);
    assert_eq!(r, 128);
    assert_eq!(g, 255);
    assert_eq!(b, 0);
    // averaging over four samples of accumulated 1.0 gives 0.25 again
    let (r4, _, _) = write_color(v(ONE, 0, 0), 4);
    assert_eq!(r4, 128);
}

#[test]
fn solve_renders_a_row_of_nonnegative_pixels() {
    let world = HittableList { objects: two_sphere_collection() };
    let cam = Camera::creat(
        v(0, 0, 0),
        v(0, 0, -ONE),
        v(0, ONE, 0),
        90 * ONE,
        ONE,
        0,
        ONE,
        0,
        ONE,
    );
    let (row, pixels) = solve(&cam, &world, 1, gray(ONE / 4), 2, 4, 4);
    assert_eq!(row, 1);
    assert_eq!(pixels.len(), 4);
    for p in pixels {
        assert!(p.x >= 0 && p.y >= 0 && p.z >= 0);
    }
}

#[test]
fn list_add_grows_the_collection() {
    let mut list = HittableList { objects: Vec::new() };
    assert!(list.hit(
        Ray { st: v(0, 0, 0), dir: v(0, 0, -ONE), tm: 0 },
        0,
        100 * ONE,
    ).is_none());
    list.add(Hittable::Sphere(unit_sphere(0, 0, -2 * ONE, ONE)));
    assert_eq!(list.objects.len(), 1);
    assert!(list.hit(
        Ray { st: v(0, 0, 0), dir: v(0, 0, -ONE), tm: 0 },
        0,
        100 * ONE,
    ).is_some());
}

#[test]
fn bounding_boxes_enclose_their_shapes() {
    let s = Hittable::Sphere(unit_sphere(ONE, 2 * ONE, 3 * ONE, ONE));
    let mut b = Aabb { min: gray(0), max: gray(0) };
    assert!(s.bounding_box(0, ONE, &mut b));
    assert!(b.min.x <= 0 && b.max.x >= 2 * ONE);
    assert!(b.min.y <= ONE && b.max.y >= 3 * ONE);
    assert!(b.min.z <= 2 * ONE && b.max.z >= 4 * ONE);
}

#[test]
fn fixed_point_product_and_quotient() {
    assert_eq!(fx_mul(3 * ONE, 2 * ONE), 6 * ONE);
    assert_eq!(fx_mul(ONE / 2, ONE / 2), ONE / 4);
    assert_eq!(fx_mul(-ONE, ONE / 2), -ONE / 2);
    assert_eq!(fx_div(6 * ONE, 2 * ONE), 3 * ONE);
    assert_eq!(fx_div(ONE, 3), ONE * ONE / 3);
}

#[test]
fn orthonormal_basis_points_along_its_normal() {
    let mut basis = Onb::default();
    basis.build_from_w(v(0, 0, 3 * ONE));
    assert_eq!((basis.w().x, basis.w().y, basis.w().z), (0, 0, ONE));
    // local coordinates (0,0,1) map back onto w
    let out = basis.local(0, 0, ONE);
    assert_eq!((out.x, out.y, out.z), (0, 0, ONE));
    let lv = basis.local_vec(v(0, 0, ONE));
    assert_eq!((lv.x, lv.y, lv.z), (0, 0, ONE));
    // the three accessor methods agree with the stored frame
    assert_eq!(basis.u(), basis.ax_u);
    assert_eq!(basis.v(), basis.ax_v);
}

#[test]
fn cosine_density_favors_the_axis() {
    let p = CosinePdf::creat(v(0, 0, ONE));
    // along the axis the density is cos(0)/pi ~ 0.318
    let along = p.value(v(0, 0, ONE));
    assert!((along - 20860).abs() < 256, "density along w = {}", along);
    // behind the surface it vanishes
    assert_eq!(p.value(v(0, 0, -ONE)), 0);
    for _ in 0..32 {
        let d = random_cosine_direction();
        assert!(d.z >= 0);
        assert!(d.x.abs() <= ONE && d.y.abs() <= ONE);
        let g = p.generate();
        assert!(g.x.abs() <= 3 * ONE && g.y.abs() <= 3 * ONE && g.z.abs() <= 3 * ONE);
    }
}

#[test]
fn rejection_samplers_stay_in_their_regions() {
    for _ in 0..64 {
        let s = random_in_unit_sphere();
        assert!(dot(s, s) < ONE && !(s.x == 0 && s.y == 0 && s.z == 0));
        let d = random_in_unit_disk();
        assert_eq!(d.z, 0);
        assert!(dot(d, d) < ONE);
        let u = random_unit_vector();
        let l2 = dot(u, u);
        assert!((l2 - ONE).abs() < 2048, "unit vector length^2 = {}", l2);
    }
}

#[test]
fn perlin_noise_is_bounded_and_turbulence_nonnegative() {
    let p = Perlin::default();
    for i in 0..8 {
        let pt = v(i * 7919, 13 * i * 31, -i * 523);
        let n = p.noise(pt);
        assert!(n.abs() <= 0x40_0000);
        let t = p.turb(pt, 7);
        assert!(0 <= t && t <= 0x80_0000);
    }
}

#[test]
fn metal_fuzz_is_clamped_to_one() {
    let m = Metal::creat(gray(ONE), 5 * ONE);
    assert_eq!(m.fuzz, ONE);
    let m2 = Metal::creat(gray(ONE), ONE / 4);
    assert_eq!(m2.fuzz, ONE / 4);
}

#[test]
fn duplicated_materials_behave_like_their_source() {
    let source = lamb(v(ONE / 2, ONE / 4, ONE / 8));
    let copy = source.duplicate();
    let rec = HitRecord {
        p: v(0, 0, 0),
        normal: v(0, ONE, 0),
        t: ONE,
        u: ONE / 2,
        v: ONE / 2,
        front_face: true,
    };
    let r_in = Ray { st: v(0, ONE, 0), dir: v(0, -ONE, 0), tm: 0 };
    let mut alb1 = gray(0);
    let mut alb2 = gray(0);
    let mut sc = Ray { st: gray(0), dir: gray(0), tm: 0 };
    let mut pdf = 0i64;
    assert!(source.scatter(r_in, rec, &mut alb1, &mut sc, &mut pdf));
    assert!(copy.scatter(r_in, rec, &mut alb2, &mut sc, &mut pdf));
    assert_eq!((alb1.x, alb1.y, alb1.z), (alb2.x, alb2.y, alb2.z));
}

#[test]
fn moving_sphere_box_covers_both_keyframes() {
    let ms = Hittable::MovingSphere(MovingSphere {
        center0: v(0, 0, 0),
        center1: v(10 * ONE, 0, 0),
        time0: 0,
        time1: ONE,
        radius: ONE,
        mat_ptr: lamb(gray(ONE)),
    });
    let mut b = Aabb { min: gray(0), max: gray(0) };
    assert!(ms.bounding_box(0, ONE, &mut b));
    assert!(b.min.x <= -ONE && b.max.x >= 11 * ONE);
}

#[test]
fn scattering_density_of_a_diffuse_surface() {
    let mat = lamb(gray(ONE / 2));
    let rec = HitRecord {
        p: v(0, 0, 0),
        normal: v(0, ONE, 0),
        t: ONE,
        u: 0,
        v: 0,
        front_face: true,
    };
    let r_in = Ray { st: v(0, ONE, 0), dir: v(0, -ONE, 0), tm: 0 };
    // straight along the normal: cos(0)/pi ~ 0.318
    let up = Ray { st: v(0, 0, 0), dir: v(0, ONE, 0), tm: 0 };
    let d = mat.scattering_pdf(r_in, rec, up);
    assert!((d - 20860).abs() < 256, "density = {}", d);
    // behind the surface the density clamps to zero
    let down = Ray { st: v(0, 0, 0), dir: v(0, -ONE, 0), tm: 0 };
    assert_eq!(mat.scattering_pdf(r_in, rec, down), 0);
}

#[test]
fn accessors_return_their_fields() {
    let p = v(ONE, 2 * ONE, 3 * ONE);
    assert_eq!((p.x(), p.y(), p.z()), (ONE, 2 * ONE, 3 * ONE));
    assert_eq!(p.axis(0), ONE);
    assert_eq!(p.axis(1), 2 * ONE);
    assert_eq!(p.axis(2), 3 * ONE);
    assert!(!p.near_zero());
    assert!(v(0, 0, 0).near_zero());
    assert_eq!(p.length_squared(), 14 * ONE);
    let l = v(3 * ONE, 4 * ONE, 0).length();
    assert_eq!(l, 5 * ONE);
    let r = Ray { st: v(0, 0, ONE), dir: v(0, 0, -ONE), tm: 7 };
    assert_eq!(r.get_start(), v(0, 0, ONE));
    assert_eq!(r.get_dir(), v(0, 0, -ONE));
    assert_eq!(r.get_time(), 7);
    let at = r.at(ONE / 2);
    assert_eq!((at.x, at.y, at.z), (0, 0, ONE / 2));
    let b = Aabb { min: v(0, 0, 0), max: v(ONE, ONE, ONE) };
    assert_eq!(b.min(), v(0, 0, 0));
    assert_eq!(b.max(), v(ONE, ONE, ONE));
}

#[test]
fn random_vectors_cover_their_ranges() {
    for _ in 0..16 {
        let a = Vec3::random();
        assert!(0 <= a.x && a.x < ONE && 0 <= a.y && a.y < ONE && 0 <= a.z && a.z < ONE);
        let b = Vec3::random_lr(-ONE, ONE);
        assert!(-ONE <= b.x && b.x <= ONE);
    }
}

#[test]
fn list_bounding_box_spans_all_members() {
    let list = HittableList { objects: two_sphere_collection() };
    let mut b = Aabb { min: gray(0), max: gray(0) };
    assert!(list.bounding_box(0, ONE, &mut b));
    // the ground sphere dominates the extent
    assert!(b.min.y <= -200 * ONE && b.max.x >= 99 * ONE);
    let empty = HittableList { objects: Vec::new() };
    assert!(!empty.bounding_box(0, ONE, &mut b));
}

#[test]
fn metal_fuzz_clamps_both_ends() {
    // the clamp maps negative fuzz to zero and caps at one
    let low = Metal::creat(gray(ONE), -3 * ONE);
    assert_eq!(low.fuzz, 0);
    let high = Metal::creat(gray(ONE), 5 * ONE);
    assert_eq!(high.fuzz, ONE);
}

#[test]
fn closed_aperture_rays_are_deterministic() {
    let cam = Camera::creat(
        v(0, 0, 0),
        v(0, 0, -ONE),
        v(0, ONE, 0),
        90 * ONE,
        ONE,
        0,
        ONE,
        0,
        ONE,
    );
    let a = cam.get_ray(ONE / 3, 2 * ONE / 3);
    let b = cam.get_ray(ONE / 3, 2 * ONE / 3);
    assert_eq!(a.st, b.st);
    assert_eq!(a.dir, b.dir);
    assert_eq!(a.st, v(0, 0, 0));
}

#[test]
fn rotation_accepts_wide_angles() {
    // angles beyond a quarter turn, as the scene builders use
    let s = Hittable::Sphere(unit_sphere(0, 0, 0, ONE));
    let ro = RotateY::creat(s, -18 * ONE);
    let h = Hittable::RotateY(ro);
    let r = Ray { st: v(0, 0, 2 * ONE), dir: v(0, 0, -ONE), tm: 0 };
    let (rec, _m) = h.hit(r, 0, 100 * ONE).expect("centered sphere still hit");
    assert!((rec.t - ONE).abs() <= 64);
}

#[test]
fn thinnest_medium_density_is_accepted() {
    let boundary = Hittable::Sphere(unit_sphere(0, 0, 0, ONE));
    let cm = Hittable::ConstantMedium(ConstantMedium::creat2(boundary, 1, gray(ONE / 2)));
    let r = Ray { st: v(0, 0, 2 * ONE), dir: v(0, 0, -ONE), tm: 0 };
    // an almost-vacuum medium rarely scatters; any report lies in the window
    for _ in 0..8 {
        if let Some((rec, _m)) = cm.hit(r, 0, 100 * ONE) {
            assert!(0 < rec.t && rec.t <= 100 * ONE);
        }
    }
}

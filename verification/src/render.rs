//! The recursive Monte-Carlo integrator and the per-scanline and per-pixel
//! computations around it.

use crate::camera::{camera_ok, Camera};
use crate::fixed::{clamp, div_floor, fx_abs, fx_sqrt, lemma_div_bounded};
use crate::hittable_list::{list_det, list_ts, list_wf, HittableList};
use crate::material::Material;
use crate::ray::{ray_ok, Ray};
use crate::rng::{random_double, random_double_lr};
use crate::texture::color_ok;
use crate::vec3::{dot, unit_vector, vec_ok, Color, Point3, Vec3};
use vstd::prelude::*;

verus! {

/// The recursion bound of the integrator.
pub const MAXDEPTH: isize = 50;

/// The radiance the ray gathers from the scene: emission plus one
/// importance-sampled bounce toward the scene's rectangular light.
///
/// Every component of the result is non-negative and bounded, and a ray
/// whose depth budget is exhausted gathers exactly black.
pub fn ray_color(r: Ray, background: Color, world: &HittableList, depth: isize) -> (res: Color)
    requires
        list_wf(world.objects@),
        ray_ok(r),
        -0x100_0000_0000 <= r.tm <= 0x100_0000_0000,
        color_ok(background),
    ensures
        color_ok(res),
        depth <= 0 ==> res == (Color { x: 0, y: 0, z: 0 }),
        depth > 0 && list_det(world.objects@) && !crate::nearest::has_hit(
            list_ts(world.objects@, r),
            66,
            0x100_0000_0000,
        ) ==> res == background,
    decreases depth, 1int,
{
    if depth <= 0 {
        return Color { x: 0, y: 0, z: 0 };
    }
    let hit = world.hit(r, 66, 0x100_0000_0000);
    match hit {
        None => background,
        Some((rec, mat)) => shade(r, rec, mat, background, world, depth),
    }
}

/// The radiance gathered at one surface interaction: the material's own
/// emission, plus — when the surface scatters and the light sample is usable
/// — one importance-sampled bounce toward the scene's rectangular light
/// (spec steps: emission only on a no-scatter material, a light behind the
/// surface, or an edge-on sample; otherwise emission plus the attenuated
/// recursive radiance over the sample's density).
pub fn shade(
    r: Ray,
    rec: crate::hittable::HitRecord,
    mat: &Material,
    background: Color,
    world: &HittableList,
    depth: isize,
) -> (res: Color)
    requires
        depth >= 1,
        list_wf(world.objects@),
        ray_ok(r),
        -0x100_0000_0000 <= r.tm <= 0x100_0000_0000,
        color_ok(background),
        crate::material::mat_ok(*mat),
        crate::hittable::rec_ok(rec),
    ensures
        color_ok(res),
        // a light never scatters: the result is exactly its emission,
        // whatever was drawn
        *mat matches Material::DiffuseLight(dl) ==> (crate::texture::is_solid(dl.emit) ==> res
            == (if rec.front_face {
            crate::texture::solid_value(dl.emit)
        } else {
            Color { x: 0, y: 0, z: 0 }
        })),
        // a diffuse surface with a degenerate normal cannot scatter and
        // emits nothing
        *mat matches Material::Lambertian(_) && rec.normal == (Vec3 { x: 0, y: 0, z: 0 }) ==> res
            == (Color { x: 0, y: 0, z: 0 }),
    decreases depth, 0int,
{
    {
        {
            let emitted = mat.emitted(r, rec, rec.u, rec.v, rec.p);
            let mut scattered: Ray = Default::default();
            let mut albedo: Color = Vec3 { x: 0, y: 0, z: 0 };
            let mut pdf: i64 = 0;
            let scattered_ok = mat.scatter(r, rec, &mut albedo, &mut scattered, &mut pdf);
            if !scattered_ok {
                return emitted;
            }
            // sample a point on the known rectangular light
            let on_light = Point3 {
                x: random_double_lr(213 * 65536, 343 * 65536),
                y: 554 * 65536,
                z: random_double_lr(227 * 65536, 332 * 65536),
            };
            let to_light0 = Vec3 {
                x: clamp(on_light.x - rec.p.x, -0x40_0000_0000, 0x40_0000_0000),
                y: clamp(on_light.y - rec.p.y, -0x40_0000_0000, 0x40_0000_0000),
                z: clamp(on_light.z - rec.p.z, -0x40_0000_0000, 0x40_0000_0000),
            };
            if to_light0.x == 0 && to_light0.y == 0 && to_light0.z == 0 {
                return emitted;
            }
            let distance_squared = to_light0.length_squared();
            proof {
                if to_light0 == (Vec3 { x: 0, y: 0, z: 0 }) {
                    assert(to_light0.x == 0);
                }
            }
            let to_light = unit_vector(to_light0);
            proof {
                crate::vec3::lemma_dot_fits(to_light, rec.normal);
            }
            if dot(to_light, rec.normal) < 0 {
                return emitted;
            }
            let light_area: i64 = 130 * 105 * 65536;
            let light_cosine = fx_abs(to_light.y);
            if light_cosine < 1 {
                return emitted;
            }
            proof {
                assert(0 < light_cosine as int * light_area as int <= 0x4000_0000_0000)
                    by (nonlinear_arith)
                    requires
                        1 <= light_cosine as int <= 65536,
                        light_area == 130 * 105 * 65536,
                ;
                lemma_div_bounded(
                    light_cosine as int * light_area as int,
                    65536,
                    0x4000_0000_0000,
                );
                vstd::arithmetic::div_mod::lemma_div_pos_is_pos(
                    light_cosine as int * light_area as int,
                    65536,
                );
            }
            let denom = div_floor(
                (light_cosine as i128) * (light_area as i128),
                65536,
            ) as i64;
            if denom <= 0 {
                return emitted;
            }
            proof {
                crate::vec3::lemma_dot_fits(to_light0, to_light0);
                assert(0 <= distance_squared as int * 65536 <= 0x4000_0000_0000_0000_0000)
                    by (nonlinear_arith)
                    requires
                        0 <= distance_squared as int <= 0x3000_0000_0000_0000,
                ;
                lemma_div_bounded(
                    distance_squared as int * 65536,
                    denom as int,
                    0x4000_0000_0000_0000_0000,
                );
            }
            let pdf128 = div_floor((distance_squared as i128) * 65536, denom as i128);
            if pdf128 <= 0 {
                return emitted;
            }
            let pdfc: i128 = if pdf128 > 0x4000_0000_0000_0000 {
                0x4000_0000_0000_0000
            } else {
                pdf128
            };
            let scattered2 = Ray { st: rec.p, dir: to_light, tm: r.get_time() };
            let spdf = mat.scattering_pdf(r, rec, scattered2);
            let bounce = ray_color(scattered2, background, world, depth - 1);
            let cx = attenuate(albedo.x, spdf, bounce.x, pdfc);
            let cy = attenuate(albedo.y, spdf, bounce.y, pdfc);
            let cz = attenuate(albedo.z, spdf, bounce.z, pdfc);
            Color {
                x: clamp(emitted.x + cx, 0, 0x4000_0000),
                y: clamp(emitted.y + cy, 0, 0x4000_0000),
                z: clamp(emitted.z + cz, 0, 0x4000_0000),
            }
        }
    }
}

/// The bounce contribution as a mathematical function: the floored chain
/// `albedo * density / 1 * bounce / 1 / pdf`, saturated at the radiance cap.
pub open spec fn attenuate_spec(alb: int, spdf: int, bounce: int, pdf: int) -> int {
    crate::fixed::min_s(alb * spdf / 65536 * bounce / 65536 * 65536 / pdf, 0x4000_0000)
}

/// One component of the bounce contribution:
/// `albedo * scattering_density * bounce / pdf`, non-negative and bounded.
fn attenuate(alb: i64, spdf: i64, bounce: i64, pdf: i128) -> (res: i64)
    requires
        0 <= alb <= 0x4000_0000,
        0 <= spdf <= 65536,
        0 <= bounce <= 0x4000_0000,
        0 < pdf <= 0x4000_0000_0000_0000,
    ensures
        res == attenuate_spec(alb as int, spdf as int, bounce as int, pdf as int),
        0 <= res <= 0x4000_0000,
{
    proof {
        assert(0 <= alb as int * spdf as int <= 0x4000_0000_0000_0000) by (nonlinear_arith)
            requires
                0 <= alb as int <= 0x4000_0000,
                0 <= spdf as int <= 65536,
        ;
        lemma_div_bounded(alb as int * spdf as int, 65536, 0x4000_0000_0000_0000);
        vstd::arithmetic::div_mod::lemma_div_pos_is_pos(alb as int * spdf as int, 65536);
    }
    let a = div_floor((alb as i128) * (spdf as i128), 65536);
    proof {
        assert(0 <= a * bounce as int <= 0x1000_0000_0000_0000_0000_0000) by (nonlinear_arith)
            requires
                0 <= a <= 0x4000_0000_0000_0000,
                0 <= bounce as int <= 0x4000_0000,
        ;
        lemma_div_bounded(a * bounce as int, 65536, 0x1000_0000_0000_0000_0000_0000);
        vstd::arithmetic::div_mod::lemma_div_pos_is_pos(a * bounce as int, 65536);
    }
    let b = div_floor(a * (bounce as i128), 65536);
    proof {
        assert(0 <= b * 65536 <= 0x1000_0000_0000_0000_0000_0000_0000) by (nonlinear_arith)
            requires
                0 <= b <= 0x1000_0000_0000_0000_0000_0000,
        ;
        lemma_div_bounded(b * 65536, pdf as int, 0x1000_0000_0000_0000_0000_0000_0000);
        vstd::arithmetic::div_mod::lemma_div_pos_is_pos(b * 65536, pdf as int);
    }
    let c = div_floor(b * 65536, pdf);
    if c > 0x4000_0000 {
        0x4000_0000
    } else {
        c as i64
    }
}

/// One full scanline: every pixel, every sample.
pub fn solve(
    cam: &Camera,
    world: &HittableList,
    j: usize,
    background: Color,
    samples_per_pixel: usize,
    image_width: usize,
    image_height: usize,
) -> (res: (usize, Vec<Color>))
    requires
        camera_ok(*cam),
        list_wf(world.objects@),
        color_ok(background),
        2 <= image_width <= 4096,
        2 <= image_height <= 4096,
        1 <= samples_per_pixel <= 4096,
        j < image_height,
    ensures
        res.0 == j,
        res.1@.len() == image_width,
        forall|i: int|
            0 <= i < image_width ==> 0 <= (#[trigger] res.1@[i]).x <= 0x1000_0000_0000_0000 && 0
                <= res.1@[i].y <= 0x1000_0000_0000_0000 && 0 <= res.1@[i].z
                <= 0x1000_0000_0000_0000,
        // a deterministic scene that no camera ray can hit accumulates
        // exactly the background, once per sample
        list_det(world.objects@) && (forall|r2: Ray|
            ray_ok(r2) && -0x100_0000_0000 <= r2.tm <= 0x100_0000_0000 ==> !crate::nearest::has_hit(
                list_ts(world.objects@, r2),
                66,
                0x100_0000_0000,
            )) ==> forall|i: int|
            0 <= i < image_width ==> (#[trigger] res.1@[i]).x == samples_per_pixel * background.x
                && res.1@[i].y == samples_per_pixel * background.y && res.1@[i].z
                == samples_per_pixel * background.z,
{
    let mut ret: Vec<Color> = Vec::new();
    let mut i: usize = 0;
    while i < image_width
        invariant
            camera_ok(*cam),
            list_wf(world.objects@),
            color_ok(background),
            2 <= image_width <= 4096,
            2 <= image_height <= 4096,
            1 <= samples_per_pixel <= 4096,
            j < image_height,
            i <= image_width,
            ret@.len() == i,
            forall|q: int|
                0 <= q < i ==> 0 <= (#[trigger] ret@[q]).x <= 0x1000_0000_0000_0000 && 0
                    <= ret@[q].y <= 0x1000_0000_0000_0000 && 0 <= ret@[q].z
                    <= 0x1000_0000_0000_0000,
            list_det(world.objects@) && (forall|r2: Ray|
                ray_ok(r2) && -0x100_0000_0000 <= r2.tm <= 0x100_0000_0000
                    ==> !crate::nearest::has_hit(
                    list_ts(world.objects@, r2),
                    66,
                    0x100_0000_0000,
                )) ==> forall|q: int|
                0 <= q < i ==> (#[trigger] ret@[q]).x == samples_per_pixel * background.x
                    && ret@[q].y == samples_per_pixel * background.y && ret@[q].z
                    == samples_per_pixel * background.z,
        decreases image_width - i,
    {
        let mut pixel_color: Color = Vec3 { x: 0, y: 0, z: 0 };
        let mut s: usize = 0;
        while s < samples_per_pixel
            invariant
                camera_ok(*cam),
                list_wf(world.objects@),
                color_ok(background),
                2 <= image_width <= 4096,
                2 <= image_height <= 4096,
                1 <= samples_per_pixel <= 4096,
                j < image_height,
                i < image_width,
                s <= samples_per_pixel,
                0 <= pixel_color.x <= s * 0x4000_0000,
                0 <= pixel_color.y <= s * 0x4000_0000,
                0 <= pixel_color.z <= s * 0x4000_0000,
                list_det(world.objects@) && (forall|r2: Ray|
                    ray_ok(r2) && -0x100_0000_0000 <= r2.tm <= 0x100_0000_0000
                        ==> !crate::nearest::has_hit(
                        list_ts(world.objects@, r2),
                        66,
                        0x100_0000_0000,
                    )) ==> pixel_color.x == s * background.x && pixel_color.y == s * background.y
                    && pixel_color.z == s * background.z,
            decreases samples_per_pixel - s,
        {
            let u = sample_frac(i, image_width);
            let v = sample_frac(j, image_height);
            let r = cam.get_ray(u, v);
            let c = ray_color(r, background, world, MAXDEPTH);
            proof {
                assert((s + 1) * 0x4000_0000 == s * 0x4000_0000 + 0x4000_0000)
                    by (nonlinear_arith)
                ;
                assert(s as int * 0x4000_0000 <= 4096 * 0x4000_0000) by (nonlinear_arith)
                    requires
                        0 <= s as int <= 4096,
                ;
                assert((s + 1) * background.x == s * background.x + background.x
                    && (s + 1) * background.y == s * background.y + background.y && (s + 1)
                    * background.z == s * background.z + background.z) by (nonlinear_arith)
                ;
            }
            pixel_color = Vec3 {
                x: pixel_color.x + c.x,
                y: pixel_color.y + c.y,
                z: pixel_color.z + c.z,
            };
            s = s + 1;
        }
        proof {
            assert(samples_per_pixel as int * 0x4000_0000 <= 0x1000_0000_0000_0000)
                by (nonlinear_arith)
                requires
                    samples_per_pixel <= 4096,
            ;
        }
        ret.push(pixel_color);
        i = i + 1;
    }
    (j, ret)
}

/// The jittered normalized image coordinate of pixel `i` out of `n`.
fn sample_frac(i: usize, n: usize) -> (r: i64)
    requires
        2 <= n <= 4096,
        i < n,
    ensures
        0 <= r <= 65536,
{
    let num = (i as i64) * 65536 + random_double();
    proof {
        assert(0 <= num as int <= 4096 * 65536) by (nonlinear_arith)
            requires
                0 <= i as int <= 4095,
                num as int == i as int * 65536 + (num as int - i as int * 65536),
                0 <= num as int - i as int * 65536 < 65536,
        ;
        lemma_div_bounded(num as int, (n - 1) as int, 0x1000_0000);
    }
    let q = div_floor(num as i128, (n as i128) - 1) as i64;
    clamp(q, 0, 65536)
}

/// Tone-maps an accumulated pixel: average over the samples, gamma-correct
/// by square root, clamp, and scale to a byte.
pub fn write_color(pixel_color: Color, samples_per_pixel: usize) -> (rgb: (u8, u8, u8))
    requires
        1 <= samples_per_pixel <= 4096,
        0 <= pixel_color.x <= 0x1000_0000_0000_0000,
        0 <= pixel_color.y <= 0x1000_0000_0000_0000,
        0 <= pixel_color.z <= 0x1000_0000_0000_0000,
    ensures
        rgb.0 as int == tone_spec(pixel_color.x as int, samples_per_pixel as int),
        rgb.1 as int == tone_spec(pixel_color.y as int, samples_per_pixel as int),
        rgb.2 as int == tone_spec(pixel_color.z as int, samples_per_pixel as int),
{
    (
        tone_map(pixel_color.x, samples_per_pixel),
        tone_map(pixel_color.y, samples_per_pixel),
        tone_map(pixel_color.z, samples_per_pixel),
    )
}

/// One channel of the tone map, as a mathematical function: average over
/// the samples, gamma-correct by square root, clamp just below one, scale
/// to a byte.
pub open spec fn tone_spec(c: int, samples: int) -> int {
    let g = crate::fixed::isqrt_spec(((c / samples) * 65536) as nat) as int;
    if g > 65470 {
        255
    } else {
        g / 256
    }
}

/// One channel of the tone map.
fn tone_map(c: i64, samples: usize) -> (b: u8)
    requires
        1 <= samples <= 4096,
        0 <= c <= 0x1000_0000_0000_0000,
    ensures
        b as int == tone_spec(c as int, samples as int),
{
    proof {
        lemma_div_bounded(c as int, samples as int, 0x1000_0000_0000_0000);
        vstd::arithmetic::div_mod::lemma_div_pos_is_pos(c as int, samples as int);
    }
    let avg = div_floor(c as i128, samples as i128) as i64;
    let g = fx_sqrt(avg);
    let scaled = clamp(g, 0, 65470);
    proof {
        lemma_div_bounded(scaled as int, 256, 65470);
        vstd::arithmetic::div_mod::lemma_div_pos_is_pos(scaled as int, 256);
        vstd::arithmetic::div_mod::lemma_div_is_ordered(scaled as int, 65470, 256);
    }
    let byte = div_floor(scaled as i128, 256) as i64;
    if g > 65470 {
        255u8
    } else {
        byte as u8
    }
}

} // verus!

//! Materials: how a surface scatters, what it emits, and the density of its
//! scattering strategy.

use crate::fixed::{clamp, fmax, fmin, fx_div, fx_sqrt, FX_ONE, FX_PI};
use crate::hittable::HitRecord;
use crate::onb::Onb;
use crate::pdf::random_cosine_direction;
use crate::ray::Ray;
use crate::rng::random_double;
use crate::texture::{color_ok, is_solid, solid_value, tex_ok, SolidColor, Texture};
use crate::vec3::{
    dot, dot_spec, fxm, random_in_unit_sphere, reflect, reflect_spec, refract, unit_spec,
    unit_vector, vec_ok, Color, Point3, Vec3,
};
use vstd::prelude::*;

verus! {

pub struct Lambertian {
    pub albedo: Texture,
}

#[derive(Clone, Copy)]
pub struct Metal {
    pub albedo: Color,
    pub fuzz: i64,
}

#[derive(Clone, Copy)]
pub struct Dielectric {
    pub ir: i64,
}

pub struct DiffuseLight {
    pub emit: Texture,
}

pub struct Isotropic {
    pub albedo: Texture,
}

pub enum Material {
    Lambertian(Lambertian),
    Metal(Metal),
    Dielectric(Dielectric),
    DiffuseLight(DiffuseLight),
    Isotropic(Isotropic),
}

/// A well-formed material: textures in range, fuzz within one, an index of
/// refraction that is positive and sane.
pub open spec fn mat_ok(m: Material) -> bool {
    match m {
        Material::Lambertian(l) => tex_ok(l.albedo),
        Material::Metal(me) => color_ok(me.albedo) && 0 <= me.fuzz <= 65536,
        Material::Dielectric(d) => 65536 <= d.ir <= 0x100_0000,
        Material::DiffuseLight(dl) => tex_ok(dl.emit),
        Material::Isotropic(i) => tex_ok(i.albedo),
    }
}

/// What a scatter result promises: the new ray starts at the hit point,
/// keeps the incoming time, and has a bounded non-degenerate direction.
pub open spec fn scattered_ok(rec: HitRecord, r_in: Ray, s: Ray) -> bool {
    &&& s.st == rec.p
    &&& s.tm == r_in.tm
    &&& vec_ok(s.dir)
    &&& -0x4000_0000 <= s.dir.x <= 0x4000_0000
    &&& -0x4000_0000 <= s.dir.y <= 0x4000_0000
    &&& -0x4000_0000 <= s.dir.z <= 0x4000_0000
}

impl Lambertian {
    pub fn creat(c: Color) -> (r: Lambertian)
        ensures
            r.albedo == Texture::Solid(SolidColor { color_value: c }),
    {
        Lambertian { albedo: Texture::Solid(SolidColor { color_value: c }) }
    }
}

impl Metal {
    pub fn creat(a: Color, f: i64) -> (r: Metal)
        ensures
            r.albedo == a,
            r.fuzz == crate::fixed::clamp_s(f as int, 0, 65536),
    {
        let ff = if f < 0 {
            0
        } else if f < 65536 {
            f
        } else {
            65536
        };
        Metal { albedo: a, fuzz: ff }
    }
}

impl DiffuseLight {
    pub fn creat_color(c: Color) -> (r: DiffuseLight)
        ensures
            r.emit == Texture::Solid(SolidColor { color_value: c }),
    {
        DiffuseLight { emit: Texture::Solid(SolidColor { color_value: c }) }
    }

    pub fn creat_ptr(c: Texture) -> (r: DiffuseLight)
        ensures
            r.emit == c,
    {
        DiffuseLight { emit: c }
    }
}

impl Isotropic {
    pub fn creat(c: Color) -> (r: Isotropic)
        ensures
            r.albedo == Texture::Solid(SolidColor { color_value: c }),
    {
        Isotropic { albedo: Texture::Solid(SolidColor { color_value: c }) }
    }
}

/// The value the fixed-point Schlick computation produces:
/// `r0 + (1 - r0) * (1 - cosine)^5` with `r0 = ((1 - ir)/(1 + ir))^2`, each
/// product floored and clamped as the evaluation clamps it.
pub open spec fn reflectance_spec(cosine: int, ref_idx: int) -> int {
    let r0 = crate::fixed::clamp_s((65536 - ref_idx) * 65536 / (65536 + ref_idx), -65536, 65536);
    let r0sq = crate::fixed::clamp_s(r0 * r0 / 65536, 0, 65536);
    let base = crate::fixed::clamp_s(65536 - cosine, 0, 0x100_0000);
    let b2 = crate::fixed::clamp_s(base * base / 65536, 0, 0x4000_0000);
    let b4 = crate::fixed::clamp_s(b2 * b2 / 65536, 0, 0x4000_0000);
    let b5 = crate::fixed::clamp_s(b4 * base / 65536, 0, 0x4000_0000);
    let tail = crate::fixed::clamp_s((65536 - r0sq) * b5 / 65536, 0, 65536 - r0sq);
    crate::fixed::clamp_s(r0sq + tail, 0, 65536)
}

/// Schlick's reflectance approximation, within `[0, 1]`.
fn reflectance(cosine: i64, ref_idx: i64) -> (r: i64)
    requires
        -0x80_0000 <= cosine <= 65536,
        0 <= ref_idx <= 0x100_0000,
    ensures
        r == reflectance_spec(cosine as int, ref_idx as int),
        0 <= r <= 65536,
        cosine == 65536 && ref_idx == 65536 ==> r == 0,
{
    proof {
        assert(-0x1000_0000_0000 <= (65536 - ref_idx as int) * 65536 <= 0x1000_0000_0000)
            by (nonlinear_arith)
            requires
                0 <= ref_idx as int <= 0x100_0000;
        crate::fixed::lemma_div_bounded(
            (65536 - ref_idx as int) * 65536,
            65536 + ref_idx as int,
            0x1000_0000_0000,
        );
    }
    let r0 = fx_div(65536 - ref_idx, 65536 + ref_idx);
    let r0c = clamp(r0, -65536, 65536);
    let r0sq = clamp(mul_bounded(r0c, r0c), 0, 65536);
    let base = clamp(65536 - cosine, 0, 0x100_0000);
    let b2 = clamp(mul_bounded(base, base), 0, 0x4000_0000);
    let b4 = clamp(mul_bounded(b2, b2), 0, 0x4000_0000);
    let b5 = clamp(mul_bounded(b4, base), 0, 0x4000_0000);
    let tail = clamp(mul_bounded(65536 - r0sq, b5), 0, 65536 - r0sq);
    proof {
        if cosine == 65536 && ref_idx == 65536 {
            assert(r0 == 0) by {
                assert((0 as int) * 65536 / (131072 as int) == 0);
            }
            assert(r0sq == 0) by {
                assert((0 as int) * 0 / 65536 == 0) by (nonlinear_arith);
            }
            assert(base == 0);
            assert(b2 == 0) by {
                assert((0 as int) * 0 / 65536 == 0) by (nonlinear_arith);
            }
            assert(b4 == 0) by {
                assert((0 as int) * 0 / 65536 == 0) by (nonlinear_arith);
            }
            assert(b5 == 0) by {
                assert((0 as int) * 0 / 65536 == 0) by (nonlinear_arith);
            }
            assert(tail == 0) by {
                assert((65536 - r0sq as int) * 0 / 65536 == 0) by (nonlinear_arith);
            }
        }
    }
    clamp(r0sq + tail, 0, 65536)
}

/// A product with a zero factor vanishes (and so does its quotient).
proof fn lemma_mul_zero_right(a: int)
    ensures
        a * 0 == 0,
        a * 0 / 65536 == 0,
{
    assert(a * 0 == 0) by (nonlinear_arith);
    assert((0 as int) / 65536 == 0);
}

/// Fixed-point product with moderate operands.
fn mul_bounded(a: i64, b: i64) -> (r: i64)
    requires
        -0x4000_0000 <= a <= 0x4000_0000,
        -0x4000_0000 <= b <= 0x4000_0000,
    ensures
        r == a as int * b as int / 65536,
{
    proof {
        assert(-0x1000_0000_0000_0000 <= a as int * b as int <= 0x1000_0000_0000_0000)
            by (nonlinear_arith)
            requires
                -0x4000_0000 <= a as int <= 0x4000_0000,
                -0x4000_0000 <= b as int <= 0x4000_0000;
        vstd::arithmetic::div_mod::lemma_div_is_ordered(
            a as int * b as int,
            0x1000_0000_0000_0000,
            65536,
        );
        vstd::arithmetic::div_mod::lemma_div_is_ordered(
            -0x1000_0000_0000_0000,
            a as int * b as int,
            65536,
        );
    }
    crate::fixed::div_floor((a as i128) * (b as i128), 65536) as i64
}

impl Material {
    /// An equal-behaving, independently owned copy (materials are shared by
    /// value across many scene objects).
    pub fn duplicate(&self) -> (r: Material)
        ensures
            mat_ok(*self) ==> mat_ok(r),
            *self matches Material::Metal(_) ==> r == *self,
            *self matches Material::Dielectric(_) ==> r == *self,
    {
        match self {
            Material::Lambertian(l) => Material::Lambertian(
                Lambertian { albedo: l.albedo.duplicate() },
            ),
            Material::Metal(me) => Material::Metal(Metal { albedo: me.albedo, fuzz: me.fuzz }),
            Material::Dielectric(d) => Material::Dielectric(Dielectric { ir: d.ir }),
            Material::DiffuseLight(dl) => Material::DiffuseLight(
                DiffuseLight { emit: dl.emit.duplicate() },
            ),
            Material::Isotropic(i) => Material::Isotropic(
                Isotropic { albedo: i.albedo.duplicate() },
            ),
        }
    }

    /// Whether (and how) the surface scatters the incoming ray.  On success
    /// the out-parameters carry the attenuation, the scattered ray, and the
    /// density with which its direction was drawn.
    pub fn scatter(
        &self,
        r_in: Ray,
        rec: HitRecord,
        albedo: &mut Color,
        scattered: &mut Ray,
        pdf: &mut i64,
    ) -> (res: bool)
        requires
            mat_ok(*self),
            crate::hittable::rec_ok(rec),
            vec_ok(r_in.st),
            vec_ok(r_in.dir),
        ensures
            res ==> scattered_ok(rec, r_in, *final(scattered)),
            res ==> color_ok(*final(albedo)),
            *self matches Material::DiffuseLight(_) ==> res == false,
            *self matches Material::Lambertian(l) ==> res == (rec.normal != (Vec3 {
                x: 0,
                y: 0,
                z: 0,
            })) && (res && is_solid(l.albedo) ==> *final(albedo) == solid_value(
                l.albedo,
            )) && (res ==> *final(pdf) == dot_spec(
                unit_spec(rec.normal),
                final(scattered).dir,
            ) * 65536 / 205887),
            *self matches Material::Metal(me) ==> *final(albedo) == me.albedo && (r_in.dir
                == (Vec3 { x: 0, y: 0, z: 0 }) ==> !res) && (r_in.dir != (Vec3 {
                x: 0,
                y: 0,
                z: 0,
            }) ==> res == (dot_spec(final(scattered).dir, rec.normal) > 0)) && (me.fuzz == 0
                && r_in.dir != (Vec3 { x: 0, y: 0, z: 0 }) ==> final(scattered).dir
                == reflect_spec(unit_spec(r_in.dir), rec.normal)),
            *self matches Material::Isotropic(i) ==> res && (is_solid(i.albedo)
                ==> *final(albedo) == solid_value(i.albedo)),
            *self matches Material::Dielectric(d) ==> res && *final(albedo) == (Color {
                x: 65536,
                y: 65536,
                z: 65536,
            }) && (r_in.dir == (Vec3 { x: 0, y: 0, z: 0 }) ==> final(scattered).dir == (Vec3 {
                x: 0,
                y: 0,
                z: 0,
            })) && (
            // every scattered direction is the exact fixed-point reflection
            // or refraction of the unit incoming direction
            r_in.dir != (Vec3 { x: 0, y: 0, z: 0 }) ==> final(scattered).dir == reflect_spec(
                unit_spec(r_in.dir),
                rec.normal,
            ) || final(scattered).dir == crate::vec3::refract_spec(
                unit_spec(r_in.dir),
                rec.normal,
                (if rec.front_face {
                    (65536 as int) * 65536 / (d.ir as int)
                } else {
                    d.ir as int
                }) as i64,
            )) && (
            // a dielectric with matched indices passes a dead-center ray
            // through undeviated
            (d.ir == 65536 && r_in.dir != (Vec3 { x: 0, y: 0, z: 0 }) && dot_spec(
                rec.normal,
                rec.normal,
            ) == 65536 && unit_spec(r_in.dir).x == -rec.normal.x && unit_spec(r_in.dir).y
                == -rec.normal.y && unit_spec(r_in.dir).z == -rec.normal.z)
                ==> final(scattered).dir == unit_spec(r_in.dir)),
    {
        match self {
            Material::Lambertian(l) => {
                if rec.normal.x == 0 && rec.normal.y == 0 && rec.normal.z == 0 {
                    return false;
                }
                let mut uvw: Onb = Default::default();
                uvw.build_from_w(rec.normal);
                let dir = uvw.local_vec(random_cosine_direction());
                let out_dir = if dir.x == 0 && dir.y == 0 && dir.z == 0 {
                    rec.normal
                } else {
                    proof {
                        if dir == (Vec3 { x: 0, y: 0, z: 0 }) {
                            assert(dir.x == 0);
                        }
                    }
                    unit_vector(dir)
                };
                *scattered = Ray { st: rec.p, dir: out_dir, tm: r_in.tm };
                *albedo = l.albedo.value(rec.u, rec.v, rec.p);
                proof {
                    crate::vec3::lemma_dot_fits(uvw.ax_w, out_dir);
                    assert(-0x3000_0000 <= dot_spec(uvw.ax_w, out_dir) <= 0x3000_0000) by {
                        assert(-0x300_0000_0000 <= uvw.ax_w.x * out_dir.x + uvw.ax_w.y
                            * out_dir.y + uvw.ax_w.z * out_dir.z <= 0x300_0000_0000)
                            by (nonlinear_arith)
                            requires
                                -0x8_0000 <= uvw.ax_w.x <= 0x8_0000,
                                -0x8_0000 <= uvw.ax_w.y <= 0x8_0000,
                                -0x8_0000 <= uvw.ax_w.z <= 0x8_0000,
                                -0x2_0000 <= out_dir.x <= 0x2_0000,
                                -0x2_0000 <= out_dir.y <= 0x2_0000,
                                -0x2_0000 <= out_dir.z <= 0x2_0000;
                        vstd::arithmetic::div_mod::lemma_div_is_ordered(
                            uvw.ax_w.x * out_dir.x + uvw.ax_w.y * out_dir.y + uvw.ax_w.z
                                * out_dir.z,
                            0x300_0000_0000,
                            65536,
                        );
                        vstd::arithmetic::div_mod::lemma_div_is_ordered(
                            -0x300_0000_0000,
                            uvw.ax_w.x * out_dir.x + uvw.ax_w.y * out_dir.y + uvw.ax_w.z
                                * out_dir.z,
                            65536,
                        );
                    }
                    assert(-0x3000_0000_0000 <= dot_spec(uvw.ax_w, out_dir) * 65536
                        <= 0x3000_0000_0000) by (nonlinear_arith)
                        requires
                            -0x3000_0000 <= dot_spec(uvw.ax_w, out_dir) <= 0x3000_0000;
                    crate::fixed::lemma_div_bounded(
                        dot_spec(uvw.ax_w, out_dir) * 65536,
                        205887,
                        0x3000_0000_0000,
                    );
                }
                let d = dot(uvw.ax_w, out_dir);
                *pdf = fx_div(d, FX_PI);
                true
            },
            Material::Metal(me) => {
                *albedo = me.albedo;
                if r_in.dir.x == 0 && r_in.dir.y == 0 && r_in.dir.z == 0 {
                    proof {
                        assert(r_in.dir == (Vec3 { x: 0, y: 0, z: 0 }));
                    }
                    return false;
                }
                proof {
                    if r_in.dir == (Vec3 { x: 0, y: 0, z: 0 }) {
                        assert(r_in.dir.x == 0);
                    }
                }
                let reflected = reflect(unit_vector(r_in.dir), rec.normal);
                let sph = random_in_unit_sphere();
                let fzs = sph.scale(me.fuzz);
                proof {
                    if me.fuzz == 0 {
                        assert(fzs.x == 0 && fzs.y == 0 && fzs.z == 0) by {
                            lemma_mul_zero_right(sph.x as int);
                            lemma_mul_zero_right(sph.y as int);
                            lemma_mul_zero_right(sph.z as int);
                        }
                    }
                }
                let fz = Vec3 {
                    x: clamp(fzs.x, -65536, 65536),
                    y: clamp(fzs.y, -65536, 65536),
                    z: clamp(fzs.z, -65536, 65536),
                };
                let sdir = Vec3 {
                    x: reflected.x + fz.x,
                    y: reflected.y + fz.y,
                    z: reflected.z + fz.z,
                };
                *scattered = Ray { st: rec.p, dir: sdir, tm: r_in.tm };
                proof {
                    crate::vec3::lemma_dot_fits(sdir, rec.normal);
                }
                dot(sdir, rec.normal) > 0
            },
            Material::Dielectric(d) => {
                *albedo = Color { x: 65536, y: 65536, z: 65536 };
                let refraction_ratio = if rec.front_face {
                    proof {
                        crate::fixed::lemma_div_bounded(
                            (65536 as int) * 65536,
                            d.ir as int,
                            0x1_0000_0000,
                        );
                        vstd::arithmetic::div_mod::lemma_div_is_ordered_by_denominator(
                            (65536 as int) * 65536,
                            65536,
                            d.ir as int,
                        );
                        vstd::arithmetic::div_mod::lemma_div_multiples_vanish(65536, 65536);
                        vstd::arithmetic::div_mod::lemma_div_pos_is_pos(
                            (65536 as int) * 65536,
                            d.ir as int,
                        );
                    }
                    fx_div(FX_ONE, d.ir)
                } else {
                    d.ir
                };
                proof {
                    assert(0 <= refraction_ratio <= 0x100_0000);
                }
                if r_in.dir.x == 0 && r_in.dir.y == 0 && r_in.dir.z == 0 {
                    *scattered = Ray { st: rec.p, dir: Vec3 { x: 0, y: 0, z: 0 }, tm: r_in.tm };
                    proof {
                        assert(r_in.dir == (Vec3 { x: 0, y: 0, z: 0 }));
                    }
                    return true;
                }
                proof {
                    if r_in.dir == (Vec3 { x: 0, y: 0, z: 0 }) {
                        assert(r_in.dir.x == 0);
                    }
                }
                let unit_direction = unit_vector(r_in.dir);
                let neg_unit = Vec3 { x: -unit_direction.x, y: -unit_direction.y, z: -unit_direction.z };
                proof {
                    crate::vec3::lemma_dot_fits(neg_unit, rec.normal);
                }
                let cos_theta = fmin(dot(neg_unit, rec.normal), FX_ONE);
                let cos_c = clamp(cos_theta, -0x80_0000, 65536);
                let c2 = clamp(mul_bounded(cos_c, cos_c), 0, 65536);
                let sin2 = fmax(65536 - c2, 0);
                let sin_theta = fx_sqrt(sin2);
                proof {
                    assert(sin_theta as int <= 0x10_0000) by (nonlinear_arith)
                        requires
                            sin_theta as int * sin_theta as int <= sin2 as int * 65536,
                            0 <= sin2 <= 65536,
                            sin_theta >= 0;
                }
                let cannot_refract = mul_bounded(refraction_ratio, sin_theta) > 65536;
                let refl = reflectance(cos_c, refraction_ratio);
                let rnd = random_double();
                let direction = if cannot_refract || refl > rnd {
                    reflect(unit_direction, rec.normal)
                } else {
                    refract(unit_direction, rec.normal, refraction_ratio)
                };
                *scattered = Ray { st: rec.p, dir: direction, tm: r_in.tm };
                proof {
                    if d.ir == 65536 && r_in.dir != (Vec3 { x: 0, y: 0, z: 0 }) && dot_spec(
                        rec.normal,
                        rec.normal,
                    ) == 65536 && unit_spec(r_in.dir).x == -rec.normal.x && unit_spec(
                        r_in.dir,
                    ).y == -rec.normal.y && unit_spec(r_in.dir).z == -rec.normal.z {
                        assert(unit_direction.x == -rec.normal.x && unit_direction.y
                            == -rec.normal.y && unit_direction.z == -rec.normal.z);
                        assert(neg_unit.x == rec.normal.x && neg_unit.y == rec.normal.y
                            && neg_unit.z == rec.normal.z);
                        assert(neg_unit == rec.normal);
                        assert(cos_theta == 65536);
                        assert(cos_c == 65536);
                        assert((65536 as int) * 65536 / 65536 == 65536);
                        assert(c2 == 65536);
                        assert(sin2 == 0);
                        assert(sin_theta == 0) by (nonlinear_arith)
                            requires
                                sin_theta as int * sin_theta as int <= 0,
                                sin_theta >= 0;
                        assert(refraction_ratio == 65536) by {
                            if rec.front_face {
                                assert((65536 as int) * 65536 / 65536 == 65536);
                            }
                        }
                        assert((65536 as int) * 0 / 65536 == 0);
                        assert(!cannot_refract);
                        assert(refl == 0);
                        assert(!(refl > rnd));
                        assert(direction.x == unit_direction.x && direction.y == unit_direction.y
                            && direction.z == unit_direction.z);
                        assert(final(scattered).dir == unit_spec(r_in.dir));
                    }
                }
                true
            },
            Material::DiffuseLight(_) => false,
            Material::Isotropic(i) => {
                *scattered = Ray { st: rec.p, dir: random_in_unit_sphere(), tm: r_in.tm };
                *albedo = i.albedo.value(rec.u, rec.v, rec.p);
                true
            },
        }
    }

    /// The light the surface emits: black unless this is a light seen from
    /// its front face.
    pub fn emitted(&self, r_in: Ray, rec: HitRecord, u: i64, v: i64, p: Point3) -> (r: Color)
        requires
            mat_ok(*self),
            0 <= u <= 65536,
            0 <= v <= 65536,
            vec_ok(p),
        ensures
            color_ok(r),
            !(*self matches Material::DiffuseLight(_)) ==> r == (Color { x: 0, y: 0, z: 0 }),
            (*self matches Material::DiffuseLight(_)) && !rec.front_face ==> r == (Color {
                x: 0,
                y: 0,
                z: 0,
            }),
            *self matches Material::DiffuseLight(dl) ==> (rec.front_face && is_solid(dl.emit)
                ==> r == solid_value(dl.emit)),
    {
        match self {
            Material::DiffuseLight(dl) => {
                if rec.front_face {
                    dl.emit.value(u, v, p)
                } else {
                    Color { x: 0, y: 0, z: 0 }
                }
            },
            _ => Color { x: 0, y: 0, z: 0 },
        }
    }

    /// The density the material's own strategy assigns to a scattered
    /// direction; never negative.
    pub fn scattering_pdf(&self, r_in: Ray, rec: HitRecord, scattered: Ray) -> (r: i64)
        requires
            mat_ok(*self),
            crate::hittable::rec_ok(rec),
            vec_ok(scattered.dir),
        ensures
            0 <= r <= 65536,
            !(*self matches Material::Lambertian(_)) ==> r == 0,
            *self matches Material::Lambertian(_) && scattered.dir == (Vec3 { x: 0, y: 0, z: 0 })
                ==> r == 0,
            *self matches Material::Lambertian(_) && scattered.dir != (Vec3 { x: 0, y: 0, z: 0 })
                ==> r == crate::fixed::clamp_s(
                crate::fixed::max_s(
                    0,
                    dot_spec(rec.normal, unit_spec(scattered.dir)) * 65536 / 205887,
                ),
                0,
                65536,
            ),
    {
        match self {
            Material::Lambertian(_) => {
                if scattered.dir.x == 0 && scattered.dir.y == 0 && scattered.dir.z == 0 {
                    proof {
                        assert(scattered.dir == (Vec3 { x: 0, y: 0, z: 0 }));
                    }
                    return 0;
                }
                proof {
                    if scattered.dir == (Vec3 { x: 0, y: 0, z: 0 }) {
                        assert(scattered.dir.x == 0);
                    }
                }
                let u = unit_vector(scattered.dir);
                proof {
                    crate::vec3::lemma_dot_fits(rec.normal, u);
                    assert(-0x3000_0000 <= dot_spec(rec.normal, u) <= 0x3000_0000) by {
                        assert(-0x300_0000_0000 <= rec.normal.x * u.x + rec.normal.y * u.y
                            + rec.normal.z * u.z <= 0x300_0000_0000) by (nonlinear_arith)
                            requires
                                -0x2_0000 <= rec.normal.x <= 0x2_0000,
                                -0x2_0000 <= rec.normal.y <= 0x2_0000,
                                -0x2_0000 <= rec.normal.z <= 0x2_0000,
                                -0x1_0000 <= u.x <= 0x1_0000,
                                -0x1_0000 <= u.y <= 0x1_0000,
                                -0x1_0000 <= u.z <= 0x1_0000;
                        vstd::arithmetic::div_mod::lemma_div_is_ordered(
                            rec.normal.x * u.x + rec.normal.y * u.y + rec.normal.z * u.z,
                            0x300_0000_0000,
                            65536,
                        );
                        vstd::arithmetic::div_mod::lemma_div_is_ordered(
                            -0x300_0000_0000,
                            rec.normal.x * u.x + rec.normal.y * u.y + rec.normal.z * u.z,
                            65536,
                        );
                    }
                    assert(-0x3000_0000_0000 <= dot_spec(rec.normal, u) * 65536
                        <= 0x3000_0000_0000) by (nonlinear_arith)
                        requires
                            -0x3000_0000 <= dot_spec(rec.normal, u) <= 0x3000_0000;
                    crate::fixed::lemma_div_bounded(
                        dot_spec(rec.normal, u) * 65536,
                        205887,
                        0x3000_0000_0000,
                    );
                }
                let cosine = dot(rec.normal, u);
                let q = fx_div(cosine, FX_PI);
                clamp(fmax(0, q), 0, FX_ONE)
            },
            _ => 0,
        }
    }
}

} // verus!

//! Textures: a pure map from a surface parameterization `(u, v, p)` to a
//! color with non-negative, bounded components.

use crate::fixed::{clamp, clamp_s, div_floor, lemma_div_bounded, min_s, FX_ONE};
use crate::perlin::{perlin_ok, Perlin};
use crate::trig::{fx_sin, sin_spec};
use crate::vec3::{vec_ok, Color, Point3, Vec3};
use vstd::prelude::*;

verus! {

/// Color components a texture may return (and emissive strengths a scene may
/// configure) stay within this bound.
pub const CLIM: i64 = 0x4000_0000;

/// A color with components in `[0, CLIM]`.
pub open spec fn color_ok(c: Color) -> bool {
    &&& 0 <= c.x <= 0x4000_0000
    &&& 0 <= c.y <= 0x4000_0000
    &&& 0 <= c.z <= 0x4000_0000
}

#[derive(Clone, Copy)]
pub struct SolidColor {
    pub color_value: Color,
}

pub struct CheckerTexture {
    pub odd: Box<Texture>,
    pub even: Box<Texture>,
}

pub struct NoiseTexture {
    pub noise: Perlin,
    pub scale: i64,
}

pub struct ImageTexture {
    pub data: Vec<u8>,
    pub width: usize,
    pub height: usize,
}

pub enum Texture {
    Solid(SolidColor),
    Checker(CheckerTexture),
    Noise(NoiseTexture),
    Image(ImageTexture),
}

/// Whether a texture is a plain color.
pub open spec fn is_solid(t: Texture) -> bool {
    t matches Texture::Solid(_)
}

/// The plain color of a solid texture (black for the other kinds).
pub open spec fn solid_value(t: Texture) -> Color {
    match t {
        Texture::Solid(s) => s.color_value,
        _ => Color { x: 0, y: 0, z: 0 },
    }
}

/// A well-formed texture: colors in range, a sane noise scale, a consistent
/// image buffer.
pub open spec fn tex_ok(t: Texture) -> bool
    decreases t,
{
    match t {
        Texture::Solid(s) => color_ok(s.color_value),
        Texture::Checker(c) => tex_ok(*c.odd) && tex_ok(*c.even),
        Texture::Noise(n) => perlin_ok(n.noise) && -0x10_0000 <= n.scale <= 0x10_0000,
        Texture::Image(im) => 1 <= im.width <= 0x8000 && 1 <= im.height <= 0x8000
            && im.data@.len() == im.width * im.height * 3,
    }
}

impl CheckerTexture {
    /// A two-tone checker: `a` is the even color, `b` the odd.
    pub fn creat(a: Color, b: Color) -> (r: CheckerTexture)
        ensures
            r.odd == Texture::Solid(SolidColor { color_value: b }),
            r.even == Texture::Solid(SolidColor { color_value: a }),
    {
        CheckerTexture {
            odd: Box::new(Texture::Solid(SolidColor { color_value: b })),
            even: Box::new(Texture::Solid(SolidColor { color_value: a })),
        }
    }
}

impl NoiseTexture {
    pub fn creat(sc: i64) -> (r: NoiseTexture)
        requires
            -0x10_0000 <= sc <= 0x10_0000,
        ensures
            r.scale == sc,
            perlin_ok(r.noise),
    {
        NoiseTexture { noise: Perlin::default(), scale: sc }
    }
}

impl ImageTexture {
    /// Wraps a decoded RGB byte raster; rejects inconsistent dimensions.
    pub fn creat(data: Vec<u8>, width: usize, height: usize) -> (r: Option<ImageTexture>)
        ensures
            match r {
                Some(t) => tex_ok(Texture::Image(t)) && t.width == width && t.height == height,
                None => !(1 <= width <= 0x8000 && 1 <= height <= 0x8000 && data@.len() == width
                    * height * 3),
            },
    {
        if 1 <= width && width <= 0x8000 && 1 <= height && height <= 0x8000 {
            proof {
                assert(width * height * 3 <= 0x8000 * 0x8000 * 3) by (nonlinear_arith)
                    requires
                        1 <= width <= 0x8000,
                        1 <= height <= 0x8000;
            }
            if data.len() == width * height * 3 {
                Some(ImageTexture { data, width, height })
            } else {
                None
            }
        } else {
            None
        }
    }
}

/// The checker parity value: the fixed-point product
/// `sin(10x) * sin(10y) * sin(10z)`.
pub open spec fn checker_parity(p: Point3) -> int {
    crate::vec3::fxm(
        crate::vec3::fxm(sin_spec(10 * p.x), sin_spec(10 * p.y)),
        sin_spec(10 * p.z),
    )
}

/// The checker parity: the sign of `sin(10x) sin(10y) sin(10z)`.
fn checker_sines(p: Point3) -> (r: i64)
    requires
        vec_ok(p),
    ensures
        r == checker_parity(p),
{
    let sx = fx_sin(10 * p.x);
    let sy = fx_sin(10 * p.y);
    let sz = fx_sin(10 * p.z);
    proof {
        assert(-0x1_0000_0000 <= sx as int * sy as int <= 0x1_0000_0000) by (nonlinear_arith)
            requires
                -65536 <= sx as int <= 65536,
                -65536 <= sy as int <= 65536;
        lemma_div_bounded(sx as int * sy as int, 65536, 0x1_0000_0000);
        assert(-0x1_0000_0000_0000 <= (sx as int * sy as int / 65536) * sz as int
            <= 0x1_0000_0000_0000) by (nonlinear_arith)
            requires
                -0x1_0000_0000 <= sx as int * sy as int / 65536 <= 0x1_0000_0000,
                -65536 <= sz as int <= 65536;
        lemma_div_bounded((sx as int * sy as int / 65536) * sz as int, 65536, 0x1_0000_0000_0000);
    }
    let sxy = div_floor((sx as i128) * (sy as i128), 65536) as i64;
    div_floor((sxy as i128) * (sz as i128), 65536) as i64
}

/// An element-by-element copy of a byte buffer.
fn copy_bytes(v: &Vec<u8>) -> (r: Vec<u8>)
    ensures
        r@ =~= v@,
{
    let mut r: Vec<u8> = Vec::new();
    let mut i: usize = 0;
    while i < v.len()
        invariant
            i <= v@.len(),
            r@ =~= v@.subrange(0, i as int),
        decreases v@.len() - i,
    {
        r.push(v[i]);
        proof {
            assert(r@ =~= v@.subrange(0, i + 1));
        }
        i = i + 1;
    }
    proof {
        assert(v@.subrange(0, v@.len() as int) =~= v@);
    }
    r
}

/// The byte offset of the sampled pixel: `u` and `v` clamped into the unit
/// square, `v` flipped, scaled to the raster and clamped to its edge.
pub open spec fn img_base(im: ImageTexture, u: int, v: int) -> int {
    let uc = clamp_s(u, 0, 65536);
    let vc = 65536 - clamp_s(v, 0, 65536);
    let i = min_s(uc * im.width / 65536, im.width - 1);
    let j = min_s(vc * im.height / 65536, im.height - 1);
    (j * im.width + i) * 3
}

impl Texture {
    /// An equal, independently owned copy (textures are shared by value
    /// across many scene objects).
    pub fn duplicate(&self) -> (r: Texture)
        ensures
            tex_ok(*self) ==> tex_ok(r),
            *self matches Texture::Solid(s) ==> r == *self,
        decreases *self,
    {
        match self {
            Texture::Solid(s) => Texture::Solid(SolidColor { color_value: s.color_value }),
            Texture::Checker(c) => Texture::Checker(
                CheckerTexture {
                    odd: Box::new(c.odd.duplicate()),
                    even: Box::new(c.even.duplicate()),
                },
            ),
            Texture::Noise(n) => Texture::Noise(
                NoiseTexture { noise: n.noise.duplicate(), scale: n.scale },
            ),
            Texture::Image(im) => {
                let data = copy_bytes(&im.data);
                proof {
                    assert(data@.len() == im.data@.len());
                }
                Texture::Image(ImageTexture { data, width: im.width, height: im.height })
            },
        }
    }

    /// The color of the texture at surface coordinates `(u, v)` and world
    /// point `p`: always componentwise within `[0, CLIM]`.
    pub fn value(&self, u: i64, v: i64, p: Point3) -> (r: Color)
        requires
            tex_ok(*self),
            0 <= u <= 65536,
            0 <= v <= 65536,
            vec_ok(p),
        ensures
            color_ok(r),
            *self matches Texture::Solid(s) ==> r == s.color_value,
            *self matches Texture::Checker(c) ==> (is_solid(*c.odd) && is_solid(*c.even) ==> r
                == (if checker_parity(p) < 0 {
                solid_value(*c.odd)
            } else {
                solid_value(*c.even)
            })),
            *self matches Texture::Noise(n) ==> r.x == r.y && r.y == r.z && 0 <= r.x <= 65536
                && r.x == (65536 + crate::trig::sin_spec(
                n.scale * p.z / 65536 + 10 * crate::perlin::turb_spec(n.noise, p, 7),
            )) / 2,
            *self matches Texture::Image(im) ==> 0 <= img_base(im, u as int, v as int)
                && img_base(im, u as int, v as int) + 2 < im.data@.len() && r.x == (im.data@[
                img_base(im, u as int, v as int)
            ] as int) * 257 && r.y == (im.data@[img_base(im, u as int, v as int) + 1] as int) * 257
                && r.z == (im.data@[img_base(im, u as int, v as int) + 2] as int) * 257,
        decreases *self,
    {
        match self {
            Texture::Solid(s) => s.color_value,
            Texture::Checker(c) => {
                let sines = checker_sines(p);
                if sines < 0 {
                    c.odd.value(u, v, p)
                } else {
                    c.even.value(u, v, p)
                }
            },
            Texture::Noise(n) => {
                let t = n.noise.turb(p, 7);
                proof {
                    assert(-0x400_0000_0000 <= n.scale as int * p.z as int / 65536
                        <= 0x400_0000_0000) by {
                        assert(-0x400_0000_0000_0000 <= n.scale as int * p.z as int
                            <= 0x400_0000_0000_0000) by (nonlinear_arith)
                            requires
                                -0x10_0000 <= n.scale as int <= 0x10_0000,
                                -0x40_0000_0000 <= p.z as int <= 0x40_0000_0000;
                        vstd::arithmetic::div_mod::lemma_div_is_ordered(
                            n.scale as int * p.z as int,
                            0x400_0000_0000_0000,
                            65536,
                        );
                        vstd::arithmetic::div_mod::lemma_div_is_ordered(
                            -0x400_0000_0000_0000,
                            n.scale as int * p.z as int,
                            65536,
                        );
                    }
                }
                let sz = div_floor((n.scale as i128) * (p.z as i128), 65536) as i64;
                let s = fx_sin(sz + 10 * t);
                let g = (65536 + s) / 2;
                Color { x: g, y: g, z: g }
            },
            Texture::Image(im) => {
                let uc = clamp(u, 0, FX_ONE);
                let vc = FX_ONE - clamp(v, 0, FX_ONE);
                let mut i = scale_coord(uc, im.width);
                let mut j = scale_coord(vc, im.height);
                if i >= im.width {
                    i = im.width - 1;
                }
                if j >= im.height {
                    j = im.height - 1;
                }
                proof {
                    assert(i as int == min_s(
                        clamp_s(u as int, 0, 65536) * im.width / 65536,
                        im.width - 1,
                    ));
                    assert(j as int == min_s(
                        (65536 - clamp_s(v as int, 0, 65536)) * im.height / 65536,
                        im.height - 1,
                    ));
                }
                proof {
                    assert((j * im.width + i) * 3 + 2 < im.width * im.height * 3
                        && j * im.width + i <= 0x4000_0000 && im.width * im.height * 3
                        <= 0xC000_0000) by (nonlinear_arith)
                        requires
                            0 <= i < im.width <= 0x8000,
                            0 <= j < im.height <= 0x8000;
                }
                let base = (j * im.width + i) * 3;
                let rb = im.data[base] as i64;
                let gb = im.data[base + 1] as i64;
                let bb = im.data[base + 2] as i64;
                Color { x: rb * 257, y: gb * 257, z: bb * 257 }
            },
        }
    }
}

/// `floor(frac * n / 65536)` for a fraction in `[0, 1]`: at most `n`.
fn scale_coord(frac: i64, n: usize) -> (r: usize)
    requires
        0 <= frac <= 65536,
        1 <= n <= 0x8000,
    ensures
        r == frac as int * n as int / 65536,
        r <= n,
{
    proof {
        assert(0 <= frac as int * n as int <= (65536 as int) * 0x8000) by (nonlinear_arith)
            requires
                0 <= frac as int <= 65536,
                1 <= n as int <= 0x8000;
        lemma_div_bounded(frac as int * n as int, 65536, (65536 as int) * 0x8000);
        assert(frac as int * n as int <= 65536 * n as int) by (nonlinear_arith)
            requires
                0 <= frac as int <= 65536,
                1 <= n as int;
        vstd::arithmetic::div_mod::lemma_div_is_ordered(
            frac as int * n as int,
            65536 * n as int,
            65536,
        );
        vstd::arithmetic::div_mod::lemma_div_multiples_vanish(n as int, 65536);
        vstd::arithmetic::div_mod::lemma_div_pos_is_pos(frac as int * n as int, 65536);
    }
    div_floor((frac as i128) * (n as i128), 65536) as usize
}

} // verus!

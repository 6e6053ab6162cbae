//! Colour sources: solid colours, checkerboards, sampled images and
//! gradient noise.

use vstd::prelude::*;

use crate::fx::{fits, fx_add, fx_clamp_i128, fx_div, fx_mul, i128_tdiv, sat, sdiv, smul, tdiv,
    FX_MAX, FX_ONE};
use crate::perlin::{noise_spec, perlin_wf, turb_spec, Perlin};
use crate::rt::RtRng;
use crate::trig::sin_any_spec;
use crate::vec3::{vfits, Vec3};

verus! {

/// A uniform colour.
pub struct SolidColor {
    pub albedo: Vec3,
}

/// Alternating colours on a spatial lattice.
pub struct CheckerTexture {
    pub inv_scale: i64,
    pub odd: Box<Texture>,
    pub even: Box<Texture>,
}

/// A sampled image, held as plain fixed-point colours row by row from
/// the top of the picture.
pub struct ImageTexture {
    pub pixels: Vec<Vec3>,
    pub width: usize,
    pub height: usize,
}

/// Gradient noise, banded by a sine.
pub struct NoiseTexture {
    pub noise: Perlin,
    pub scale: i64,
}

/// The closed set of colour sources.
pub enum Texture {
    Solid(SolidColor),
    Checker(CheckerTexture),
    Image(ImageTexture),
    Noise(NoiseTexture),
}

pub open spec fn tex_wf(t: Texture) -> bool
    decreases t,
{
    match t {
        Texture::Solid(s) => vfits(s.albedo),
        Texture::Checker(c) => fits(c.inv_scale as int) && tex_wf(*c.odd) && tex_wf(*c.even),
        Texture::Image(im) => im.width <= 16384 && im.height <= 16384 && im.pixels@.len()
            == im.width * im.height && forall|i: int|
            0 <= i < im.pixels@.len() ==> vfits(#[trigger] im.pixels@[i]),
        Texture::Noise(n) => perlin_wf(n.noise) && fits(n.scale as int),
    }
}

/// Clamp a surface coordinate into `[0, 1]`.
pub open spec fn clamp01(x: int) -> int {
    if x < 0 {
        0
    } else if x > FX_ONE as int {
        FX_ONE as int
    } else {
        x
    }
}

/// The lattice cell of one coordinate under the checker's inverse scale.
pub open spec fn checker_cell(inv_scale: int, x: int) -> int {
    tdiv(smul(inv_scale, x), FX_ONE as int)
}

/// The image row/column picked by a clamped coordinate.
pub open spec fn image_coord(c: int, limit: int) -> int {
    tdiv(c * (limit - 1), FX_ONE as int)
}

/// What a texture yields at surface coordinates `(u, v)` and point `p`.
pub open spec fn tex_value(t: Texture, u: int, v: int, p: Vec3) -> Vec3
    decreases t,
{
    match t {
        Texture::Solid(s) => s.albedo,
        Texture::Checker(c) => {
            let sum = checker_cell(c.inv_scale as int, p.x as int) + checker_cell(
                c.inv_scale as int,
                p.y as int,
            ) + checker_cell(c.inv_scale as int, p.z as int);
            if sum == 2 * tdiv(sum, 2) {
                tex_value(*c.odd, u, v, p)
            } else {
                tex_value(*c.even, u, v, p)
            }
        },
        Texture::Image(im) => {
            if im.height == 0 || im.width == 0 {
                Vec3 { x: 0, y: FX_ONE, z: 0 }
            } else {
                let ui = image_coord(clamp01(u), im.width as int);
                let vi = image_coord(FX_ONE as int - clamp01(v), im.height as int);
                im.pixels@[vi * im.width + ui]
            }
        },
        Texture::Noise(n) => {
            let arg = sat(
                sat(tdiv(turb_spec(n.noise, p, 7) * 10 * (FX_ONE as int), FX_ONE as int)) + smul(
                    n.scale as int,
                    p.z as int,
                ),
            );
            let c = smul(FX_ONE as int / 2, sat(FX_ONE + sin_any_spec(arg)));
            Vec3 { x: c as i64, y: c as i64, z: c as i64 }
        },
    }
}

impl SolidColor {
    pub fn new(albedo: Vec3) -> (r: SolidColor)
        requires
            vfits(albedo),
        ensures
            r.albedo == albedo,
            tex_wf(Texture::Solid(r)),
    {
        SolidColor { albedo }
    }

    /// Build from three channels; the argument order follows the
    /// constructor it forwards to.
    pub fn new_by_color(&self, red: i64, blue: i64, green: i64) -> (r: SolidColor)
        requires
            fits(red as int),
            fits(blue as int),
            fits(green as int),
        ensures
            r.albedo == (Vec3 { x: red, y: green, z: blue }),
            tex_wf(Texture::Solid(r)),
    {
        SolidColor::new(Vec3::new(red, green, blue))
    }
}

impl CheckerTexture {
    pub fn new(scale: i64, odd: Box<Texture>, even: Box<Texture>) -> (r: CheckerTexture)
        requires
            fits(scale as int),
            scale != 0,
            tex_wf(*odd),
            tex_wf(*even),
        ensures
            r.inv_scale as int == sdiv(FX_ONE as int, scale as int),
            r.odd == odd,
            r.even == even,
            tex_wf(Texture::Checker(r)),
    {
        CheckerTexture { inv_scale: fx_div(FX_ONE, scale), odd, even }
    }

    pub fn new_by_color(scale: i64, color1: Vec3, color2: Vec3) -> (r: CheckerTexture)
        requires
            fits(scale as int),
            scale != 0,
            vfits(color1),
            vfits(color2),
        ensures
            r.inv_scale as int == sdiv(FX_ONE as int, scale as int),
            *r.odd == Texture::Solid(SolidColor { albedo: color1 }),
            *r.even == Texture::Solid(SolidColor { albedo: color2 }),
            tex_wf(Texture::Checker(r)),
    {
        CheckerTexture::new(
            scale,
            Box::new(Texture::Solid(SolidColor::new(color1))),
            Box::new(Texture::Solid(SolidColor::new(color2))),
        )
    }
}

impl ImageTexture {
    /// Wrap an already-decoded image: one colour per pixel, rows from
    /// the top.  Decoding an image file happens outside the core.
    pub fn new(pixels: Vec<Vec3>, width: usize, height: usize) -> (r: ImageTexture)
        requires
            width <= 16384,
            height <= 16384,
            pixels@.len() == width * height,
            forall|i: int| 0 <= i < pixels@.len() ==> vfits(#[trigger] pixels@[i]),
        ensures
            r.pixels@ == pixels@,
            r.width == width,
            r.height == height,
            tex_wf(Texture::Image(r)),
    {
        ImageTexture { pixels, width, height }
    }
}

impl NoiseTexture {
    pub fn new(rng: &mut RtRng) -> (r: NoiseTexture)
        ensures
            r.scale == FX_ONE,
            tex_wf(Texture::Noise(r)),
    {
        NoiseTexture { noise: Perlin::new(rng), scale: FX_ONE }
    }

    pub fn new_by_scale(scale: i64, rng: &mut RtRng) -> (r: NoiseTexture)
        requires
            fits(scale as int),
        ensures
            r.scale == scale,
            tex_wf(Texture::Noise(r)),
    {
        NoiseTexture { noise: Perlin::new(rng), scale }
    }
}

impl Texture {
    /// The colour this texture yields at `(u, v)` on the surface point
    /// `p`.
    pub fn value(&self, u: i64, v: i64, p: Vec3) -> (r: Vec3)
        requires
            tex_wf(*self),
            fits(u as int),
            fits(v as int),
            vfits(p),
        ensures
            r == tex_value(*self, u as int, v as int, p),
            vfits(r),
        decreases *self,
    {
        match self {
            Texture::Solid(s) => s.albedo,
            Texture::Checker(c) => {
                let xi = checker_cell_fx(c.inv_scale, p.x);
                let yi = checker_cell_fx(c.inv_scale, p.y);
                let zi = checker_cell_fx(c.inv_scale, p.z);
                let sum = xi + yi + zi;
                let half = i128_tdiv(sum as i128, 2);
                proof {
                    crate::fx::lemma_tdiv_pos_bound(sum as int, 2);
                }
                if (half as i64) * 2 == sum {
                    c.odd.value(u, v, p)
                } else {
                    c.even.value(u, v, p)
                }
            },
            Texture::Image(im) => {
                if im.height == 0 || im.width == 0 {
                    Vec3 { x: 0, y: FX_ONE, z: 0 }
                } else {
                    let cu = clamp01_fx(u);
                    let cv = FX_ONE - clamp01_fx(v);
                    let ui = image_coord_fx(cu, im.width);
                    let vi = image_coord_fx(cv, im.height);
                    proof {
                        lemma_image_index(im.width as int, im.height as int, ui as int, vi as int);
                    }
                    im.pixels[vi * im.width + ui]
                }
            },
            Texture::Noise(n) => {
                let t = n.noise.turb(p, 7);
                let scaled = fx_mul_by_ten(t);
                let arg = fx_add(scaled, fx_mul(n.scale, p.z));
                let s = crate::trig::sin_any_fx(arg);
                let c = fx_mul(32768, fx_add(FX_ONE, s));
                Vec3 { x: c, y: c, z: c }
            },
        }
    }
}

/// The lattice cell of one coordinate under the checker's inverse scale.
fn checker_cell_fx(inv_scale: i64, x: i64) -> (r: i64)
    requires
        fits(inv_scale as int),
        fits(x as int),
    ensures
        r as int == checker_cell(inv_scale as int, x as int),
        -16385 < r < 16385,
{
    let prod = fx_mul(inv_scale, x);
    let cell = i128_tdiv(prod as i128, FX_ONE as i128);
    proof {
        crate::fx::lemma_tdiv_pos_bound(prod as int, FX_ONE as int);
    }
    cell as i64
}

/// Clamp a surface coordinate into `[0, 1]`.
fn clamp01_fx(x: i64) -> (r: i64)
    ensures
        r as int == clamp01(x as int),
        0 <= r <= FX_ONE,
{
    if x < 0 {
        0
    } else if x > FX_ONE {
        FX_ONE
    } else {
        x
    }
}

/// The image row/column picked by a clamped coordinate.
fn image_coord_fx(c: i64, limit: usize) -> (r: usize)
    requires
        0 <= c <= FX_ONE,
        0 < limit <= 16384,
    ensures
        r as int == image_coord(c as int, limit as int),
        r < limit,
{
    proof {
        assert(0 <= (c as int) * (limit - 1) <= (FX_ONE as int) * (limit - 1)
            <= 0x10000000000) by (nonlinear_arith)
            requires
                0 <= c as int <= FX_ONE as int,
                0 < limit <= 16384,
                FX_ONE as int == 65536,
        ;
    }
    let wide: i128 = (c as i128) * ((limit - 1) as i128);
    let q = i128_tdiv(wide, FX_ONE as i128);
    proof {
        crate::fx::lemma_tdiv_pos_mono(wide as int, (FX_ONE as int) * (limit - 1), FX_ONE as int);
        vstd::arithmetic::div_mod::lemma_div_multiples_vanish(limit - 1, FX_ONE as int);
        crate::fx::lemma_tdiv_pos_bound(wide as int, FX_ONE as int);
    }
    q as usize
}

/// A sampled pixel's slot lies inside the pixel vector.
proof fn lemma_image_index(width: int, height: int, ui: int, vi: int)
    requires
        0 <= ui < width <= 16384,
        0 <= vi < height <= 16384,
    ensures
        0 <= vi * width + ui < width * height,
        width * height <= 0x10000000,
{
    assert(vi * width + ui < width * height) by (nonlinear_arith)
        requires
            0 <= ui < width,
            0 <= vi < height,
    ;
    assert(vi * width >= 0) by (nonlinear_arith)
        requires
            vi >= 0,
            width > 0,
    ;
    assert(width * height <= 0x10000000) by (nonlinear_arith)
        requires
            0 < width <= 16384,
            0 < height <= 16384,
    ;
}

/// Ten times a scalar, saturated.
fn fx_mul_by_ten(t: i64) -> (r: i64)
    requires
        fits(t as int),
    ensures
        r as int == sat(tdiv(t * 10 * (FX_ONE as int), FX_ONE as int)),
        fits(r as int),
{
    fx_mul(t, 10 * FX_ONE)
}

} // verus!

//! Fixed-point 3-vectors: points, directions and colours.

use vstd::prelude::*;

use crate::fx::{
    fits, fx_abs, fx_add, fx_div, fx_min, fx_mul, fx_neg, fx_sqrt, fx_sub, i128_tdiv, isqrt_u128,
    lemma_sqrt_floor, sat, sqrt_floor, tdiv, FX_MAX, FX_ONE,
};
use crate::rt::{random_fx, RtRng};

verus! {

#[derive(Clone, Copy, Debug, PartialEq, Eq, Structural)]
pub struct Vec3 {
    pub x: i64,
    pub y: i64,
    pub z: i64,
}

/// Every component lies in the representable band.
pub open spec fn vfits(v: Vec3) -> bool {
    fits(v.x as int) && fits(v.y as int) && fits(v.z as int)
}

pub open spec fn sv_zero() -> Vec3 {
    Vec3 { x: 0, y: 0, z: 0 }
}

pub open spec fn sv_add(a: Vec3, b: Vec3) -> Vec3 {
    Vec3 {
        x: sat(a.x + b.x) as i64,
        y: sat(a.y + b.y) as i64,
        z: sat(a.z + b.z) as i64,
    }
}

pub open spec fn sv_sub(a: Vec3, b: Vec3) -> Vec3 {
    Vec3 {
        x: sat(a.x - b.x) as i64,
        y: sat(a.y - b.y) as i64,
        z: sat(a.z - b.z) as i64,
    }
}

pub open spec fn sv_neg(a: Vec3) -> Vec3 {
    Vec3 { x: -a.x as i64, y: -a.y as i64, z: -a.z as i64 }
}

/// Scale by the fixed-point factor `t`.
pub open spec fn sv_scale(a: Vec3, t: int) -> Vec3 {
    Vec3 {
        x: sat(tdiv(a.x * t, FX_ONE as int)) as i64,
        y: sat(tdiv(a.y * t, FX_ONE as int)) as i64,
        z: sat(tdiv(a.z * t, FX_ONE as int)) as i64,
    }
}

/// The exact inner product in raw units (carries the square of the scale).
pub open spec fn wide_dot(a: Vec3, b: Vec3) -> int {
    a.x * b.x + a.y * b.y + a.z * b.z
}

/// The fixed-point inner product.
pub open spec fn sv_dot(a: Vec3, b: Vec3) -> int {
    sat(tdiv(wide_dot(a, b), FX_ONE as int))
}

pub open spec fn sv_cross(a: Vec3, b: Vec3) -> Vec3 {
    Vec3 {
        x: sat(tdiv(a.y * b.z - a.z * b.y, FX_ONE as int)) as i64,
        y: sat(tdiv(a.z * b.x - a.x * b.z, FX_ONE as int)) as i64,
        z: sat(tdiv(a.x * b.y - a.y * b.x, FX_ONE as int)) as i64,
    }
}

/// The fixed-point Euclidean length.
pub open spec fn sv_len(a: Vec3) -> int {
    sat(sqrt_floor(wide_dot(a, a)))
}

/// Normalisation; the zero vector maps to itself.
pub open spec fn sv_unit(a: Vec3) -> Vec3 {
    if sv_len(a) == 0 {
        sv_zero()
    } else {
        Vec3 {
            x: sat(tdiv(a.x * (FX_ONE as int), sv_len(a))) as i64,
            y: sat(tdiv(a.y * (FX_ONE as int), sv_len(a))) as i64,
            z: sat(tdiv(a.z * (FX_ONE as int), sv_len(a))) as i64,
        }
    }
}

/// Division of every component by the fixed-point scalar `t`.
pub open spec fn sv_divs(a: Vec3, t: int) -> Vec3 {
    Vec3 {
        x: sat(tdiv(a.x * (FX_ONE as int), t)) as i64,
        y: sat(tdiv(a.y * (FX_ONE as int), t)) as i64,
        z: sat(tdiv(a.z * (FX_ONE as int), t)) as i64,
    }
}

/// Division of every component by a plain integer.
pub open spec fn sv_divk(a: Vec3, k: int) -> Vec3 {
    Vec3 {
        x: sat(tdiv(a.x as int, k)) as i64,
        y: sat(tdiv(a.y as int, k)) as i64,
        z: sat(tdiv(a.z as int, k)) as i64,
    }
}

/// Component-wise product, used for colour attenuation.
pub open spec fn sv_cor_dot(a: Vec3, b: Vec3) -> Vec3 {
    Vec3 {
        x: sat(tdiv(a.x * b.x, FX_ONE as int)) as i64,
        y: sat(tdiv(a.y * b.y, FX_ONE as int)) as i64,
        z: sat(tdiv(a.z * b.z, FX_ONE as int)) as i64,
    }
}

/// Below one raw unit on every axis.
pub open spec fn sv_near_zero(a: Vec3) -> bool {
    a.x == 0 && a.y == 0 && a.z == 0
}

/// Mirror reflection of `v` about the unit-ish normal `n`.
pub open spec fn sv_reflect(v: Vec3, n: Vec3) -> Vec3 {
    sv_sub(v, sv_scale(n, sat(sv_dot(v, n) + sv_dot(v, n))))
}

/// A product of two in-band scalars fits comfortably inside an `i128`.
pub proof fn lemma_fits_prod(a: int, b: int)
    requires
        fits(a),
        fits(b),
    ensures
        -0x1000000000000000 <= a * b <= 0x1000000000000000,
{
    assert(-0x1000000000000000 <= a * b <= 0x1000000000000000) by (nonlinear_arith)
        requires
            fits(a),
            fits(b),
    ;
}

impl Vec3 {
    pub fn new(x: i64, y: i64, z: i64) -> (r: Vec3)
        requires
            fits(x as int),
            fits(y as int),
            fits(z as int),
        ensures
            r.x == x && r.y == y && r.z == z,
            vfits(r),
    {
        Vec3 { x, y, z }
    }

    pub fn zero() -> (r: Vec3)
        ensures
            r == sv_zero(),
            vfits(r),
    {
        Vec3 { x: 0, y: 0, z: 0 }
    }

    pub fn add(&self, o: &Vec3) -> (r: Vec3)
        requires
            vfits(*self),
            vfits(*o),
        ensures
            r == sv_add(*self, *o),
            vfits(r),
    {
        Vec3 { x: fx_add(self.x, o.x), y: fx_add(self.y, o.y), z: fx_add(self.z, o.z) }
    }

    pub fn sub(&self, o: &Vec3) -> (r: Vec3)
        requires
            vfits(*self),
            vfits(*o),
        ensures
            r == sv_sub(*self, *o),
            vfits(r),
    {
        Vec3 { x: fx_sub(self.x, o.x), y: fx_sub(self.y, o.y), z: fx_sub(self.z, o.z) }
    }

    pub fn neg(&self) -> (r: Vec3)
        requires
            vfits(*self),
        ensures
            r == sv_neg(*self),
            vfits(r),
    {
        Vec3 { x: fx_neg(self.x), y: fx_neg(self.y), z: fx_neg(self.z) }
    }

    pub fn scale(&self, t: i64) -> (r: Vec3)
        requires
            vfits(*self),
            fits(t as int),
        ensures
            r == sv_scale(*self, t as int),
            vfits(r),
    {
        Vec3 { x: fx_mul(self.x, t), y: fx_mul(self.y, t), z: fx_mul(self.z, t) }
    }

    /// The exact inner product in raw units, before any rounding.
    pub fn dot_wide(&self, o: &Vec3) -> (r: i128)
        requires
            vfits(*self),
            vfits(*o),
        ensures
            r as int == wide_dot(*self, *o),
    {
        proof {
            lemma_fits_prod(self.x as int, o.x as int);
            lemma_fits_prod(self.y as int, o.y as int);
            lemma_fits_prod(self.z as int, o.z as int);
        }
        (self.x as i128) * (o.x as i128) + (self.y as i128) * (o.y as i128) + (self.z as i128) * (
        o.z as i128)
    }

    /// The fixed-point inner product.
    pub fn dot(&self, o: &Vec3) -> (r: i64)
        requires
            vfits(*self),
            vfits(*o),
        ensures
            r as int == sv_dot(*self, *o),
            fits(r as int),
    {
        let w = self.dot_wide(o);
        proof {
            lemma_wide_dot_bound(*self, *o);
        }
        let q = i128_tdiv(w, FX_ONE as i128);
        if q > FX_MAX as i128 {
            FX_MAX
        } else if q < -(FX_MAX as i128) {
            -FX_MAX
        } else {
            q as i64
        }
    }

    pub fn cross(&self, o: &Vec3) -> (r: Vec3)
        requires
            vfits(*self),
            vfits(*o),
        ensures
            r == sv_cross(*self, *o),
            vfits(r),
    {
        proof {
            lemma_fits_prod(self.y as int, o.z as int);
            lemma_fits_prod(self.z as int, o.y as int);
            lemma_fits_prod(self.z as int, o.x as int);
            lemma_fits_prod(self.x as int, o.z as int);
            lemma_fits_prod(self.x as int, o.y as int);
            lemma_fits_prod(self.y as int, o.x as int);
        }
        let wx: i128 = (self.y as i128) * (o.z as i128) - (self.z as i128) * (o.y as i128);
        let wy: i128 = (self.z as i128) * (o.x as i128) - (self.x as i128) * (o.z as i128);
        let wz: i128 = (self.x as i128) * (o.y as i128) - (self.y as i128) * (o.x as i128);
        let qx = i128_tdiv(wx, FX_ONE as i128);
        let qy = i128_tdiv(wy, FX_ONE as i128);
        let qz = i128_tdiv(wz, FX_ONE as i128);
        Vec3 { x: clamp_i128(qx), y: clamp_i128(qy), z: clamp_i128(qz) }
    }

    /// The squared length, in fixed-point units.
    pub fn squared_length(&self) -> (r: i64)
        requires
            vfits(*self),
        ensures
            r as int == sat(tdiv(wide_dot(*self, *self), FX_ONE as int)),
            fits(r as int),
            0 <= r,
    {
        let w = self.dot_wide(self);
        proof {
            lemma_wide_dot_self_nonneg(*self);
            lemma_wide_dot_bound(*self, *self);
            crate::fx::lemma_tdiv_pos_bound(w as int, FX_ONE as int);
        }
        let q = i128_tdiv(w, FX_ONE as i128);
        clamp_i128(q)
    }

    /// The Euclidean length, in fixed-point units.
    pub fn length(&self) -> (r: i64)
        requires
            vfits(*self),
        ensures
            r as int == sv_len(*self),
            fits(r as int),
            0 <= r,
    {
        let w = self.dot_wide(self);
        proof {
            lemma_wide_dot_self_nonneg(*self);
            lemma_sqrt_floor(w as int);
        }
        let s = isqrt_u128(w as u128);
        if s > FX_MAX as u128 {
            FX_MAX
        } else {
            s as i64
        }
    }

    /// Normalise; the zero vector is left as zero.
    pub fn normalize(&self) -> (r: Vec3)
        requires
            vfits(*self),
        ensures
            r == sv_unit(*self),
            vfits(r),
    {
        let l = self.length();
        if l == 0 {
            Vec3::zero()
        } else {
            Vec3 { x: fx_div(self.x, l), y: fx_div(self.y, l), z: fx_div(self.z, l) }
        }
    }

    /// Divide every component by the fixed-point scalar `t`.
    pub fn div_s(&self, t: i64) -> (r: Vec3)
        requires
            vfits(*self),
            fits(t as int),
            t != 0,
        ensures
            r == sv_divs(*self, t as int),
            vfits(r),
    {
        Vec3 { x: fx_div(self.x, t), y: fx_div(self.y, t), z: fx_div(self.z, t) }
    }

    /// Divide every component by a plain positive integer.
    pub fn div_int(&self, k: i64) -> (r: Vec3)
        requires
            vfits(*self),
            k > 0,
        ensures
            r == sv_divk(*self, k as int),
            vfits(r),
    {
        Vec3 {
            x: crate::fx::fx_div_int(self.x, k),
            y: crate::fx::fx_div_int(self.y, k),
            z: crate::fx::fx_div_int(self.z, k),
        }
    }

    /// Component-wise product.
    pub fn cor_dot(&self, o: &Vec3) -> (r: Vec3)
        requires
            vfits(*self),
            vfits(*o),
        ensures
            r == sv_cor_dot(*self, *o),
            vfits(r),
    {
        Vec3 { x: fx_mul(self.x, o.x), y: fx_mul(self.y, o.y), z: fx_mul(self.z, o.z) }
    }

    /// Below one raw unit on every axis.
    pub fn near_zero(&self) -> (r: bool)
        ensures
            r == sv_near_zero(*self),
    {
        self.x == 0 && self.y == 0 && self.z == 0
    }

    /// Mirror reflection about `n`.
    pub fn reflect(v: Vec3, n: Vec3) -> (r: Vec3)
        requires
            vfits(v),
            vfits(n),
        ensures
            r == sv_reflect(v, n),
            vfits(r),
    {
        let d = v.dot(&n);
        let two_d = fx_add(d, d);
        v.sub(&n.scale(two_d))
    }

    /// Snell refraction of the unit-ish direction `uv` about `n`.
    pub fn refract(uv: Vec3, n: Vec3, etai_over_etat: i64) -> (r: Vec3)
        requires
            vfits(uv),
            vfits(n),
            fits(etai_over_etat as int),
        ensures
            r == sv_refract(uv, n, etai_over_etat as int),
            vfits(r),
    {
        let cos_theta = fx_min(uv.neg().dot(&n), FX_ONE);
        let r_out_perp = uv.add(&n.scale(cos_theta)).scale(etai_over_etat);
        let k = fx_abs(fx_sub(FX_ONE, r_out_perp.squared_length()));
        let r_out_parallel = n.scale(fx_neg(fx_sqrt(k)));
        r_out_perp.add(&r_out_parallel)
    }
}

/// Snell refraction, spelled out over the component operations.
pub open spec fn sv_refract(uv: Vec3, n: Vec3, ratio: int) -> Vec3 {
    let cos_theta = if sv_dot(sv_neg(uv), n) <= FX_ONE as int {
        sv_dot(sv_neg(uv), n)
    } else {
        FX_ONE as int
    };
    let r_out_perp = sv_scale(sv_add(uv, sv_scale(n, cos_theta)), ratio);
    let lensq = sat(tdiv(wide_dot(r_out_perp, r_out_perp), FX_ONE as int));
    let k = if FX_ONE as int - lensq >= 0 {
        FX_ONE as int - lensq
    } else {
        -(FX_ONE as int - lensq)
    };
    sv_add(r_out_perp, sv_scale(n, -sqrt_floor(k * (FX_ONE as int))))
}

/// Clamp a quotient back into the scalar band.
fn clamp_i128(q: i128) -> (r: i64)
    ensures
        r as int == sat(q as int),
        fits(r as int),
{
    if q > FX_MAX as i128 {
        FX_MAX
    } else if q < -(FX_MAX as i128) {
        -FX_MAX
    } else {
        q as i64
    }
}

/// A vector's inner product with itself is non-negative.
pub proof fn lemma_wide_dot_self_nonneg(a: Vec3)
    ensures
        wide_dot(a, a) >= 0,
{
    assert(a.x * a.x >= 0 && a.y * a.y >= 0 && a.z * a.z >= 0) by (nonlinear_arith);
}

/// Inner products of in-band vectors are bounded well inside an `i128`.
pub proof fn lemma_wide_dot_bound(a: Vec3, b: Vec3)
    requires
        vfits(a),
        vfits(b),
    ensures
        -0x3000000000000000 <= wide_dot(a, b) <= 0x3000000000000000,
{
    lemma_fits_prod(a.x as int, b.x as int);
    lemma_fits_prod(a.y as int, b.y as int);
    lemma_fits_prod(a.z as int, b.z as int);
}

impl Default for Vec3 {
    /// The default vector is the origin.
    fn default() -> (r: Vec3)
        ensures
            r == sv_zero(),
    {
        Vec3 { x: 0, y: 0, z: 0 }
    }
}

/// A jitter offset, uniform over `[-1/2, 1/2)` in x and y.
pub fn sample_square(rng: &mut RtRng) -> (r: Vec3)
    ensures
        vfits(r),
        -(FX_ONE as int) / 2 <= r.x < FX_ONE as int / 2,
        -(FX_ONE as int) / 2 <= r.y < FX_ONE as int / 2,
        r.z == 0,
{
    let half = FX_ONE / 2;
    Vec3 { x: random_fx(rng, -half, half), y: random_fx(rng, -half, half), z: 0 }
}

/// Does the vector lie strictly inside the unit disk/ball?
pub open spec fn sv_in_unit_ball(v: Vec3) -> bool {
    sat(tdiv(wide_dot(v, v), FX_ONE as int)) < FX_ONE as int
}

/// Is the vector's squared length within a few raw units of one?
pub open spec fn sv_unit_length(v: Vec3) -> bool {
    FX_ONE as int - 16 <= sat(tdiv(wide_dot(v, v), FX_ONE as int)) <= FX_ONE as int + 16
}

/// A point inside the unit disk in the x-y plane, by rejection sampling
/// with a bounded number of attempts (the centre is the fallback).
pub fn random_in_unit_disk(rng: &mut RtRng) -> (r: Vec3)
    ensures
        vfits(r),
        r.z == 0,
        sv_in_unit_ball(r),
{
    let mut attempts: u32 = 0;
    let mut p = Vec3::zero();
    let mut found = false;
    proof {
        lemma_axis_unit_length();
    }
    while attempts < 64 && !found
        invariant
            vfits(p),
            p.z == 0,
            sv_in_unit_ball(p),
        decreases 64 - attempts,
    {
        let q = Vec3 { x: random_fx(rng, -FX_ONE, FX_ONE), y: random_fx(rng, -FX_ONE, FX_ONE), z: 0 };
        if q.squared_length() < FX_ONE {
            p = q;
            found = true;
        }
        attempts = attempts + 1;
    }
    p
}

/// A direction whose squared length is within a few raw units of one
/// and which is never the zero vector, by rejection sampling with a
/// bounded number of attempts; a fixed axis direction is the fallback.
pub fn random_unit_vector(rng: &mut RtRng) -> (r: Vec3)
    ensures
        vfits(r),
        !sv_near_zero(r),
        sv_unit_length(r),
{
    let mut attempts: u32 = 0;
    let mut out = Vec3 { x: 0, y: 0, z: FX_ONE };
    let mut found = false;
    proof {
        lemma_axis_unit_length();
    }
    while attempts < 64 && !found
        invariant
            vfits(out),
            !sv_near_zero(out),
            sv_unit_length(out),
        decreases 64 - attempts,
    {
        let q = Vec3 {
            x: random_fx(rng, -FX_ONE, FX_ONE),
            y: random_fx(rng, -FX_ONE, FX_ONE),
            z: random_fx(rng, -FX_ONE, FX_ONE),
        };
        let lensq = q.squared_length();
        if 0 < lensq && lensq <= FX_ONE {
            let u = q.normalize();
            let ul = u.squared_length();
            if !u.near_zero() && FX_ONE - 16 <= ul && ul <= FX_ONE + 16 {
                out = u;
                found = true;
            }
        }
        attempts = attempts + 1;
    }
    out
}

/// The fallback axis direction has squared length exactly one.
proof fn lemma_axis_unit_length()
    ensures
        sv_unit_length(Vec3 { x: 0, y: 0, z: FX_ONE }),
        sv_in_unit_ball(Vec3 { x: 0, y: 0, z: 0 }),
{
    let a = Vec3 { x: 0, y: 0, z: FX_ONE };
    assert(wide_dot(a, a) == (FX_ONE as int) * (FX_ONE as int));
    assert(tdiv((FX_ONE as int) * (FX_ONE as int), FX_ONE as int) == FX_ONE as int) by {
        vstd::arithmetic::div_mod::lemma_div_multiples_vanish(FX_ONE as int, FX_ONE as int);
    }
    let z = Vec3 { x: 0, y: 0, z: 0 };
    assert(wide_dot(z, z) == 0);
    assert(tdiv(0, FX_ONE as int) == 0) by {
        vstd::arithmetic::div_mod::lemma_div_of0(FX_ONE as int);
    }
}

} // verus!

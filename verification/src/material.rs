//! The material model: diffuse, specular, refractive and emissive.
//!
//! Each scatter call draws its randomness through the wrappers in
//! [`crate::rt`]; everything done with a drawn value is a pure function
//! stated by the spec functions here, so a scatter result is pinned down
//! once the draws are fixed.

use vstd::prelude::*;

use crate::fx::{
    fits, fx_add, fx_div, fx_max, fx_min, fx_mul, fx_sqrt, fx_sub, sadd, sat, sdiv, smul,
    sqrt_floor, ssub, FX_ONE,
};
use crate::hit::{rec_wf, HitRecord};
use crate::ray::{ray_wf, Ray};
use crate::rt::{random_unit_fx, RtRng};
use crate::texture::{tex_value, tex_wf, SolidColor, Texture};
use crate::vec3::{
    random_unit_vector, sv_add, sv_dot, sv_near_zero, sv_neg, sv_reflect, sv_refract, sv_scale,
    sv_unit, vfits, Vec3,
};

verus! {

/// Diffuse, with a texture-backed albedo.
pub struct Lambertian {
    pub tex: Texture,
}

/// Specular, with a fuzz radius clamped at one.
pub struct Metal {
    pub albedo: Vec3,
    pub fuzz: i64,
}

/// Refractive, with a positive index of refraction.
pub struct Dielectric {
    pub ref_idx: i64,
}

/// Emissive only.
pub struct DiffuseLight {
    pub tex: Texture,
}

/// The closed set of materials.
pub enum Material {
    Lambertian(Lambertian),
    Metal(Metal),
    Dielectric(Dielectric),
    DiffuseLight(DiffuseLight),
}

pub open spec fn material_wf(m: Material) -> bool {
    match m {
        Material::Lambertian(l) => tex_wf(l.tex),
        Material::Metal(mt) => vfits(mt.albedo) && fits(mt.fuzz as int),
        Material::Dielectric(d) => fits(d.ref_idx as int) && d.ref_idx > 0,
        Material::DiffuseLight(dl) => tex_wf(dl.tex),
    }
}

/// The diffuse bounce direction: normal plus a random unit vector,
/// falling back to the bare normal when the sum all but vanishes.
pub open spec fn lambertian_dir(n: Vec3, uvec: Vec3) -> Vec3 {
    if sv_near_zero(sv_add(n, uvec)) {
        n
    } else {
        sv_add(n, uvec)
    }
}

/// The specular bounce direction: the normalised mirror reflection,
/// perturbed by `fuzz` times a random unit vector.
pub open spec fn metal_dir(vin: Vec3, n: Vec3, fuzz: int, uvec: Vec3) -> Vec3 {
    sv_add(sv_unit(sv_reflect(vin, n)), sv_scale(uvec, fuzz))
}

/// The Schlick reflectance polynomial.
pub open spec fn reflectance_spec(cosine: int, refr_idx: int) -> int {
    let r00 = sdiv(ssub(FX_ONE as int, refr_idx), sadd(FX_ONE as int, refr_idx));
    let r0 = smul(r00, r00);
    let p1 = ssub(FX_ONE as int, cosine);
    let p2 = smul(p1, p1);
    let p4 = smul(p2, p2);
    let p5 = smul(p4, p1);
    sadd(r0, smul(ssub(FX_ONE as int, r0), p5))
}

/// The effective refraction ratio for the struck face.
pub open spec fn dielectric_ri(front_face: bool, idx: int) -> int {
    if front_face {
        sdiv(FX_ONE as int, idx)
    } else {
        idx
    }
}

/// The sine recovered from a cosine, floored at zero before the root.
pub open spec fn sin_from_cos(cos: int) -> int {
    let s2 = ssub(FX_ONE as int, smul(cos, cos));
    sqrt_floor((if s2 >= 0 {
        s2
    } else {
        0
    }) * (FX_ONE as int))
}

/// Does the dielectric reflect: either total internal reflection, or the
/// Schlick reflectance beating the uniform draw.
pub open spec fn dielectric_reflect_choice(cos: int, ri: int, draw: int) -> bool {
    smul(ri, sin_from_cos(cos)) > FX_ONE as int || reflectance_spec(cos, ri) > draw
}

/// The dielectric bounce direction for a given uniform draw.
pub open spec fn dielectric_dir(vin: Vec3, n: Vec3, front_face: bool, idx: int, draw: int) -> Vec3 {
    let unit_dir = sv_unit(vin);
    let ri = dielectric_ri(front_face, idx);
    let cos = if sv_dot(sv_neg(unit_dir), n) <= FX_ONE as int {
        sv_dot(sv_neg(unit_dir), n)
    } else {
        FX_ONE as int
    };
    if dielectric_reflect_choice(cos, ri, draw) {
        sv_reflect(unit_dir, n)
    } else {
        sv_refract(unit_dir, n, ri)
    }
}

/// What a material emits at a surface point.
pub open spec fn emitted_spec(m: Material, u: int, v: int, p: Vec3) -> Vec3 {
    match m {
        Material::DiffuseLight(dl) => tex_value(dl.tex, u, v, p),
        _ => Vec3 { x: 0, y: 0, z: 0 },
    }
}

impl Lambertian {
    pub fn new(albedo: Vec3) -> (r: Lambertian)
        requires
            vfits(albedo),
        ensures
            r.tex == Texture::Solid(SolidColor { albedo }),
            material_wf(Material::Lambertian(r)),
    {
        Lambertian { tex: Texture::Solid(SolidColor::new(albedo)) }
    }

    pub fn new_by_tex(tex: Texture) -> (r: Lambertian)
        requires
            tex_wf(tex),
        ensures
            r.tex == tex,
            material_wf(Material::Lambertian(r)),
    {
        Lambertian { tex }
    }
}

impl Metal {
    /// Fuzz is clamped into [0, 1].
    pub fn new(albedo: Vec3, fuzz: i64) -> (r: Metal)
        requires
            vfits(albedo),
            fits(fuzz as int),
        ensures
            r.albedo == albedo,
            r.fuzz == (if fuzz < 0 {
                0
            } else if fuzz < FX_ONE {
                fuzz
            } else {
                FX_ONE
            }),
            0 <= r.fuzz <= FX_ONE,
            material_wf(Material::Metal(r)),
    {
        let fuzz_ = if fuzz < 0 {
            0
        } else if fuzz < FX_ONE {
            fuzz
        } else {
            FX_ONE
        };
        Metal { albedo, fuzz: fuzz_ }
    }
}

impl Dielectric {
    pub fn new(ref_idx: i64) -> (r: Dielectric)
        requires
            fits(ref_idx as int),
            ref_idx > 0,
        ensures
            r.ref_idx == ref_idx,
            material_wf(Material::Dielectric(r)),
    {
        Dielectric { ref_idx }
    }

    /// The Schlick reflectance.
    pub fn reflectance(cosine: i64, refr_idx: i64) -> (r: i64)
        requires
            fits(cosine as int),
            fits(refr_idx as int),
            refr_idx != -FX_ONE,
        ensures
            r as int == reflectance_spec(cosine as int, refr_idx as int),
            fits(r as int),
    {
        let r00 = fx_div(fx_sub(FX_ONE, refr_idx), fx_add(FX_ONE, refr_idx));
        let r0 = fx_mul(r00, r00);
        let p1 = fx_sub(FX_ONE, cosine);
        let p2 = fx_mul(p1, p1);
        let p4 = fx_mul(p2, p2);
        let p5 = fx_mul(p4, p1);
        fx_add(r0, fx_mul(fx_sub(FX_ONE, r0), p5))
    }
}

impl DiffuseLight {
    pub fn new(tex: Texture) -> (r: DiffuseLight)
        requires
            tex_wf(tex),
        ensures
            r.tex == tex,
            material_wf(Material::DiffuseLight(r)),
    {
        DiffuseLight { tex }
    }

    pub fn new_by_color(emit: Vec3) -> (r: DiffuseLight)
        requires
            vfits(emit),
        ensures
            r.tex == Texture::Solid(SolidColor { albedo: emit }),
            material_wf(Material::DiffuseLight(r)),
    {
        DiffuseLight { tex: Texture::Solid(SolidColor::new(emit)) }
    }
}

impl Material {
    /// Scatter an incoming ray at a hit: write the attenuation and the
    /// outgoing ray, and report whether the bounce continues.
    pub fn scatter(
        &self,
        ray_in: &Ray,
        rec: &HitRecord,
        attenuation: &mut Vec3,
        scattered: &mut Ray,
        rng: &mut RtRng,
    ) -> (res: bool)
        requires
            material_wf(*self),
            ray_wf(*ray_in),
            rec_wf(*rec),
            vfits(*old(attenuation)),
            ray_wf(*old(scattered)),
        ensures
            vfits(*final(attenuation)),
            ray_wf(*final(scattered)),
            *self is Lambertian ==> res,
            self matches Material::Lambertian(l) ==> {
                &&& *final(attenuation) == tex_value(l.tex, rec.u as int, rec.v as int, rec.point)
                &&& final(scattered).orig == rec.point
                &&& final(scattered).time == ray_in.time
                &&& exists|uvec: Vec3|
                    vfits(uvec) && !sv_near_zero(uvec) && crate::vec3::sv_unit_length(uvec)
                        && final(scattered).dir == lambertian_dir(rec.normal, uvec)
                &&& !sv_near_zero(rec.normal) ==> !sv_near_zero(final(scattered).dir)
            },
            self matches Material::Metal(mt) ==> {
                &&& *final(attenuation) == mt.albedo
                &&& final(scattered).orig == rec.point
                &&& final(scattered).time == ray_in.time
                &&& exists|uvec: Vec3|
                    vfits(uvec) && !sv_near_zero(uvec) && crate::vec3::sv_unit_length(uvec)
                        && final(scattered).dir == metal_dir(
                        ray_in.dir,
                        rec.normal,
                        mt.fuzz as int,
                        uvec,
                    )
                &&& res == (sv_dot(final(scattered).dir, rec.normal) > 0)
            },
            self matches Material::Dielectric(d) ==> {
                &&& res
                &&& *final(attenuation) == (Vec3 { x: FX_ONE, y: FX_ONE, z: FX_ONE })
                &&& final(scattered).orig == rec.point
                &&& final(scattered).time == ray_in.time
                &&& exists|draw: int|
                    0 <= draw < FX_ONE as int && final(scattered).dir == dielectric_dir(
                        ray_in.dir,
                        rec.normal,
                        rec.front_face,
                        d.ref_idx as int,
                        draw,
                    )
            },
            *self is DiffuseLight ==> {
                &&& !res
                &&& *final(attenuation) == *old(attenuation)
                &&& *final(scattered) == *old(scattered)
            },
            *old(attenuation) == *final(attenuation) || vfits(*final(attenuation)),
    {
        match self {
            Material::Lambertian(l) => {
                let uvec = random_unit_vector(rng);
                let sum = rec.normal.add(&uvec);
                let dir = if sum.near_zero() {
                    rec.normal
                } else {
                    sum
                };
                *scattered = Ray::new(rec.point, dir, ray_in.time);
                *attenuation = l.tex.value(rec.u, rec.v, rec.point);
                proof {
                    assert(vfits(uvec) && !sv_near_zero(uvec) && crate::vec3::sv_unit_length(uvec)
                        && final(scattered).dir == lambertian_dir(rec.normal, uvec));
                }
                true
            },
            Material::Metal(mt) => {
                let uvec = random_unit_vector(rng);
                let reflected = Vec3::reflect(ray_in.dir, rec.normal).normalize().add(
                    &uvec.scale(mt.fuzz),
                );
                *scattered = Ray::new(rec.point, reflected, ray_in.time);
                *attenuation = mt.albedo;
                proof {
                    assert(vfits(uvec) && !sv_near_zero(uvec) && crate::vec3::sv_unit_length(uvec)
                        && final(scattered).dir == metal_dir(
                        ray_in.dir,
                        rec.normal,
                        mt.fuzz as int,
                        uvec,
                    ));
                }
                scattered.dir.dot(&rec.normal) > 0
            },
            Material::Dielectric(d) => {
                *attenuation = Vec3::new(FX_ONE, FX_ONE, FX_ONE);
                let ri = if rec.front_face {
                    fx_div(FX_ONE, d.ref_idx)
                } else {
                    d.ref_idx
                };
                let unit_dir = ray_in.dir.normalize();
                let cos_theta = fx_min(unit_dir.neg().dot(&rec.normal), FX_ONE);
                let s2 = fx_sub(FX_ONE, fx_mul(cos_theta, cos_theta));
                let sin_theta = fx_sqrt(fx_max(s2, 0));
                let cannot_refract = fx_mul(ri, sin_theta) > FX_ONE;
                let draw = random_unit_fx(rng);
                let dir = if cannot_refract || Dielectric::reflectance(cos_theta, ri) > draw {
                    Vec3::reflect(unit_dir, rec.normal)
                } else {
                    Vec3::refract(unit_dir, rec.normal, ri)
                };
                *scattered = Ray::new(rec.point, dir, ray_in.time);
                proof {
                    assert(0 <= draw < FX_ONE as int && final(scattered).dir == dielectric_dir(
                        ray_in.dir,
                        rec.normal,
                        rec.front_face,
                        d.ref_idx as int,
                        draw as int,
                    ));
                }
                true
            },
            Material::DiffuseLight(_) => false,
        }
    }

    /// What the material emits at a surface point.
    pub fn emitted(&self, u: i64, v: i64, p: Vec3) -> (r: Vec3)
        requires
            material_wf(*self),
            fits(u as int),
            fits(v as int),
            vfits(p),
        ensures
            r == emitted_spec(*self, u as int, v as int, p),
            vfits(r),
    {
        match self {
            Material::DiffuseLight(dl) => dl.tex.value(u, v, p),
            _ => Vec3::zero(),
        }
    }
}

/// A diffuse bounce never returns the zero direction: when the jittered
/// sum all but vanishes, the bare surface normal stands in.
pub proof fn lemma_lambertian_dir_not_near_zero(n: Vec3, uvec: Vec3)
    requires
        !sv_near_zero(n),
    ensures
        !sv_near_zero(lambertian_dir(n, uvec)),
{
}

/// At normal incidence (cosine one) no total internal reflection can
/// occur: the bounce refracts whenever the Schlick reflectance does not
/// beat the draw, whatever the refraction ratio.
pub proof fn lemma_dielectric_normal_incidence(ri: int, draw: int)
    requires
        fits(ri),
        reflectance_spec(FX_ONE as int, ri) <= draw,
    ensures
        !dielectric_reflect_choice(FX_ONE as int, ri, draw),
{
    assert(smul(FX_ONE as int, FX_ONE as int) == FX_ONE as int) by {
        vstd::arithmetic::div_mod::lemma_div_multiples_vanish(FX_ONE as int, FX_ONE as int);
        assert((FX_ONE as int) * (FX_ONE as int) / (FX_ONE as int) == FX_ONE as int);
    }
    assert(sin_from_cos(FX_ONE as int) == 0) by {
        assert(ssub(FX_ONE as int, FX_ONE as int) == 0);
        assert(sqrt_floor(0) == 0);
    }
    assert(smul(ri, 0) == 0) by {
        assert(ri * 0 == 0);
        vstd::arithmetic::div_mod::lemma_div_of0(FX_ONE as int);
    }
}

/// Past the critical angle, reflection is forced no matter the draw.
pub proof fn lemma_dielectric_total_internal(cos: int, ri: int, draw: int)
    requires
        smul(ri, sin_from_cos(cos)) > FX_ONE as int,
    ensures
        dielectric_reflect_choice(cos, ri, draw),
{
}

} // verus!

//! The camera and the recursive path tracer.
//!
//! The camera holds a per-render configuration plus basis vectors that
//! [`Camera::update`] derives from it.  Rendering walks every pixel,
//! averages jittered samples and writes gamma-corrected bytes into a
//! caller-owned buffer; `ray_color` is the light-transport recurrence,
//! whose bounce budget makes it terminate.

use vstd::prelude::*;

use crate::color::write_color;
use crate::fx::{fits, fx_add, fx_div_int, fx_mul, sadd, sat, sdivk, smul, FX_MAX, FX_ONE};
use crate::hit::{hittable_hit_spec, hittable_wf, HitRecord, Hittable};
use crate::interval::{ivl2, Interval};
use crate::material::{emitted_spec, material_wf, Material};
use crate::ray::{ray_wf, Ray};
use crate::rt::{random_unit_fx, RtRng};
use crate::trig::{tan_half_deg, tan_half_deg_spec};
use crate::vec3::{
    random_in_unit_disk, sample_square, sv_add, sv_cross, sv_divk, sv_neg, sv_scale, sv_sub,
    sv_unit, sv_zero, vfits, Vec3,
};

verus! {

/// The lower ray-parameter cutoff that rejects self-intersections.
pub const T_EPS: i64 = 66;

pub struct Camera {
    pub vfov: i64,
    pub width_height_ratio: i64,
    pub width: usize,
    pub height: usize,
    pub center: Vec3,
    pub pixel00: Vec3,
    pub pixel_u: Vec3,
    pub pixel_v: Vec3,
    pub samples_per_pixel: usize,
    pub max_depth: i32,
    pub lookfrom: Vec3,
    pub lookat: Vec3,
    pub vup: Vec3,
    pub u: Vec3,
    pub v: Vec3,
    pub w: Vec3,
    pub defocus_angle: i64,
    pub focus_dist: i64,
    pub defocus_disk_u: Vec3,
    pub defocus_disk_v: Vec3,
    pub background: Vec3,
}

/// The configuration fields are in band and the dimensions usable.
pub open spec fn camera_cfg_wf(c: Camera) -> bool {
    &&& fits(c.vfov as int) && 0 <= c.vfov
    &&& fits(c.width_height_ratio as int)
    &&& 0 < c.width <= 16384
    &&& 0 < c.height <= 16384
    &&& 1 <= c.samples_per_pixel <= 1000000
    &&& vfits(c.lookfrom) && vfits(c.lookat) && vfits(c.vup)
    &&& fits(c.defocus_angle as int) && 0 <= c.defocus_angle
    &&& fits(c.focus_dist as int)
    &&& vfits(c.background)
}

/// The derived fields are in band too.
pub open spec fn camera_wf(c: Camera) -> bool {
    &&& camera_cfg_wf(c)
    &&& vfits(c.center) && vfits(c.pixel00) && vfits(c.pixel_u) && vfits(c.pixel_v)
    &&& vfits(c.u) && vfits(c.v) && vfits(c.w)
    &&& vfits(c.defocus_disk_u) && vfits(c.defocus_disk_v)
}

pub open spec fn cam_w(c: Camera) -> Vec3 {
    sv_unit(sv_sub(c.lookfrom, c.lookat))
}

pub open spec fn cam_u(c: Camera) -> Vec3 {
    sv_unit(sv_cross(c.vup, cam_w(c)))
}

pub open spec fn cam_v(c: Camera) -> Vec3 {
    sv_cross(cam_w(c), cam_u(c))
}

pub open spec fn cam_viewport_h(c: Camera) -> int {
    smul(smul(2 * (FX_ONE as int), tan_half_deg_spec(c.vfov as int)), c.focus_dist as int)
}

pub open spec fn cam_viewport_w(c: Camera) -> int {
    smul(cam_viewport_h(c), c.width_height_ratio as int)
}

pub open spec fn cam_vp_u(c: Camera) -> Vec3 {
    sv_scale(cam_u(c), cam_viewport_w(c))
}

pub open spec fn cam_vp_v(c: Camera) -> Vec3 {
    sv_scale(sv_neg(cam_v(c)), cam_viewport_h(c))
}

pub open spec fn cam_pixel_u(c: Camera) -> Vec3 {
    sv_divk(cam_vp_u(c), c.width as int)
}

pub open spec fn cam_pixel_v(c: Camera) -> Vec3 {
    sv_divk(cam_vp_v(c), c.height as int)
}

pub open spec fn cam_layer00(c: Camera) -> Vec3 {
    sv_sub(
        sv_sub(
            sv_sub(c.lookfrom, sv_scale(cam_w(c), c.focus_dist as int)),
            sv_divk(cam_vp_u(c), 2),
        ),
        sv_divk(cam_vp_v(c), 2),
    )
}

pub open spec fn cam_pixel00(c: Camera) -> Vec3 {
    sv_add(cam_layer00(c), sv_scale(sv_add(cam_pixel_u(c), cam_pixel_v(c)), FX_ONE as int / 2))
}

pub open spec fn cam_defocus_radius(c: Camera) -> int {
    smul(c.focus_dist as int, tan_half_deg_spec(c.defocus_angle as int))
}

/// Do the derived fields agree with the configuration?
pub open spec fn camera_derived_ok(c: Camera) -> bool {
    &&& c.center == c.lookfrom
    &&& c.w == cam_w(c)
    &&& c.u == cam_u(c)
    &&& c.v == cam_v(c)
    &&& c.pixel_u == cam_pixel_u(c)
    &&& c.pixel_v == cam_pixel_v(c)
    &&& c.pixel00 == cam_pixel00(c)
    &&& c.defocus_disk_u == sv_scale(cam_u(c), cam_defocus_radius(c))
    &&& c.defocus_disk_v == sv_scale(cam_v(c), cam_defocus_radius(c))
}

/// The nearest hit for a radiance query: parameters from just above
/// zero to the edge of the band.
pub open spec fn hit_at(world: Hittable, ray_: Ray) -> Option<HitRecord> {
    hittable_hit_spec(world, ray_, ivl2(T_EPS as int, FX_MAX as int))
}

/// An integer as a fixed-point scalar, saturated.
pub open spec fn int_fx(i: int) -> int {
    sat(i * (FX_ONE as int))
}

/// What the three sampling draws of one camera ray may be: a sub-pixel
/// jitter uniform over half a unit each way, a defocus origin inside
/// the unit disk, and a time in `[0, 1)`.
pub open spec fn sampling_ok(offset: Vec3, disk: Vec3, time: int) -> bool {
    &&& vfits(offset)
    &&& offset.z == 0
    &&& -(FX_ONE as int) / 2 <= offset.x
    &&& offset.x < (FX_ONE as int) / 2
    &&& -(FX_ONE as int) / 2 <= offset.y
    &&& offset.y < (FX_ONE as int) / 2
    &&& vfits(disk)
    &&& disk.z == 0
    &&& crate::vec3::sv_in_unit_ball(disk)
    &&& 0 <= time
    &&& time < FX_ONE as int
}

/// The ray a bounce continues with: from the hit point, in the given
/// direction, at the incoming ray's time.
pub open spec fn bounce_ray(rec: HitRecord, time: i64, dir: Vec3) -> Ray {
    Ray { orig: rec.point, dir, time }
}

/// Trigger markers for the existentially quantified random draws.
pub open spec fn chosen_pair(a: Vec3, b: Vec3) -> bool {
    true
}

pub open spec fn chosen_dir(a: Vec3) -> bool {
    true
}

pub open spec fn chosen_draw(d: int, b: Vec3) -> bool {
    true
}

/// The light-transport recurrence of the renderer, as a relation
/// between a ray and the radiance returned for it: exhausted depth is
/// black, a miss is the background, and a hit is handled by
/// [`radiance_hit_rel`].
#[verifier::opaque]
pub open spec fn radiance_rel(
    cam: Camera,
    world: Hittable,
    mats: Seq<Material>,
    ray_: Ray,
    depth: int,
    out: Vec3,
) -> bool
    decreases depth, 1int,
{
    if depth <= 0 {
        out == sv_zero()
    } else {
        match hit_at(world, ray_) {
            None => out == cam.background,
            Some(rec) => radiance_hit_rel(cam, world, mats, ray_, rec, depth, out),
        }
    }
}

/// The radiance produced at a hit: the material's emission plus, when
/// it scatters, the attenuated radiance of a bounce whose random draws
/// are quantified existentially.
#[verifier::opaque]
pub open spec fn radiance_hit_rel(
    cam: Camera,
    world: Hittable,
    mats: Seq<Material>,
    ray_: Ray,
    rec: HitRecord,
    depth: int,
    out: Vec3,
) -> bool
    decreases depth, 0int,
{
    if depth <= 0 {
        out == sv_zero()
    } else {
        match rec.mat {
            None => out == sv_zero(),
            Some(mi) => if mi >= mats.len() {
                out == sv_zero()
            } else {
                match mats[mi as int] {
                    Material::Lambertian(l) => exists|uvec: Vec3, sub: Vec3|
                        #![trigger chosen_pair(uvec, sub)]
                        {
                            &&& vfits(uvec)
                            &&& !crate::vec3::sv_near_zero(uvec)
                            &&& crate::vec3::sv_unit_length(uvec)
                            &&& radiance_rel(
                                cam,
                                world,
                                mats,
                                bounce_ray(
                                    rec,
                                    ray_.time,
                                    crate::material::lambertian_dir(rec.normal, uvec),
                                ),
                                depth - 1,
                                sub,
                            )
                            &&& out == sv_add(
                                emitted_spec(mats[mi as int], rec.u as int, rec.v as int, rec.point),
                                crate::vec3::sv_cor_dot(
                                    crate::texture::tex_value(
                                        l.tex,
                                        rec.u as int,
                                        rec.v as int,
                                        rec.point,
                                    ),
                                    sub,
                                ),
                            )
                        },
                    Material::Metal(mt) => exists|uvec: Vec3|
                        #![trigger chosen_dir(uvec)]
                        {
                            &&& vfits(uvec)
                            &&& !crate::vec3::sv_near_zero(uvec)
                            &&& crate::vec3::sv_unit_length(uvec)
                            &&& (crate::vec3::sv_dot(
                                crate::material::metal_dir(
                                    ray_.dir,
                                    rec.normal,
                                    mt.fuzz as int,
                                    uvec,
                                ),
                                rec.normal,
                            ) > 0 ==> exists|sub: Vec3|
                                #![trigger chosen_dir(sub)]
                                {
                                    &&& radiance_rel(
                                        cam,
                                        world,
                                        mats,
                                        bounce_ray(
                                            rec,
                                            ray_.time,
                                            crate::material::metal_dir(
                                                ray_.dir,
                                                rec.normal,
                                                mt.fuzz as int,
                                                uvec,
                                            ),
                                        ),
                                        depth - 1,
                                        sub,
                                    )
                                    &&& out == sv_add(
                                        emitted_spec(
                                            mats[mi as int],
                                            rec.u as int,
                                            rec.v as int,
                                            rec.point,
                                        ),
                                        crate::vec3::sv_cor_dot(mt.albedo, sub),
                                    )
                                })
                            &&& (crate::vec3::sv_dot(
                                crate::material::metal_dir(
                                    ray_.dir,
                                    rec.normal,
                                    mt.fuzz as int,
                                    uvec,
                                ),
                                rec.normal,
                            ) <= 0 ==> out == emitted_spec(
                                mats[mi as int],
                                rec.u as int,
                                rec.v as int,
                                rec.point,
                            ))
                        },
                    Material::Dielectric(d) => exists|draw: int, sub: Vec3|
                        #![trigger chosen_draw(draw, sub)]
                        {
                            &&& 0 <= draw
                            &&& draw < FX_ONE as int
                            &&& radiance_rel(
                                cam,
                                world,
                                mats,
                                bounce_ray(
                                    rec,
                                    ray_.time,
                                    crate::material::dielectric_dir(
                                        ray_.dir,
                                        rec.normal,
                                        rec.front_face,
                                        d.ref_idx as int,
                                        draw,
                                    ),
                                ),
                                depth - 1,
                                sub,
                            )
                            &&& out == sv_add(
                                emitted_spec(mats[mi as int], rec.u as int, rec.v as int, rec.point),
                                crate::vec3::sv_cor_dot(
                                    Vec3 { x: FX_ONE, y: FX_ONE, z: FX_ONE },
                                    sub,
                                ),
                            )
                        },
                    Material::DiffuseLight(_) => out == emitted_spec(
                        mats[mi as int],
                        rec.u as int,
                        rec.v as int,
                        rec.point,
                    ),
                }
            },
        }
    }
}

/// One sample's radiance: cast with some admissible draws.
#[verifier::opaque]
pub open spec fn sample_ok(
    cam: Camera,
    world: Hittable,
    mats: Seq<Material>,
    i: int,
    j: int,
    c: Vec3,
) -> bool {
    exists|offset: Vec3, disk: Vec3, time: int|
        #![trigger get_ray_spec(cam, i, j, offset, disk, time)]
        {
            &&& sampling_ok(offset, disk, time)
            &&& radiance_rel(
                cam,
                world,
                mats,
                get_ray_spec(cam, i, j, offset, disk, time),
                cam.max_depth as int,
                c,
            )
        }
}

/// Every entry of the sequence is a valid sample radiance.
#[verifier::opaque]
pub open spec fn samples_ok(
    cam: Camera,
    world: Hittable,
    mats: Seq<Material>,
    i: int,
    j: int,
    cs: Seq<Vec3>,
) -> bool {
    forall|k: int| 0 <= k < cs.len() ==> #[trigger] sample_ok(cam, world, mats, i, j, cs[k])
}

/// The saturating left fold that sums the samples in order.
pub open spec fn fold_sum(cs: Seq<Vec3>) -> Vec3
    decreases cs.len(),
{
    if cs.len() == 0 {
        sv_zero()
    } else {
        sv_add(fold_sum(cs.drop_last()), cs.last())
    }
}

/// The accumulator after `n` samples of pixel `(i, j)`: there is a
/// sequence of `n` valid sample radiances whose ordered sum it is.
#[verifier::opaque]
pub open spec fn sample_sum_rel(
    cam: Camera,
    world: Hittable,
    mats: Seq<Material>,
    i: int,
    j: int,
    n: int,
    acc: Vec3,
) -> bool {
    exists|cs: Seq<Vec3>|
        #![trigger samples_ok(cam, world, mats, i, j, cs)]
        {
            &&& cs.len() == n
            &&& samples_ok(cam, world, mats, i, j, cs)
            &&& acc == fold_sum(cs)
        }
}

/// Has pixel `(i, j)` of the byte buffer been filled with the
/// quantised average of a full set of samples?
#[verifier::opaque]
pub open spec fn pixel_done(
    cam: Camera,
    world: Hittable,
    mats: Seq<Material>,
    img: Seq<u8>,
    width: int,
    i: int,
    j: int,
) -> bool {
    exists|acc: Vec3|
        #![trigger sample_sum_rel(cam, world, mats, i, j, cam.samples_per_pixel as int, acc)]
        {
            &&& vfits(acc)
            &&& sample_sum_rel(cam, world, mats, i, j, cam.samples_per_pixel as int, acc)
            &&& img[(j * width + i) * 3] as int == crate::color::quantize_spec(
                sv_scale(acc, sdivk(FX_ONE as int, cam.samples_per_pixel as int)).x as int,
            )
            &&& img[(j * width + i) * 3 + 1] as int == crate::color::quantize_spec(
                sv_scale(acc, sdivk(FX_ONE as int, cam.samples_per_pixel as int)).y as int,
            )
            &&& img[(j * width + i) * 3 + 2] as int == crate::color::quantize_spec(
                sv_scale(acc, sdivk(FX_ONE as int, cam.samples_per_pixel as int)).z as int,
            )
        }
}

/// The ray cast for pixel `(i, j)` given the three sampling draws.
pub open spec fn get_ray_spec(c: Camera, i: int, j: int, offset: Vec3, disk: Vec3, time: int)
    -> Ray {
    let pixel_sample = sv_add(
        sv_add(c.pixel00, sv_scale(c.pixel_u, sadd(int_fx(i), offset.x as int))),
        sv_scale(c.pixel_v, sadd(int_fx(j), offset.y as int)),
    );
    let ray_ori = if c.defocus_angle <= 0 {
        c.center
    } else {
        sv_add(
            sv_add(c.center, sv_scale(c.defocus_disk_u, disk.x as int)),
            sv_scale(c.defocus_disk_v, disk.y as int),
        )
    };
    Ray { orig: ray_ori, dir: sv_sub(pixel_sample, ray_ori), time: time as i64 }
}

impl Camera {
    /// A camera over a given image width and aspect ratio, with the
    /// default field of view, orientation and sampling configuration.
    pub fn init(image_width: usize, image_w_h_ratio: i64) -> (r: Camera)
        requires
            0 < image_width <= 16384,
            0 < image_w_h_ratio,
            fits(image_w_h_ratio as int),
        ensures
            r.width == image_width,
            r.height as int == ({
                let h = crate::fx::tdiv(image_width * (FX_ONE as int), image_w_h_ratio as int);
                if h < 1 {
                    1
                } else if h > 16384 {
                    16384
                } else {
                    h
                }
            }),
            r.width_height_ratio == image_w_h_ratio,
            r.vfov == 90 * FX_ONE,
            r.samples_per_pixel == 100,
            r.max_depth == 50,
            r.defocus_angle == 0,
            r.focus_dist == 10 * FX_ONE,
            r.lookfrom == sv_zero(),
            r.lookat == (Vec3 { x: 0, y: 0, z: (-FX_ONE) as i64 }),
            r.vup == (Vec3 { x: 0, y: FX_ONE, z: 0 }),
            r.background == sv_zero(),
            camera_wf(r),
            camera_derived_ok(r),
    {
        proof {
            assert(0 < image_width * (FX_ONE as int) <= 16384 * 65536) by (nonlinear_arith)
                requires
                    0 < image_width <= 16384,
                    FX_ONE as int == 65536,
            ;
        }
        let hw: i128 = (image_width as i128) * (FX_ONE as i128);
        let hq = crate::fx::i128_tdiv(hw, image_w_h_ratio as i128);
        proof {
            crate::fx::lemma_tdiv_pos_bound(hw as int, image_w_h_ratio as int);
        }
        let image_height: usize = if hq < 1 {
            1
        } else if hq > 16384 {
            16384
        } else {
            hq as usize
        };
        let mut cam = Camera {
            vfov: 90 * FX_ONE,
            width_height_ratio: image_w_h_ratio,
            width: image_width,
            height: image_height,
            center: Vec3::zero(),
            pixel00: Vec3::zero(),
            pixel_u: Vec3::zero(),
            pixel_v: Vec3::zero(),
            samples_per_pixel: 100,
            max_depth: 50,
            lookfrom: Vec3::zero(),
            lookat: Vec3::new(0, 0, -FX_ONE),
            vup: Vec3::new(0, FX_ONE, 0),
            u: Vec3::zero(),
            v: Vec3::zero(),
            w: Vec3::zero(),
            defocus_angle: 0,
            focus_dist: 10 * FX_ONE,
            defocus_disk_u: Vec3::zero(),
            defocus_disk_v: Vec3::zero(),
            background: Vec3::zero(),
        };
        cam.update();
        cam
    }

    /// Recompute the basis and pixel-step vectors from the
    /// configuration.
    pub fn update(&mut self)
        requires
            camera_cfg_wf(*old(self)),
        ensures
            final(self).vfov == old(self).vfov,
            final(self).width_height_ratio == old(self).width_height_ratio,
            final(self).width == old(self).width,
            final(self).height == old(self).height,
            final(self).samples_per_pixel == old(self).samples_per_pixel,
            final(self).max_depth == old(self).max_depth,
            final(self).lookfrom == old(self).lookfrom,
            final(self).lookat == old(self).lookat,
            final(self).vup == old(self).vup,
            final(self).defocus_angle == old(self).defocus_angle,
            final(self).focus_dist == old(self).focus_dist,
            final(self).background == old(self).background,
            camera_wf(*final(self)),
            camera_derived_ok(*final(self)),
    {
        let tan_half = tan_half_deg(self.vfov);
        let viewport_height = fx_mul(fx_mul(2 * FX_ONE, tan_half), self.focus_dist);
        let viewport_width = fx_mul(viewport_height, self.width_height_ratio);
        self.center = self.lookfrom;
        self.w = self.lookfrom.sub(&self.lookat).normalize();
        self.u = self.vup.cross(&self.w).normalize();
        self.v = self.w.cross(&self.u);
        let viewport_u = self.u.scale(viewport_width);
        let viewport_v = self.v.neg().scale(viewport_height);
        self.pixel_u = viewport_u.div_int(self.width as i64);
        self.pixel_v = viewport_v.div_int(self.height as i64);
        let viewport_layer = self
            .center
            .sub(&self.w.scale(self.focus_dist))
            .sub(&viewport_u.div_int(2))
            .sub(&viewport_v.div_int(2));
        self.pixel00 = viewport_layer.add(&self.pixel_u.add(&self.pixel_v).scale(32768));
        let defocus_radius = fx_mul(self.focus_dist, tan_half_deg(self.defocus_angle));
        self.defocus_disk_u = self.u.scale(defocus_radius);
        self.defocus_disk_v = self.v.scale(defocus_radius);
    }

    /// The ray for pixel `(i, j)` once the sampling draws are fixed.
    pub fn get_ray_with(&self, i: usize, j: usize, offset: Vec3, disk: Vec3, time: i64) -> (r: Ray)
        requires
            camera_wf(*self),
            i <= 16384,
            j <= 16384,
            vfits(offset),
            vfits(disk),
            fits(time as int),
        ensures
            r == get_ray_spec(*self, i as int, j as int, offset, disk, time as int),
            ray_wf(r),
    {
        let i_fx = fx_from_count(i);
        let j_fx = fx_from_count(j);
        let pixel_sample = self
            .pixel00
            .add(&self.pixel_u.scale(fx_add(i_fx, offset.x)))
            .add(&self.pixel_v.scale(fx_add(j_fx, offset.y)));
        let ray_ori = if self.defocus_angle <= 0 {
            self.center
        } else {
            self
                .center
                .add(&self.defocus_disk_u.scale(disk.x))
                .add(&self.defocus_disk_v.scale(disk.y))
        };
        let ray_dir = pixel_sample.sub(&ray_ori);
        Ray::new(ray_ori, ray_dir, time)
    }

    /// A jittered ray through pixel `(i, j)`: a sub-pixel offset, an
    /// optional defocus-disk origin, and a random time for motion blur.
    pub fn get_ray(&self, i: usize, j: usize, rng: &mut RtRng) -> (r: Ray)
        requires
            camera_wf(*self),
            i <= 16384,
            j <= 16384,
        ensures
            ray_wf(r),
            exists|offset: Vec3, disk: Vec3, time: int|
                sampling_ok(offset, disk, time) && r == get_ray_spec(
                    *self,
                    i as int,
                    j as int,
                    offset,
                    disk,
                    time,
                ),
    {
        let offset = sample_square(rng);
        let disk = random_in_unit_disk(rng);
        let time = random_unit_fx(rng);
        let r = self.get_ray_with(i, j, offset, disk, time);
        proof {
            assert(sampling_ok(offset, disk, time as int) && r == get_ray_spec(
                *self,
                i as int,
                j as int,
                offset,
                disk,
                time as int,
            ));
        }
        r
    }

    /// A point on the defocus disk, as a ray origin.
    pub fn defocus_disk_sample(&self, rng: &mut RtRng) -> (r: Vec3)
        requires
            camera_wf(*self),
        ensures
            vfits(r),
            exists|p: Vec3|
                vfits(p) && p.z == 0 && crate::vec3::sv_in_unit_ball(p) && r == sv_add(
                    sv_add(self.center, sv_scale(self.defocus_disk_u, p.x as int)),
                    sv_scale(self.defocus_disk_v, p.y as int),
                ),
    {
        let p = random_in_unit_disk(rng);
        let r = self
            .center
            .add(&self.defocus_disk_u.scale(p.x))
            .add(&self.defocus_disk_v.scale(p.y));
        proof {
            assert(vfits(p) && p.z == 0 && crate::vec3::sv_in_unit_ball(p) && r == sv_add(
                sv_add(self.center, sv_scale(self.defocus_disk_u, p.x as int)),
                sv_scale(self.defocus_disk_v, p.y as int),
            ));
        }
        r
    }

    /// The radiance along a ray: zero once the bounce budget is spent,
    /// the background on a miss, emission plus attenuated recursion on a
    /// hit that scatters, bare emission otherwise.  A hit whose material
    /// reference is missing or out of range contributes nothing.
    pub fn ray_color(
        &self,
        ray_: Ray,
        world: &Hittable,
        mats: &Vec<Material>,
        depth: i32,
        rng: &mut RtRng,
    ) -> (r: Vec3)
        requires
            camera_wf(*self),
            hittable_wf(*world),
            ray_wf(ray_),
            forall|k: int| 0 <= k < mats@.len() ==> material_wf(#[trigger] mats@[k]),
        ensures
            vfits(r),
            depth <= 0 ==> r == sv_zero(),
            depth > 0 && hit_at(*world, ray_) is None ==> r == self.background,
            depth > 0 && hit_at(*world, ray_) is Some && hit_at(*world, ray_).unwrap().mat is None
                ==> r == sv_zero(),
            depth > 0 && hit_at(*world, ray_) is Some && hit_at(*world, ray_).unwrap().mat is Some
                && hit_at(*world, ray_).unwrap().mat.unwrap() >= mats@.len() ==> r == sv_zero(),
            depth > 0 && hit_at(*world, ray_) is Some && hit_at(*world, ray_).unwrap().mat is Some
                && hit_at(*world, ray_).unwrap().mat.unwrap() < mats@.len() && mats@[hit_at(
                *world,
                ray_,
            ).unwrap().mat.unwrap() as int] is DiffuseLight ==> r == emitted_spec(
                mats@[hit_at(*world, ray_).unwrap().mat.unwrap() as int],
                hit_at(*world, ray_).unwrap().u as int,
                hit_at(*world, ray_).unwrap().v as int,
                hit_at(*world, ray_).unwrap().point,
            ),
            radiance_rel(*self, *world, mats@, ray_, depth as int, r),
        decreases depth,
    {
        if depth <= 0 {
            let z = Vec3::zero();
            proof {
                lemma_radiance_black(*self, *world, mats@, ray_, depth as int, z);
            }
            return z;
        }
        let mut rec = HitRecord::new(Vec3::zero(), Vec3::zero(), 0, false, None);
        if !world.hit(&ray_, Interval::new(T_EPS, FX_MAX), &mut rec) {
            let bg = self.background;
            proof {
                lemma_radiance_miss(*self, *world, mats@, ray_, depth as int, bg);
            }
            return bg;
        }
        let mi = match rec.mat {
            Some(m) => m,
            None => {
                let z = Vec3::zero();
                proof {
                    lemma_hit_absorbed(*self, *world, mats@, ray_, rec, depth as int, z);
                    lemma_radiance_from_hit(*self, *world, mats@, ray_, rec, depth as int, z);
                }
                return z;
            },
        };
        if mi >= mats.len() {
            let z = Vec3::zero();
            proof {
                lemma_hit_absorbed(*self, *world, mats@, ray_, rec, depth as int, z);
                lemma_radiance_from_hit(*self, *world, mats@, ray_, rec, depth as int, z);
            }
            return z;
        }
        let mat = &mats[mi];
        let color_from_emission = mat.emitted(rec.u, rec.v, rec.point);
        let mut scattered = Ray::new(Vec3::zero(), Vec3::zero(), 0);
        let mut attenuation = Vec3::zero();
        if mat.scatter(&ray_, &rec, &mut attenuation, &mut scattered, rng) {
            let ghost bounced = scattered;
            let ghost att = attenuation;
            let rc = self.ray_color(scattered, world, mats, depth - 1, rng);
            let color_from_scatter = attenuation.cor_dot(&rc);
            let out = color_from_emission.add(&color_from_scatter);
            proof {
                match mats@[mi as int] {
                    Material::Lambertian(_) => {
                        let uvec = choose|uvec: Vec3|
                            vfits(uvec) && !crate::vec3::sv_near_zero(uvec)
                                && crate::vec3::sv_unit_length(uvec) && bounced.dir
                                == crate::material::lambertian_dir(rec.normal, uvec);
                        assert(bounced == bounce_ray(
                            rec,
                            ray_.time,
                            crate::material::lambertian_dir(rec.normal, uvec),
                        ));
                        lemma_hit_lamb(
                            *self, *world, mats@, ray_, rec, depth as int, uvec, rc, out,
                        );
                        lemma_radiance_from_hit(*self, *world, mats@, ray_, rec, depth as int, out);
                    },
                    Material::Metal(mt) => {
                        let uvec = choose|uvec: Vec3|
                            vfits(uvec) && !crate::vec3::sv_near_zero(uvec)
                                && crate::vec3::sv_unit_length(uvec) && bounced.dir
                                == crate::material::metal_dir(
                                ray_.dir,
                                rec.normal,
                                mt.fuzz as int,
                                uvec,
                            );
                        assert(bounced == bounce_ray(
                            rec,
                            ray_.time,
                            crate::material::metal_dir(ray_.dir, rec.normal, mt.fuzz as int, uvec),
                        ));
                        lemma_hit_metal_scatter(
                            *self, *world, mats@, ray_, rec, depth as int, uvec, rc, out,
                        );
                        lemma_radiance_from_hit(*self, *world, mats@, ray_, rec, depth as int, out);
                    },
                    Material::Dielectric(d) => {
                        let draw = choose|draw: int|
                            0 <= draw < FX_ONE as int && bounced.dir
                                == crate::material::dielectric_dir(
                                ray_.dir,
                                rec.normal,
                                rec.front_face,
                                d.ref_idx as int,
                                draw,
                            );
                        assert(bounced == bounce_ray(
                            rec,
                            ray_.time,
                            crate::material::dielectric_dir(
                                ray_.dir,
                                rec.normal,
                                rec.front_face,
                                d.ref_idx as int,
                                draw,
                            ),
                        ));
                        lemma_hit_diel(
                            *self, *world, mats@, ray_, rec, depth as int, draw, rc, out,
                        );
                        lemma_radiance_from_hit(*self, *world, mats@, ray_, rec, depth as int, out);
                    },
                    Material::DiffuseLight(_) => {
                        assert(false);
                    },
                }
            }
            return out;
        }
        proof {
            match mats@[mi as int] {
                Material::Metal(mt) => {
                    let uvec = choose|uvec: Vec3|
                        vfits(uvec) && !crate::vec3::sv_near_zero(uvec)
                            && crate::vec3::sv_unit_length(uvec) && scattered.dir
                            == crate::material::metal_dir(
                            ray_.dir,
                            rec.normal,
                            mt.fuzz as int,
                            uvec,
                        );
                    lemma_hit_metal_absorbed(
                        *self,
                        *world,
                        mats@,
                        ray_,
                        rec,
                        depth as int,
                        uvec,
                        color_from_emission,
                    );
                    lemma_radiance_from_hit(
                        *self,
                        *world,
                        mats@,
                        ray_,
                        rec,
                        depth as int,
                        color_from_emission,
                    );
                },
                Material::DiffuseLight(_) => {
                    lemma_hit_emissive(
                        *self,
                        *world,
                        mats@,
                        ray_,
                        rec,
                        depth as int,
                        color_from_emission,
                    );
                    lemma_radiance_from_hit(
                        *self,
                        *world,
                        mats@,
                        ray_,
                        rec,
                        depth as int,
                        color_from_emission,
                    );
                },
                _ => {
                    assert(false);
                },
            }
        }
        color_from_emission
    }

    /// Average the pixel's samples and quantise the three channels.
    pub fn render_pixel(
        &self,
        world: &Hittable,
        mats: &Vec<Material>,
        i: usize,
        j: usize,
        rng: &mut RtRng,
    ) -> (rgb: (u8, u8, u8))
        requires
            camera_wf(*self),
            hittable_wf(*world),
            i <= 16384,
            j <= 16384,
            forall|k: int| 0 <= k < mats@.len() ==> material_wf(#[trigger] mats@[k]),
        ensures
            exists|acc: Vec3|
                #![trigger sample_sum_rel(*self, *world, mats@, i as int, j as int, self.samples_per_pixel as int, acc)]
                {
                    &&& vfits(acc)
                    &&& sample_sum_rel(
                        *self,
                        *world,
                        mats@,
                        i as int,
                        j as int,
                        self.samples_per_pixel as int,
                        acc,
                    )
                    &&& rgb.0 as int == crate::color::quantize_spec(
                        sv_scale(acc, sdivk(FX_ONE as int, self.samples_per_pixel as int)).x as int,
                    )
                    &&& rgb.1 as int == crate::color::quantize_spec(
                        sv_scale(acc, sdivk(FX_ONE as int, self.samples_per_pixel as int)).y as int,
                    )
                    &&& rgb.2 as int == crate::color::quantize_spec(
                        sv_scale(acc, sdivk(FX_ONE as int, self.samples_per_pixel as int)).z as int,
                    )
                },
    {
        let mut sum = Vec3::zero();
        let mut s: usize = 0;
        let ghost mut cs: Seq<Vec3> = Seq::empty();
        proof {
            lemma_samples_ok_empty(*self, *world, mats@, i as int, j as int);
        }
        while s < self.samples_per_pixel
            invariant
                camera_wf(*self),
                hittable_wf(*world),
                i <= 16384,
                j <= 16384,
                forall|k: int| 0 <= k < mats@.len() ==> material_wf(#[trigger] mats@[k]),
                vfits(sum),
                s <= self.samples_per_pixel,
                cs.len() == s,
                samples_ok(*self, *world, mats@, i as int, j as int, cs),
                sum == fold_sum(cs),
            decreases self.samples_per_pixel - s,
        {
            let ray = self.get_ray(i, j, rng);
            let sample = self.ray_color(ray, world, mats, self.max_depth, rng);
            proof {
                let (offset, disk, time) = choose|offset: Vec3, disk: Vec3, time: int|
                    sampling_ok(offset, disk, time) && ray == get_ray_spec(
                        *self,
                        i as int,
                        j as int,
                        offset,
                        disk,
                        time,
                    );
                assert(radiance_rel(
                    *self,
                    *world,
                    mats@,
                    get_ray_spec(*self, i as int, j as int, offset, disk, time),
                    self.max_depth as int,
                    sample,
                ));
                lemma_sample_ok_intro(
                    *self, *world, mats@, i as int, j as int, offset, disk, time, sample,
                );
                lemma_samples_ok_push(*self, *world, mats@, i as int, j as int, cs, sample);
                lemma_fold_push(cs, sample);
                cs = cs.push(sample);
            }
            sum = sum.add(&sample);
            s = s + 1;
        }
        proof {
            lemma_sample_rel_intro(
                *self,
                *world,
                mats@,
                i as int,
                j as int,
                self.samples_per_pixel as int,
                sum,
                cs,
            );
        }
        let scale = fx_div_int(FX_ONE, self.samples_per_pixel as i64);
        let avg = sum.scale(scale);
        (
            crate::color::quantize_channel(avg.x),
            crate::color::quantize_channel(avg.y),
            crate::color::quantize_channel(avg.z),
        )
    }

    /// Render the whole image into the caller's RGB byte buffer.
    #[verifier::rlimit(100)]
    pub fn render(&mut self, world: &Hittable, mats: &Vec<Material>, img: &mut Vec<u8>,
        rng: &mut RtRng)
        requires
            camera_cfg_wf(*old(self)),
            hittable_wf(*world),
            old(img)@.len() == old(self).width * old(self).height * 3,
            forall|k: int| 0 <= k < mats@.len() ==> material_wf(#[trigger] mats@[k]),
        ensures
            final(img)@.len() == old(img)@.len(),
            camera_wf(*final(self)),
            final(self).width == old(self).width,
            final(self).height == old(self).height,
            final(self).samples_per_pixel == old(self).samples_per_pixel,
            forall|pi: int, pj: int|
                0 <= pi < final(self).width && 0 <= pj < final(self).height ==> pixel_done(
                    *final(self),
                    *world,
                    mats@,
                    final(img)@,
                    final(self).width as int,
                    pi,
                    pj,
                ),
    {
        self.update();
        let mut i: usize = 0;
        while i < self.width
            invariant
                camera_wf(*self),
                camera_derived_ok(*self),
                hittable_wf(*world),
                forall|k: int| 0 <= k < mats@.len() ==> material_wf(#[trigger] mats@[k]),
                i <= self.width,
                self.width == old(self).width,
                self.height == old(self).height,
                self.samples_per_pixel == old(self).samples_per_pixel,
                img@.len() == old(img)@.len(),
                img@.len() == self.width * self.height * 3,
                forall|pi: int, pj: int|
                    0 <= pi < i && 0 <= pj < self.height ==> pixel_done(
                        *self,
                        *world,
                        mats@,
                        img@,
                        self.width as int,
                        pi,
                        pj,
                    ),
            decreases self.width - i,
        {
            let mut j: usize = 0;
            while j < self.height
                invariant
                    camera_wf(*self),
                    camera_derived_ok(*self),
                    hittable_wf(*world),
                    forall|k: int| 0 <= k < mats@.len() ==> material_wf(#[trigger] mats@[k]),
                    i < self.width,
                    j <= self.height,
                    self.width == old(self).width,
                    self.height == old(self).height,
                    self.samples_per_pixel == old(self).samples_per_pixel,
                    img@.len() == old(img)@.len(),
                    img@.len() == self.width * self.height * 3,
                    forall|pi: int, pj: int|
                        0 <= pi < i && 0 <= pj < self.height ==> pixel_done(
                            *self,
                            *world,
                            mats@,
                            img@,
                            self.width as int,
                            pi,
                            pj,
                        ),
                    forall|pj: int|
                        0 <= pj < j ==> pixel_done(
                            *self,
                            *world,
                            mats@,
                            img@,
                            self.width as int,
                            i as int,
                            pj,
                        ),
                decreases self.height - j,
            {
                let mut sum = Vec3::zero();
                let mut s: usize = 0;
                let ghost mut cs: Seq<Vec3> = Seq::empty();
                proof {
                    lemma_samples_ok_empty(*self, *world, mats@, i as int, j as int);
                }
                while s < self.samples_per_pixel
                    invariant
                        camera_wf(*self),
                        hittable_wf(*world),
                        forall|k: int| 0 <= k < mats@.len() ==> material_wf(#[trigger] mats@[k]),
                        i < self.width,
                        j < self.height,
                        vfits(sum),
                        s <= self.samples_per_pixel,
                        cs.len() == s,
                        samples_ok(*self, *world, mats@, i as int, j as int, cs),
                        sum == fold_sum(cs),
                    decreases self.samples_per_pixel - s,
                {
                    let ray = self.get_ray(i, j, rng);
                    let sample = self.ray_color(ray, world, mats, self.max_depth, rng);
                    proof {
                        let (offset, disk, time) = choose|offset: Vec3, disk: Vec3, time: int|
                            sampling_ok(offset, disk, time) && ray == get_ray_spec(
                                *self,
                                i as int,
                                j as int,
                                offset,
                                disk,
                                time,
                            );
                        assert(radiance_rel(
                            *self,
                            *world,
                            mats@,
                            get_ray_spec(*self, i as int, j as int, offset, disk, time),
                            self.max_depth as int,
                            sample,
                        ));
                        lemma_sample_ok_intro(
                            *self, *world, mats@, i as int, j as int, offset, disk, time, sample,
                        );
                        lemma_samples_ok_push(
                            *self, *world, mats@, i as int, j as int, cs, sample,
                        );
                        lemma_fold_push(cs, sample);
                        cs = cs.push(sample);
                    }
                    sum = sum.add(&sample);
                    s = s + 1;
                }
                proof {
                    lemma_sample_rel_intro(
                        *self,
                        *world,
                        mats@,
                        i as int,
                        j as int,
                        self.samples_per_pixel as int,
                        sum,
                        cs,
                    );
                }
                let scale = fx_div_int(FX_ONE, self.samples_per_pixel as i64);
                let ghost img_before = img@;
                write_color(sum.scale(scale), img, i, j, self.width, self.height);
                proof {
                    let w = self.width as int;
                    let h = self.height as int;
                    lemma_slot_in_buffer(w, h, i as int, j as int);
                    lemma_pixel_done_intro(
                        *self,
                        *world,
                        mats@,
                        img@,
                        w,
                        i as int,
                        j as int,
                        sum,
                    );
                    assert forall|pi: int, pj: int|
                        0 <= pi < w && 0 <= pj < h && (pi < i || (pi == i && pj < j))
                            implies pixel_done(*self, *world, mats@, img@, w, pi, pj) by {
                        assert(pixel_done(*self, *world, mats@, img_before, w, pi, pj));
                        lemma_slot_injective(w, pi, pj, i as int, j as int);
                        lemma_slot_in_buffer(w, h, pi, pj);
                        lemma_pixel_done_preserved(
                            *self,
                            *world,
                            mats@,
                            img_before,
                            img@,
                            w,
                            pi,
                            pj,
                        );
                    }
                    assert forall|pi: int, pj: int|
                        0 <= pi < i && 0 <= pj < h implies pixel_done(
                        *self,
                        *world,
                        mats@,
                        img@,
                        w,
                        pi,
                        pj,
                    ) by {}
                    assert forall|pj2: int|
                        0 <= pj2 < j + 1 implies pixel_done(
                        *self,
                        *world,
                        mats@,
                        img@,
                        w,
                        i as int,
                        pj2,
                    ) by {
                        if pj2 < j {
                        }
                    }
                }
                j = j + 1;
            }
            proof {
                assert forall|pi: int, pj: int|
                    0 <= pi < i + 1 && 0 <= pj < self.height as int implies pixel_done(
                    *self,
                    *world,
                    mats@,
                    img@,
                    self.width as int,
                    pi,
                    pj,
                ) by {
                    if pi < i {
                    } else {
                        assert(pi == i);
                    }
                }
            }
            i = i + 1;
        }
    }
}

/// The radiance relation holds trivially once the bounce budget is
/// spent.
proof fn lemma_radiance_black(
    cam: Camera,
    world: Hittable,
    mats: Seq<Material>,
    ray_: Ray,
    depth: int,
    out: Vec3,
)
    requires
        depth <= 0,
        out == sv_zero(),
    ensures
        radiance_rel(cam, world, mats, ray_, depth, out),
{
    reveal_with_fuel(radiance_rel, 1);
}

/// A miss yields the background.
proof fn lemma_radiance_miss(
    cam: Camera,
    world: Hittable,
    mats: Seq<Material>,
    ray_: Ray,
    depth: int,
    out: Vec3,
)
    requires
        depth > 0,
        hit_at(world, ray_) is None,
        out == cam.background,
    ensures
        radiance_rel(cam, world, mats, ray_, depth, out),
{
    reveal_with_fuel(radiance_rel, 1);
}

/// A hit whose record satisfies the hit relation satisfies the full
/// relation.
proof fn lemma_radiance_from_hit(
    cam: Camera,
    world: Hittable,
    mats: Seq<Material>,
    ray_: Ray,
    rec: HitRecord,
    depth: int,
    out: Vec3,
)
    requires
        depth > 0,
        hit_at(world, ray_) == Some(rec),
        radiance_hit_rel(cam, world, mats, ray_, rec, depth, out),
    ensures
        radiance_rel(cam, world, mats, ray_, depth, out),
{
    reveal_with_fuel(radiance_rel, 1);
    reveal_with_fuel(radiance_hit_rel, 1);
    assert(hit_at(world, ray_).unwrap() == rec);
    assert(radiance_hit_rel(cam, world, mats, ray_, hit_at(world, ray_).unwrap(), depth, out));
}

/// A missing or out-of-range material reference yields nothing.
proof fn lemma_hit_absorbed(
    cam: Camera,
    world: Hittable,
    mats: Seq<Material>,
    ray_: Ray,
    rec: HitRecord,
    depth: int,
    out: Vec3,
)
    requires
        depth > 0,
        rec.mat is None || (rec.mat is Some && rec.mat.unwrap() >= mats.len()),
        out == sv_zero(),
    ensures
        radiance_hit_rel(cam, world, mats, ray_, rec, depth, out),
{
    reveal_with_fuel(radiance_hit_rel, 1);
}

/// An emissive-only hit yields the material's emission.
proof fn lemma_hit_emissive(
    cam: Camera,
    world: Hittable,
    mats: Seq<Material>,
    ray_: Ray,
    rec: HitRecord,
    depth: int,
    out: Vec3,
)
    requires
        depth > 0,
        rec.mat is Some,
        rec.mat.unwrap() < mats.len(),
        mats[rec.mat.unwrap() as int] is DiffuseLight,
        out == emitted_spec(
            mats[rec.mat.unwrap() as int],
            rec.u as int,
            rec.v as int,
            rec.point,
        ),
    ensures
        radiance_hit_rel(cam, world, mats, ray_, rec, depth, out),
{
    reveal_with_fuel(radiance_hit_rel, 1);
}

/// A fuzzed reflection that dips below the surface is absorbed: only
/// the (null) emission remains.
proof fn lemma_hit_metal_absorbed(
    cam: Camera,
    world: Hittable,
    mats: Seq<Material>,
    ray_: Ray,
    rec: HitRecord,
    depth: int,
    uvec: Vec3,
    out: Vec3,
)
    requires
        depth > 0,
        rec.mat is Some,
        rec.mat.unwrap() < mats.len(),
        mats[rec.mat.unwrap() as int] is Metal,
        vfits(uvec),
        !crate::vec3::sv_near_zero(uvec),
        crate::vec3::sv_unit_length(uvec),
        mats[rec.mat.unwrap() as int] matches Material::Metal(mt) ==> crate::vec3::sv_dot(
            crate::material::metal_dir(ray_.dir, rec.normal, mt.fuzz as int, uvec),
            rec.normal,
        ) <= 0,
        out == emitted_spec(
            mats[rec.mat.unwrap() as int],
            rec.u as int,
            rec.v as int,
            rec.point,
        ),
    ensures
        radiance_hit_rel(cam, world, mats, ray_, rec, depth, out),
{
    reveal_with_fuel(radiance_hit_rel, 1);
    assert(chosen_dir(uvec));
}

/// A diffuse bounce: emission plus the texture-attenuated radiance of
/// the jittered reflection.
proof fn lemma_hit_lamb(
    cam: Camera,
    world: Hittable,
    mats: Seq<Material>,
    ray_: Ray,
    rec: HitRecord,
    depth: int,
    uvec: Vec3,
    sub: Vec3,
    out: Vec3,
)
    requires
        depth > 0,
        rec.mat is Some,
        rec.mat.unwrap() < mats.len(),
        mats[rec.mat.unwrap() as int] is Lambertian,
        vfits(uvec),
        !crate::vec3::sv_near_zero(uvec),
        crate::vec3::sv_unit_length(uvec),
        radiance_rel(
            cam,
            world,
            mats,
            bounce_ray(rec, ray_.time, crate::material::lambertian_dir(rec.normal, uvec)),
            depth - 1,
            sub,
        ),
        mats[rec.mat.unwrap() as int] matches Material::Lambertian(l) ==> out == sv_add(
            emitted_spec(mats[rec.mat.unwrap() as int], rec.u as int, rec.v as int, rec.point),
            crate::vec3::sv_cor_dot(
                crate::texture::tex_value(l.tex, rec.u as int, rec.v as int, rec.point),
                sub,
            ),
        ),
    ensures
        radiance_hit_rel(cam, world, mats, ray_, rec, depth, out),
{
    reveal_with_fuel(radiance_hit_rel, 1);
    reveal_with_fuel(radiance_rel, 1);
    assert(chosen_pair(uvec, sub));
}

/// A specular bounce that stays above the surface: emission plus the
/// albedo-attenuated radiance of the fuzzed reflection.
proof fn lemma_hit_metal_scatter(
    cam: Camera,
    world: Hittable,
    mats: Seq<Material>,
    ray_: Ray,
    rec: HitRecord,
    depth: int,
    uvec: Vec3,
    sub: Vec3,
    out: Vec3,
)
    requires
        depth > 0,
        rec.mat is Some,
        rec.mat.unwrap() < mats.len(),
        mats[rec.mat.unwrap() as int] is Metal,
        vfits(uvec),
        !crate::vec3::sv_near_zero(uvec),
        crate::vec3::sv_unit_length(uvec),
        mats[rec.mat.unwrap() as int] matches Material::Metal(mt) ==> {
            &&& crate::vec3::sv_dot(
                crate::material::metal_dir(ray_.dir, rec.normal, mt.fuzz as int, uvec),
                rec.normal,
            ) > 0
            &&& radiance_rel(
                cam,
                world,
                mats,
                bounce_ray(
                    rec,
                    ray_.time,
                    crate::material::metal_dir(ray_.dir, rec.normal, mt.fuzz as int, uvec),
                ),
                depth - 1,
                sub,
            )
            &&& out == sv_add(
                emitted_spec(mats[rec.mat.unwrap() as int], rec.u as int, rec.v as int, rec.point),
                crate::vec3::sv_cor_dot(mt.albedo, sub),
            )
        },
    ensures
        radiance_hit_rel(cam, world, mats, ray_, rec, depth, out),
{
    reveal_with_fuel(radiance_hit_rel, 1);
    reveal_with_fuel(radiance_rel, 1);
    assert(chosen_dir(uvec));
    assert(chosen_dir(sub));
}

/// A refractive bounce: emission plus the unattenuated radiance of the
/// reflected or refracted continuation the draw selected.
proof fn lemma_hit_diel(
    cam: Camera,
    world: Hittable,
    mats: Seq<Material>,
    ray_: Ray,
    rec: HitRecord,
    depth: int,
    draw: int,
    sub: Vec3,
    out: Vec3,
)
    requires
        depth > 0,
        rec.mat is Some,
        rec.mat.unwrap() < mats.len(),
        mats[rec.mat.unwrap() as int] is Dielectric,
        0 <= draw < FX_ONE as int,
        mats[rec.mat.unwrap() as int] matches Material::Dielectric(d) ==> radiance_rel(
            cam,
            world,
            mats,
            bounce_ray(
                rec,
                ray_.time,
                crate::material::dielectric_dir(
                    ray_.dir,
                    rec.normal,
                    rec.front_face,
                    d.ref_idx as int,
                    draw,
                ),
            ),
            depth - 1,
            sub,
        ),
        out == sv_add(
            emitted_spec(mats[rec.mat.unwrap() as int], rec.u as int, rec.v as int, rec.point),
            crate::vec3::sv_cor_dot(Vec3 { x: FX_ONE, y: FX_ONE, z: FX_ONE }, sub),
        ),
    ensures
        radiance_hit_rel(cam, world, mats, ray_, rec, depth, out),
{
    reveal_with_fuel(radiance_hit_rel, 1);
    reveal_with_fuel(radiance_rel, 1);
    assert(chosen_draw(draw, sub));
}

/// No sample yet: the empty sequence.
proof fn lemma_samples_ok_empty(
    cam: Camera,
    world: Hittable,
    mats: Seq<Material>,
    i: int,
    j: int,
)
    ensures
        samples_ok(cam, world, mats, i, j, Seq::<Vec3>::empty()),
{
    reveal(samples_ok);
}

/// One sample cast with known draws is valid.
proof fn lemma_sample_ok_intro(
    cam: Camera,
    world: Hittable,
    mats: Seq<Material>,
    i: int,
    j: int,
    offset: Vec3,
    disk: Vec3,
    time: int,
    c: Vec3,
)
    requires
        sampling_ok(offset, disk, time),
        radiance_rel(
            cam,
            world,
            mats,
            get_ray_spec(cam, i, j, offset, disk, time),
            cam.max_depth as int,
            c,
        ),
    ensures
        sample_ok(cam, world, mats, i, j, c),
{
    reveal(sample_ok);
}

/// Appending a valid sample keeps the sequence valid.
proof fn lemma_samples_ok_push(
    cam: Camera,
    world: Hittable,
    mats: Seq<Material>,
    i: int,
    j: int,
    cs: Seq<Vec3>,
    c: Vec3,
)
    requires
        samples_ok(cam, world, mats, i, j, cs),
        sample_ok(cam, world, mats, i, j, c),
    ensures
        samples_ok(cam, world, mats, i, j, cs.push(c)),
{
    reveal(samples_ok);
    assert forall|k: int| 0 <= k < cs.push(c).len() implies #[trigger] sample_ok(
        cam,
        world,
        mats,
        i,
        j,
        cs.push(c)[k],
    ) by {
        if k < cs.len() {
            assert(cs.push(c)[k] == cs[k]);
        } else {
            assert(cs.push(c)[k] == c);
        }
    }
}

/// Folding one more sample adds it to the running sum.
proof fn lemma_fold_push(cs: Seq<Vec3>, c: Vec3)
    ensures
        fold_sum(cs.push(c)) == sv_add(fold_sum(cs), c),
{
    assert(cs.push(c).drop_last() =~= cs);
    assert(cs.push(c).last() == c);
}

/// A sequence of valid samples witnesses the accumulator relation.
proof fn lemma_sample_rel_intro(
    cam: Camera,
    world: Hittable,
    mats: Seq<Material>,
    i: int,
    j: int,
    n: int,
    acc: Vec3,
    cs: Seq<Vec3>,
)
    requires
        cs.len() == n,
        samples_ok(cam, world, mats, i, j, cs),
        acc == fold_sum(cs),
    ensures
        sample_sum_rel(cam, world, mats, i, j, n, acc),
{
    reveal(sample_sum_rel);
}

/// A pixel whose three byte slots hold the quantised scaled average of
/// a full accumulator is done.
proof fn lemma_pixel_done_intro(
    cam: Camera,
    world: Hittable,
    mats: Seq<Material>,
    img: Seq<u8>,
    width: int,
    i: int,
    j: int,
    acc: Vec3,
)
    requires
        vfits(acc),
        sample_sum_rel(cam, world, mats, i, j, cam.samples_per_pixel as int, acc),
        img[(j * width + i) * 3] as int == crate::color::quantize_spec(
            sv_scale(acc, sdivk(FX_ONE as int, cam.samples_per_pixel as int)).x as int,
        ),
        img[(j * width + i) * 3 + 1] as int == crate::color::quantize_spec(
            sv_scale(acc, sdivk(FX_ONE as int, cam.samples_per_pixel as int)).y as int,
        ),
        img[(j * width + i) * 3 + 2] as int == crate::color::quantize_spec(
            sv_scale(acc, sdivk(FX_ONE as int, cam.samples_per_pixel as int)).z as int,
        ),
    ensures
        pixel_done(cam, world, mats, img, width, i, j),
{
    reveal(pixel_done);
}

/// A done pixel stays done while its three byte slots are untouched.
proof fn lemma_pixel_done_preserved(
    cam: Camera,
    world: Hittable,
    mats: Seq<Material>,
    img1: Seq<u8>,
    img2: Seq<u8>,
    width: int,
    i: int,
    j: int,
)
    requires
        pixel_done(cam, world, mats, img1, width, i, j),
        img2[(j * width + i) * 3] == img1[(j * width + i) * 3],
        img2[(j * width + i) * 3 + 1] == img1[(j * width + i) * 3 + 1],
        img2[(j * width + i) * 3 + 2] == img1[(j * width + i) * 3 + 2],
    ensures
        pixel_done(cam, world, mats, img2, width, i, j),
{
    reveal(pixel_done);
}

/// Distinct pixels use distinct frame-buffer slots.
proof fn lemma_slot_injective(width: int, i1: int, j1: int, i2: int, j2: int)
    requires
        0 < width,
        0 <= i1 < width,
        0 <= i2 < width,
        0 <= j1,
        0 <= j2,
        !(i1 == i2 && j1 == j2),
    ensures
        j1 * width + i1 != j2 * width + i2,
{
    if j1 * width + i1 == j2 * width + i2 {
        let s = j1 * width + i1;
        vstd::arithmetic::div_mod::lemma_fundamental_div_mod_converse(s, width, j1, i1);
        vstd::arithmetic::div_mod::lemma_fundamental_div_mod_converse(s, width, j2, i2);
    }
}

/// A pixel's three bytes lie inside the buffer.
proof fn lemma_slot_in_buffer(width: int, height: int, i: int, j: int)
    requires
        0 <= i < width <= 16384,
        0 <= j < height <= 16384,
    ensures
        0 <= j * width + i,
        (j * width + i) * 3 + 3 <= width * height * 3,
{
    assert(0 <= j * width + i && (j * width + i) + 1 <= width * height) by (nonlinear_arith)
        requires
            0 <= i < width,
            0 <= j < height,
    ;
    assert((j * width + i) * 3 + 3 <= width * height * 3) by (nonlinear_arith)
        requires
            (j * width + i) + 1 <= width * height,
            0 <= j * width + i,
    ;
}

/// A pixel index as a fixed-point scalar.
fn fx_from_count(i: usize) -> (r: i64)
    requires
        i <= 16384,
    ensures
        r as int == int_fx(i as int),
        fits(r as int),
{
    (i as i64) * FX_ONE
}

} // verus!

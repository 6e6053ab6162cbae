//! Spheres, optionally with a linearly moving centre for motion blur.

use vstd::prelude::*;

use crate::aabb::{aabb_hit_spec, aabb_proper, aabb_union, aabb_wf, AABB};
use crate::fx::{
    fits, fx_add, fx_clamp_i128, fx_div, fx_neg, i128_tdiv, isqrt_u128, lemma_sqrt_floor, sadd,
    sat, sdiv, sqrt_floor, tdiv, FX_MAX, FX_ONE,
};
use crate::hit::{rec_wf, HitRecord};
use crate::interval::{ivl_wf, Interval};
use crate::ray::{ray_wf, Ray};
use crate::trig::{acos_spec, atan2_spec, PI_FX, TWO_PI_FX};
use crate::vec3::{
    lemma_wide_dot_bound, sv_add, sv_divs, sv_dot, sv_neg, sv_scale, sv_sub, sv_zero, vfits,
    wide_dot, Vec3,
};

verus! {

#[derive(Clone, Copy, Debug)]
pub struct Sphere {
    pub center: Vec3,
    pub radius: i64,
    pub mat: Option<usize>,
    pub is_moving: bool,
    pub center_v: Vec3,
    pub bbox: AABB,
}

pub open spec fn sphere_wf(s: Sphere) -> bool {
    vfits(s.center) && fits(s.radius as int) && 0 <= s.radius && vfits(s.center_v) && aabb_wf(
        s.bbox,
    ) && aabb_proper(s.bbox)
}

/// Clamp a scalar into `[-1, 1]`.
pub open spec fn clamp_unit(x: int) -> int {
    if x < -(FX_ONE as int) {
        -(FX_ONE as int)
    } else if x > FX_ONE as int {
        FX_ONE as int
    } else {
        x
    }
}

/// The longitude coordinate of a point on the unit sphere.
pub open spec fn sphere_uv_u(p: Vec3) -> int {
    sdiv(sadd(atan2_spec(-(p.z as int), p.x as int), PI_FX as int), TWO_PI_FX as int)
}

/// The latitude coordinate of a point on the unit sphere.
pub open spec fn sphere_uv_v(p: Vec3) -> int {
    sdiv(acos_spec(clamp_unit(-(p.y as int))), PI_FX as int)
}

/// The centre at a given time.
pub open spec fn sphere_center_spec(s: Sphere, time: int) -> Vec3 {
    if s.is_moving {
        sv_add(s.center, sv_scale(s.center_v, time))
    } else {
        s.center
    }
}

/// The discriminant of the ray/sphere quadratic, in raw units.
pub open spec fn sphere_disc(s: Sphere, r: Ray) -> int {
    let oc = sv_sub(sphere_center_spec(s, r.time as int), r.orig);
    let a = wide_dot(r.dir, r.dir);
    let h = wide_dot(r.dir, oc);
    let c = wide_dot(oc, oc) - s.radius * s.radius;
    h * h - a * c
}

/// The nearer root of the quadratic (`-` branch of the half formula).
pub open spec fn sphere_root1(s: Sphere, r: Ray) -> int {
    let oc = sv_sub(sphere_center_spec(s, r.time as int), r.orig);
    let a = wide_dot(r.dir, r.dir);
    let h = wide_dot(r.dir, oc);
    sat(tdiv((h - sqrt_floor(sphere_disc(s, r))) * (FX_ONE as int), a))
}

/// The farther root of the quadratic (`+` branch).
pub open spec fn sphere_root2(s: Sphere, r: Ray) -> int {
    let oc = sv_sub(sphere_center_spec(s, r.time as int), r.orig);
    let a = wide_dot(r.dir, r.dir);
    let h = wide_dot(r.dir, oc);
    sat(tdiv((h + sqrt_floor(sphere_disc(s, r))) * (FX_ONE as int), a))
}

/// The record produced for a hit at parameter `root`.  The outward
/// normal is taken about the centre at the ray's time, so a moving
/// sphere is shaded where it stands.
pub open spec fn sphere_rec(s: Sphere, r: Ray, root: int) -> HitRecord {
    let point = sv_add(r.orig, sv_scale(r.dir, root));
    let outn = if s.radius != 0 {
        sv_divs(sv_sub(point, sphere_center_spec(s, r.time as int)), s.radius as int)
    } else {
        sv_zero()
    };
    let front = sv_dot(r.dir, outn) < 0;
    HitRecord {
        point,
        normal: if front {
            outn
        } else {
            sv_neg(outn)
        },
        t: root as i64,
        front_face: front,
        mat: s.mat,
        u: sphere_uv_u(outn) as i64,
        v: sphere_uv_v(outn) as i64,
    }
}

/// The full intersection semantics: the box guard, then the nearer root
/// strictly inside the search interval, falling back to the farther one.
pub open spec fn sphere_hit_spec(s: Sphere, r: Ray, t: Interval) -> Option<HitRecord> {
    if !aabb_hit_spec(s.bbox, r, t) || wide_dot(r.dir, r.dir) == 0 || sphere_disc(s, r) < 0 {
        None
    } else if t.min < sphere_root1(s, r) && sphere_root1(s, r) < t.max {
        Some(sphere_rec(s, r, sphere_root1(s, r)))
    } else if t.min < sphere_root2(s, r) && sphere_root2(s, r) < t.max {
        Some(sphere_rec(s, r, sphere_root2(s, r)))
    } else {
        None
    }
}

impl Sphere {
    pub fn new(center: Vec3, radius: i64, mat_ptr_: Option<usize>) -> (r: Sphere)
        requires
            vfits(center),
            fits(radius as int),
        ensures
            r.center == center,
            r.radius as int == (if radius >= 0 { radius as int } else { 0 }),
            r.mat == mat_ptr_,
            !r.is_moving,
            r.center_v == sv_zero(),
            r.bbox == crate::aabb::aabb_from_points(
                sv_sub(center, rvec_spec(r.radius as int)),
                sv_add(center, rvec_spec(r.radius as int)),
            ),
            sphere_wf(r),
    {
        let radius = if radius >= 0 {
            radius
        } else {
            0
        };
        let rvec = Vec3::new(radius, radius, radius);
        let bbox = AABB::new_by_point(center.sub(&rvec), center.add(&rvec));
        Sphere { center, radius, mat: mat_ptr_, is_moving: false, center_v: Vec3::zero(), bbox }
    }

    pub fn new_moving(center: Vec3, center_next: Vec3, radius: i64, mat_ptr_: Option<usize>) -> (r:
        Sphere)
        requires
            vfits(center),
            vfits(center_next),
            fits(radius as int),
        ensures
            r.center == center,
            r.radius as int == (if radius >= 0 { radius as int } else { 0 }),
            r.mat == mat_ptr_,
            r.is_moving,
            r.center_v == sv_sub(center_next, center),
            r.bbox == aabb_union(
                crate::aabb::aabb_from_points(
                    sv_sub(center, rvec_spec(r.radius as int)),
                    sv_add(center, rvec_spec(r.radius as int)),
                ),
                crate::aabb::aabb_from_points(
                    sv_sub(center_next, rvec_spec(r.radius as int)),
                    sv_add(center_next, rvec_spec(r.radius as int)),
                ),
            ),
            sphere_wf(r),
    {
        let radius = if radius >= 0 {
            radius
        } else {
            0
        };
        let rvec = Vec3::new(radius, radius, radius);
        let box1 = AABB::new_by_point(center.sub(&rvec), center.add(&rvec));
        let box2 = AABB::new_by_point(center_next.sub(&rvec), center_next.add(&rvec));
        let bbox = AABB::new_by_aabb(&box1, &box2);
        Sphere {
            center,
            radius,
            mat: mat_ptr_,
            is_moving: true,
            center_v: center_next.sub(&center),
            bbox,
        }
    }

    /// Where the centre sits at `time`.
    pub fn sphere_center(&self, time: i64) -> (r: Vec3)
        requires
            sphere_wf(*self),
            fits(time as int),
        ensures
            r == sv_add(self.center, sv_scale(self.center_v, time as int)),
            vfits(r),
    {
        self.center.add(&self.center_v.scale(time))
    }

    /// Spherical surface coordinates of a point on the unit sphere.
    pub fn get_sphere_uv(p: Vec3, u: &mut i64, v: &mut i64)
        requires
            vfits(p),
        ensures
            *final(u) as int == sphere_uv_u(p),
            *final(v) as int == sphere_uv_v(p),
            0 <= *final(u) <= FX_ONE,
            0 <= *final(v) <= FX_ONE,
            fits(*final(u) as int),
            fits(*final(v) as int),
    {
        proof {
            lemma_sphere_uv_range(p);
        }
        let phi = fx_add(crate::trig::atan2_fx(fx_neg(p.z), p.x), PI_FX);
        let ny = fx_neg(p.y);
        let ny = if ny < -FX_ONE {
            -FX_ONE
        } else if ny > FX_ONE {
            FX_ONE
        } else {
            ny
        };
        let theta = crate::trig::acos_fx(ny);
        *u = fx_div(phi, TWO_PI_FX);
        *v = fx_div(theta, PI_FX);
    }

    /// The intersection query.
    pub fn hit(&self, ray_: &Ray, ray_t: Interval, rec: &mut HitRecord) -> (res: bool)
        requires
            sphere_wf(*self),
            ray_wf(*ray_),
            ivl_wf(ray_t),
            rec_wf(*old(rec)),
        ensures
            res == sphere_hit_spec(*self, *ray_, ray_t) is Some,
            res ==> sphere_hit_spec(*self, *ray_, ray_t) == Some(*final(rec)),
            res ==> 0 <= final(rec).u <= FX_ONE && 0 <= final(rec).v <= FX_ONE,
            !res ==> *final(rec) == *old(rec),
            rec_wf(*final(rec)),
    {
        let mut guard_t = ray_t;
        if !self.bbox.hit(ray_, &mut guard_t) {
            return false;
        }
        let center = if self.is_moving {
            self.sphere_center(ray_.time)
        } else {
            self.center
        };
        proof {
            assert(center == sphere_center_spec(*self, ray_.time as int));
        }
        let oc = center.sub(&ray_.orig);
        let a = ray_.dir.dot_wide(&ray_.dir);
        if a == 0 {
            return false;
        }
        let h = ray_.dir.dot_wide(&oc);
        proof {
            lemma_wide_dot_bound(ray_.dir, ray_.dir);
            lemma_wide_dot_bound(ray_.dir, oc);
            lemma_wide_dot_bound(oc, oc);
            crate::vec3::lemma_fits_prod(self.radius as int, self.radius as int);
        }
        let rr: i128 = (self.radius as i128) * (self.radius as i128);
        let c = oc.dot_wide(&oc) - rr;
        proof {
            lemma_quad_products_bounded(h as int, a as int, c as int);
        }
        let disc: i128 = h * h - a * c;
        if disc < 0 {
            return false;
        }
        let sq = isqrt_u128(disc as u128);
        proof {
            lemma_sqrt_floor(disc as int);
            lemma_sqrt_small(disc as int);
        }
        let num1: i128 = (h - sq as i128) * (FX_ONE as i128);
        let num2: i128 = (h + sq as i128) * (FX_ONE as i128);
        proof {
            lemma_scale_wide(h as int - sq as int);
            lemma_scale_wide(h as int + sq as int);
        }
        let root1 = fx_clamp_i128(i128_tdiv(num1, a));
        let root2 = fx_clamp_i128(i128_tdiv(num2, a));
        let root = if ray_t.surrounds(root1) {
            root1
        } else if ray_t.surrounds(root2) {
            root2
        } else {
            return false;
        };
        rec.t = root;
        rec.point = ray_.at(root);
        let out_normal = if self.radius != 0 {
            rec.point.sub(&center).div_s(self.radius)
        } else {
            Vec3::zero()
        };
        rec.set_face_normal(ray_, out_normal);
        let mut uu: i64 = 0;
        let mut vv: i64 = 0;
        Sphere::get_sphere_uv(out_normal, &mut uu, &mut vv);
        rec.u = uu;
        rec.v = vv;
        rec.mat = self.mat;
        true
    }

    /// The enclosing box.
    pub fn bounding_box(&self) -> (r: AABB)
        ensures
            r == self.bbox,
    {
        self.bbox
    }
}

/// The padding vector `(radius, radius, radius)`.
pub open spec fn rvec_spec(radius: int) -> Vec3 {
    Vec3 { x: radius as i64, y: radius as i64, z: radius as i64 }
}

/// The three products in the discriminant stay well inside an `i128`.
proof fn lemma_quad_products_bounded(h: int, a: int, c: int)
    requires
        -0x3000000000000000 <= h <= 0x3000000000000000,
        -0x3000000000000000 <= a <= 0x3000000000000000,
        -0x4000000000000000 <= c <= 0x4000000000000000,
    ensures
        -0x10000000000000000000000000000000 <= h * h <= 0x10000000000000000000000000000000,
        -0x10000000000000000000000000000000 <= a * c <= 0x10000000000000000000000000000000,
{
    assert(-0x10000000000000000000000000000000 <= h * h <= 0x10000000000000000000000000000000)
        by (nonlinear_arith)
        requires
            -0x3000000000000000 <= h <= 0x3000000000000000,
    ;
    assert(-0x10000000000000000000000000000000 <= a * c <= 0x10000000000000000000000000000000)
        by (nonlinear_arith)
        requires
            -0x3000000000000000 <= a <= 0x3000000000000000,
            -0x4000000000000000 <= c <= 0x4000000000000000,
    ;
}

/// A square root of a value below 2^126 is below 2^63.
proof fn lemma_sqrt_small(n: int)
    requires
        0 <= n < 0x40000000000000000000000000000000,
    ensures
        sqrt_floor(n) < 0x8000000000000000,
{
    lemma_sqrt_floor(n);
    if sqrt_floor(n) >= 0x8000000000000000 {
        assert(sqrt_floor(n) * sqrt_floor(n) >= 0x40000000000000000000000000000000)
            by (nonlinear_arith)
            requires
                sqrt_floor(n) >= 0x8000000000000000,
        ;
    }
}

/// Both spherical surface coordinates land in the closed unit range:
/// the shifted longitude stays inside a full turn and the latitude
/// inside a half turn.
pub proof fn lemma_sphere_uv_range(p: Vec3)
    requires
        vfits(p),
    ensures
        0 <= sphere_uv_u(p) <= FX_ONE as int,
        0 <= sphere_uv_v(p) <= FX_ONE as int,
{
    crate::trig::lemma_atan2_range(-(p.z as int), p.x as int);
    let phi = sadd(atan2_spec(-(p.z as int), p.x as int), PI_FX as int);
    assert(0 <= phi <= 2 * (PI_FX as int));
    assert(0 <= sphere_uv_u(p) <= FX_ONE as int) by {
        crate::fx::lemma_tdiv_pos_bound(phi * (FX_ONE as int), TWO_PI_FX as int);
        assert(phi * (FX_ONE as int) >= 0) by (nonlinear_arith)
            requires
                phi >= 0,
        ;
        assert(phi * (FX_ONE as int) <= (TWO_PI_FX as int) * (FX_ONE as int)) by (nonlinear_arith)
            requires
                0 <= phi <= 411774,
                TWO_PI_FX as int == 411775,
                FX_ONE as int == 65536,
        ;
        vstd::arithmetic::div_mod::lemma_multiply_divide_le(
            phi * (FX_ONE as int),
            TWO_PI_FX as int,
            FX_ONE as int,
        );
    }
    crate::trig::lemma_acos_range(clamp_unit(-(p.y as int)));
    let theta = acos_spec(clamp_unit(-(p.y as int)));
    assert(0 <= sphere_uv_v(p) <= FX_ONE as int) by {
        crate::fx::lemma_tdiv_pos_bound(theta * (FX_ONE as int), PI_FX as int);
        assert(theta * (FX_ONE as int) >= 0) by (nonlinear_arith)
            requires
                theta >= 0,
        ;
        assert(theta * (FX_ONE as int) <= (PI_FX as int) * (FX_ONE as int)) by (nonlinear_arith)
            requires
                0 <= theta <= 205887,
                PI_FX as int == 205887,
                FX_ONE as int == 65536,
        ;
        vstd::arithmetic::div_mod::lemma_multiply_divide_le(
            theta * (FX_ONE as int),
            PI_FX as int,
            FX_ONE as int,
        );
    }
}

/// Widening by the scale keeps a 2^65-bounded value inside an `i128`.
proof fn lemma_scale_wide(w: int)
    requires
        -0x20000000000000000 <= w <= 0x20000000000000000,
    ensures
        -0x200000000000000000000 <= w * (FX_ONE as int) <= 0x200000000000000000000,
{
    assert(-0x200000000000000000000 <= w * (FX_ONE as int) <= 0x200000000000000000000)
        by (nonlinear_arith)
        requires
            -0x20000000000000000 <= w <= 0x20000000000000000,
            FX_ONE as int == 65536,
    ;
}

} // verus!

//! Planar parallelograms and the six-quad box compound.

use vstd::prelude::*;

use crate::aabb::{aabb_hit_spec, aabb_proper, aabb_union, aabb_wf, AABB};
use crate::fx::{fits, fx_div, sdiv, FX_ONE};
use crate::hit::{rec_wf, HitRecord, Hittable};
use crate::hit_list::HitList;
use crate::interval::{ivl_wf, Interval};
use crate::ray::{ray_wf, Ray};
use crate::vec3::{
    sv_add, sv_cross, sv_divs, sv_dot, sv_neg, sv_scale, sv_sub, sv_unit, sv_zero, vfits, Vec3,
};

verus! {

#[derive(Clone, Copy, Debug)]
pub struct Quad {
    pub q: Vec3,
    pub u: Vec3,
    pub v: Vec3,
    pub w: Vec3,
    pub mat: usize,
    pub bbox: AABB,
    pub normal: Vec3,
    pub d: i64,
}

pub open spec fn quad_wf(qd: Quad) -> bool {
    vfits(qd.q) && vfits(qd.u) && vfits(qd.v) && vfits(qd.w) && vfits(qd.normal) && fits(
        qd.d as int,
    ) && aabb_wf(qd.bbox) && aabb_proper(qd.bbox)
}

/// The plane-basis vector `w = n / (n . n)`; degenerate edges give zero.
pub open spec fn quad_w_spec(n: Vec3) -> Vec3 {
    if sv_dot(n, n) == 0 {
        sv_zero()
    } else {
        sv_divs(n, sv_dot(n, n))
    }
}

/// The quad the constructor builds from a corner, two edges and a
/// material: its plane data and its padded box are all determined.
pub open spec fn quad_mk(q: Vec3, u: Vec3, v: Vec3, mat: usize) -> Quad {
    Quad {
        q,
        u,
        v,
        w: quad_w_spec(sv_cross(u, v)),
        mat,
        bbox: aabb_union(
            crate::aabb::aabb_from_points(q, sv_add(sv_add(q, u), v)),
            crate::aabb::aabb_from_points(sv_add(q, u), sv_add(q, v)),
        ),
        normal: sv_unit(sv_cross(u, v)),
        d: sv_dot(sv_unit(sv_cross(u, v)), q) as i64,
    }
}

/// The ray parameter at which the ray meets the quad's plane.
pub open spec fn quad_plane_t(qd: Quad, r: Ray) -> int {
    sdiv(sv_dot(qd.normal, sv_sub(qd.q, r.orig)), sv_dot(qd.normal, r.dir))
}

/// The planar coordinates of the intersection point.
pub open spec fn quad_alpha(qd: Quad, r: Ray, t: int) -> int {
    sv_dot(qd.w, sv_cross(sv_sub(sv_add(r.orig, sv_scale(r.dir, t)), qd.q), qd.v))
}

pub open spec fn quad_beta(qd: Quad, r: Ray, t: int) -> int {
    sv_dot(qd.w, sv_cross(qd.u, sv_sub(sv_add(r.orig, sv_scale(r.dir, t)), qd.q)))
}

/// The record produced for a hit at parameter `t` with planar
/// coordinates `(alpha, beta)`.
pub open spec fn quad_rec(qd: Quad, r: Ray, t: int, alpha: int, beta: int) -> HitRecord {
    let front = sv_dot(r.dir, qd.normal) < 0;
    HitRecord {
        point: sv_add(r.orig, sv_scale(r.dir, t)),
        normal: if front {
            qd.normal
        } else {
            sv_neg(qd.normal)
        },
        t: t as i64,
        front_face: front,
        mat: Some(qd.mat),
        u: alpha as i64,
        v: beta as i64,
    }
}

/// The full intersection semantics: the box guard, a non-parallel plane,
/// the parameter inside the closed search interval, and planar
/// coordinates inside the unit square.
pub open spec fn quad_hit_spec(qd: Quad, r: Ray, t: Interval) -> Option<HitRecord> {
    if !aabb_hit_spec(qd.bbox, r, t) || sv_dot(qd.normal, r.dir) == 0 {
        None
    } else {
        let tp = quad_plane_t(qd, r);
        if !(t.min <= tp <= t.max) {
            None
        } else {
            let alpha = quad_alpha(qd, r, tp);
            let beta = quad_beta(qd, r, tp);
            if 0 <= alpha <= FX_ONE as int && 0 <= beta <= FX_ONE as int {
                Some(quad_rec(qd, r, tp, alpha, beta))
            } else {
                None
            }
        }
    }
}

impl Quad {
    pub fn new(q: Vec3, u: Vec3, v: Vec3, mat: usize) -> (r: Quad)
        requires
            vfits(q),
            vfits(u),
            vfits(v),
        ensures
            r == quad_mk(q, u, v, mat),
            r.q == q && r.u == u && r.v == v && r.mat == mat,
            r.normal == sv_unit(sv_cross(u, v)),
            r.d as int == sv_dot(r.normal, q),
            r.w == quad_w_spec(sv_cross(u, v)),
            r.bbox == aabb_union(
                crate::aabb::aabb_from_points(q, sv_add(sv_add(q, u), v)),
                crate::aabb::aabb_from_points(sv_add(q, u), sv_add(q, v)),
            ),
            quad_wf(r),
    {
        let n = u.cross(&v);
        let normal = n.normalize();
        let d = normal.dot(&q);
        let nn = n.dot(&n);
        let w = if nn == 0 {
            Vec3::zero()
        } else {
            n.div_s(nn)
        };
        let bbox_diag1 = AABB::new_by_point(q, q.add(&u).add(&v));
        let bbox_diag2 = AABB::new_by_point(q.add(&u), q.add(&v));
        let bbox = AABB::new_by_aabb(&bbox_diag1, &bbox_diag2);
        proof {
            crate::aabb::lemma_aabb_union_tight(bbox_diag1, bbox_diag2, bbox);
        }
        Quad { q, u, v, w, mat, bbox, normal, d }
    }

    /// Accept planar coordinates inside the unit square, recording them.
    pub fn is_interior(alpha: i64, beta: i64, rec: &mut HitRecord) -> (res: bool)
        ensures
            res == (0 <= alpha <= FX_ONE && 0 <= beta <= FX_ONE),
            res ==> *final(rec) == (HitRecord { u: alpha, v: beta, ..*old(rec) }),
            !res ==> *final(rec) == *old(rec),
    {
        if alpha < 0 || alpha > FX_ONE || beta < 0 || beta > FX_ONE {
            return false;
        }
        rec.u = alpha;
        rec.v = beta;
        true
    }

    /// The intersection query.
    pub fn hit(&self, ray: &Ray, ray_t: Interval, rec: &mut HitRecord) -> (res: bool)
        requires
            quad_wf(*self),
            ray_wf(*ray),
            ivl_wf(ray_t),
            rec_wf(*old(rec)),
        ensures
            res == quad_hit_spec(*self, *ray, ray_t) is Some,
            res ==> quad_hit_spec(*self, *ray, ray_t) == Some(*final(rec)),
            res ==> 0 <= final(rec).u <= FX_ONE && 0 <= final(rec).v <= FX_ONE,
            !res ==> *final(rec) == *old(rec),
            rec_wf(*final(rec)),
    {
        let mut guard_t = ray_t;
        if !self.bbox.hit(ray, &mut guard_t) {
            return false;
        }
        let denom = self.normal.dot(&ray.dir);
        if denom == 0 {
            return false;
        }
        let t = fx_div(self.normal.dot(&self.q.sub(&ray.orig)), denom);
        if !ray_t.contains(t) {
            return false;
        }
        let intersection = ray.at(t);
        let planar_hitpt_vector = intersection.sub(&self.q);
        let alpha = self.w.dot(&planar_hitpt_vector.cross(&self.v));
        let beta = self.w.dot(&self.u.cross(&planar_hitpt_vector));
        if !Quad::is_interior(alpha, beta, rec) {
            return false;
        }
        rec.t = t;
        rec.point = intersection;
        rec.mat = Some(self.mat);
        rec.set_face_normal(ray, self.normal);
        true
    }

    /// The enclosing box.
    pub fn bounding_box(&self) -> (r: AABB)
        ensures
            r == self.bbox,
    {
        self.bbox
    }
}

/// The six face quads of the axis-aligned prism with the given
/// componentwise-ordered corners, in construction order: front, right,
/// back, left, top, bottom.
pub open spec fn gen_box_faces(a: Vec3, b: Vec3, mat: usize) -> Seq<Hittable> {
    let mn = Vec3 {
        x: if a.x <= b.x {
            a.x
        } else {
            b.x
        },
        y: if a.y <= b.y {
            a.y
        } else {
            b.y
        },
        z: if a.z <= b.z {
            a.z
        } else {
            b.z
        },
    };
    let mx = Vec3 {
        x: if a.x >= b.x {
            a.x
        } else {
            b.x
        },
        y: if a.y >= b.y {
            a.y
        } else {
            b.y
        },
        z: if a.z >= b.z {
            a.z
        } else {
            b.z
        },
    };
    let dx = Vec3 { x: crate::fx::ssub(mx.x as int, mn.x as int) as i64, y: 0, z: 0 };
    let dy = Vec3 { x: 0, y: crate::fx::ssub(mx.y as int, mn.y as int) as i64, z: 0 };
    let dz = Vec3 { x: 0, y: 0, z: crate::fx::ssub(mx.z as int, mn.z as int) as i64 };
    seq![
        Hittable::Quad(quad_mk(Vec3 { x: mn.x, y: mn.y, z: mx.z }, dx, dy, mat)),
        Hittable::Quad(quad_mk(Vec3 { x: mx.x, y: mn.y, z: mx.z }, sv_neg(dz), dy, mat)),
        Hittable::Quad(quad_mk(Vec3 { x: mx.x, y: mn.y, z: mn.z }, sv_neg(dx), dy, mat)),
        Hittable::Quad(quad_mk(Vec3 { x: mn.x, y: mn.y, z: mn.z }, dz, dy, mat)),
        Hittable::Quad(quad_mk(Vec3 { x: mn.x, y: mx.y, z: mx.z }, dx, sv_neg(dz), mat)),
        Hittable::Quad(quad_mk(Vec3 { x: mn.x, y: mn.y, z: mn.z }, dx, dz, mat)),
    ]
}

/// The closed rectangular prism spanned by two opposite corners, as a
/// list of exactly the six face quads of [`gen_box_faces`], all sharing
/// one material.
#[verifier::rlimit(100)]
pub fn gen_box(a: Vec3, b: Vec3, mat: usize) -> (r: Hittable)
    requires
        vfits(a),
        vfits(b),
    ensures
        crate::hit::hittable_wf(r),
        r is List,
        r matches Hittable::List(l) ==> l.list@ == gen_box_faces(a, b, mat),
        r matches Hittable::List(l) ==> l.list@.len() == 6,
{
    let list: Vec<Hittable> = Vec::new();
    let mut sides: HitList = HitList::new(list);
    let min = Vec3::new(
        crate::fx::fx_min(a.x, b.x),
        crate::fx::fx_min(a.y, b.y),
        crate::fx::fx_min(a.z, b.z),
    );
    let max = Vec3::new(
        crate::fx::fx_max(a.x, b.x),
        crate::fx::fx_max(a.y, b.y),
        crate::fx::fx_max(a.z, b.z),
    );
    let dx = Vec3::new(crate::fx::fx_sub(max.x, min.x), 0, 0);
    let dy = Vec3::new(0, crate::fx::fx_sub(max.y, min.y), 0);
    let dz = Vec3::new(0, 0, crate::fx::fx_sub(max.z, min.z));
    sides.add(Hittable::Quad(Quad::new(Vec3::new(min.x, min.y, max.z), dx, dy, mat)));
    sides.add(Hittable::Quad(Quad::new(Vec3::new(max.x, min.y, max.z), dz.neg(), dy, mat)));
    sides.add(Hittable::Quad(Quad::new(Vec3::new(max.x, min.y, min.z), dx.neg(), dy, mat)));
    sides.add(Hittable::Quad(Quad::new(Vec3::new(min.x, min.y, min.z), dz, dy, mat)));
    sides.add(Hittable::Quad(Quad::new(Vec3::new(min.x, max.y, max.z), dx, dz.neg(), mat)));
    sides.add(Hittable::Quad(Quad::new(Vec3::new(min.x, min.y, min.z), dx, dz, mat)));
    proof {
        assert(sides.list@ =~= gen_box_faces(a, b, mat));
    }
    Hittable::List(sides)
}

} // verus!

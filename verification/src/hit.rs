//! The intersection protocol: hit records and the closed set of
//! intersectable shapes.
//!
//! Dynamic dispatch is rendered as a tagged sum over {sphere, quad, list,
//! BVH node}; any variant can stand wherever a shape is expected, so a BVH
//! leaf may itself be a whole list of quads.  The spec-level semantics of
//! an intersection query is [`hittable_hit_spec`]; a list or a whole
//! flattened tree is folded by [`seq_fold_hit`], which keeps the nearest
//! record and shrinks the search interval as it goes.

use vstd::prelude::*;

use crate::aabb::{aabb_hit_spec, AABB};
use crate::bvh::Bvh_Node;
use crate::fx::fits;
use crate::hit_list::HitList;
use crate::interval::{ivl2, ivl_wf, Interval};
use crate::quad::{quad_hit_spec, quad_wf, Quad};
use crate::ray::{ray_wf, Ray};
use crate::sphere::{sphere_hit_spec, sphere_wf, Sphere};
use crate::vec3::{sv_dot, sv_neg, vfits, Vec3};

verus! {

#[derive(Clone, Copy, Debug)]
pub struct HitRecord {
    pub point: Vec3,
    pub normal: Vec3,
    pub t: i64,
    pub front_face: bool,
    pub mat: Option<usize>,
    pub u: i64,
    pub v: i64,
}

/// Every numeric field of the record lies in the representable band.
pub open spec fn rec_wf(rec: HitRecord) -> bool {
    vfits(rec.point) && vfits(rec.normal) && fits(rec.t as int) && fits(rec.u as int) && fits(
    rec.v as int)
}

impl HitRecord {
    /// A fresh record; surface coordinates start at zero.
    pub fn new(point: Vec3, normal: Vec3, t: i64, front_face: bool, mat: Option<usize>) -> (r:
        HitRecord)
        requires
            vfits(point),
            vfits(normal),
            fits(t as int),
        ensures
            r.point == point && r.normal == normal && r.t == t && r.front_face == front_face
                && r.mat == mat && r.u == 0 && r.v == 0,
            rec_wf(r),
    {
        HitRecord { point, normal, t, front_face, mat, u: 0, v: 0 }
    }

    /// Record which side was struck and flip the normal against the ray.
    pub fn set_face_normal(&mut self, ray_: &Ray, out_normal: Vec3)
        requires
            ray_wf(*ray_),
            vfits(out_normal),
        ensures
            final(self).front_face == (sv_dot(ray_.dir, out_normal) < 0),
            final(self).normal == (if sv_dot(ray_.dir, out_normal) < 0 {
                out_normal
            } else {
                sv_neg(out_normal)
            }),
            final(self).point == old(self).point,
            final(self).t == old(self).t,
            final(self).mat == old(self).mat,
            final(self).u == old(self).u,
            final(self).v == old(self).v,
            vfits(final(self).normal),
    {
        self.front_face = ray_.dir.dot(&out_normal) < 0;
        self.normal = if self.front_face {
            out_normal
        } else {
            out_normal.neg()
        };
    }
}

/// The closed set of intersectable shapes.
pub enum Hittable {
    Sphere(Sphere),
    Quad(Quad),
    List(HitList),
    Node(Bvh_Node),
}

/// A primitive leaf: a sphere or a quad, not a compound.
pub open spec fn is_prim(h: Hittable) -> bool {
    h is Sphere || h is Quad
}

/// The shape's enclosing box.
pub open spec fn hbox(h: Hittable) -> AABB {
    match h {
        Hittable::Sphere(s) => s.bbox,
        Hittable::Quad(q) => q.bbox,
        Hittable::List(l) => l.bbox,
        Hittable::Node(n) => n.bbox,
    }
}

/// Well-formedness: numeric fields in band, every enclosing box proper,
/// and every parent box containing the boxes of what lies beneath it.
pub open spec fn hittable_wf(h: Hittable) -> bool
    decreases h,
{
    match h {
        Hittable::Sphere(s) => sphere_wf(s),
        Hittable::Quad(q) => quad_wf(q),
        Hittable::List(l) => crate::aabb::aabb_wf(l.bbox) && crate::aabb::aabb_proper(l.bbox)
            && forall|i: int|
            0 <= i < l.list@.len() ==> hittable_wf(#[trigger] l.list@[i]) && crate::aabb::aabb_contains(
                l.bbox,
                hbox(l.list@[i]),
            ),
        Hittable::Node(n) => crate::aabb::aabb_wf(n.bbox) && crate::aabb::aabb_proper(n.bbox)
            && hittable_wf(*n.left) && hittable_wf(*n.right) && crate::aabb::aabb_contains(
            n.bbox,
            hbox(*n.left),
        ) && crate::aabb::aabb_contains(n.bbox, hbox(*n.right)),
    }
}

/// What a hit query returns, as a mathematical function of the shape.
pub open spec fn hittable_hit_spec(h: Hittable, r: Ray, t: Interval) -> Option<HitRecord>
    decreases h, 0int,
{
    match h {
        Hittable::Sphere(s) => sphere_hit_spec(s, r, t),
        Hittable::Quad(q) => quad_hit_spec(q, r, t),
        Hittable::List(l) => seq_fold_hit(l.list@, 0, r, t.min as int, t.max as int, None),
        Hittable::Node(n) => if !aabb_hit_spec(n.bbox, r, t) {
            None
        } else {
            match hittable_hit_spec(*n.left, r, t) {
                Some(lr) => match hittable_hit_spec(
                    *n.right,
                    r,
                    ivl2(t.min as int, lr.t as int),
                ) {
                    Some(rr) => Some(rr),
                    None => Some(lr),
                },
                None => hittable_hit_spec(*n.right, r, t),
            }
        },
    }
}

/// Fold a sequence of shapes from index `i` on, keeping the nearest
/// record found so far and narrowing the search to `(tmin, closest)`.
pub open spec fn seq_fold_hit(
    s: Seq<Hittable>,
    i: int,
    r: Ray,
    tmin: int,
    closest: int,
    best: Option<HitRecord>,
) -> Option<HitRecord>
    decreases s, s.len() - i,
{
    if i < 0 || i >= s.len() {
        best
    } else {
        match hittable_hit_spec(s[i], r, ivl2(tmin, closest)) {
            Some(rec) => seq_fold_hit(s, i + 1, r, tmin, rec.t as int, Some(rec)),
            None => seq_fold_hit(s, i + 1, r, tmin, closest, best),
        }
    }
}

/// The primitive leaves below a shape, in traversal order.
pub open spec fn flatten(h: Hittable) -> Seq<Hittable>
    decreases h, 0int,
{
    match h {
        Hittable::Sphere(s) => seq![h],
        Hittable::Quad(q) => seq![h],
        Hittable::List(l) => flat_from(l.list@, 0),
        Hittable::Node(n) => flatten(*n.left) + flatten(*n.right),
    }
}

pub open spec fn flat_from(s: Seq<Hittable>, i: int) -> Seq<Hittable>
    decreases s, s.len() - i,
{
    if i < 0 || i >= s.len() {
        Seq::empty()
    } else {
        flatten(s[i]) + flat_from(s, i + 1)
    }
}

impl Hittable {
    /// The shape's enclosing box.
    pub fn bounding_box(&self) -> (r: AABB)
        ensures
            r == hbox(*self),
    {
        match self {
            Hittable::Sphere(s) => s.bounding_box(),
            Hittable::Quad(q) => q.bounding_box(),
            Hittable::List(l) => l.bounding_box(),
            Hittable::Node(n) => n.bounding_box(),
        }
    }

    /// Dispatch an intersection query to the variant.
    pub fn hit(&self, ray_: &Ray, ray_t: Interval, rec: &mut HitRecord) -> (res: bool)
        requires
            hittable_wf(*self),
            ray_wf(*ray_),
            ivl_wf(ray_t),
            rec_wf(*old(rec)),
        ensures
            res == hittable_hit_spec(*self, *ray_, ray_t) is Some,
            res ==> hittable_hit_spec(*self, *ray_, ray_t) == Some(*final(rec)),
            !res ==> *final(rec) == *old(rec),
            rec_wf(*final(rec)),
        decreases *self, 1int,
    {
        match self {
            Hittable::Sphere(s) => s.hit(ray_, ray_t, rec),
            Hittable::Quad(q) => q.hit(ray_, ray_t, rec),
            Hittable::List(l) => l.hit(ray_, ray_t, rec),
            Hittable::Node(n) => n.hit(ray_, ray_t, rec),
        }
    }

    /// A deep copy, used where the original shared shapes by reference.
    /// Primitive leaves copy exactly; compounds keep their box and their
    /// well-formedness.
    pub fn duplicate(&self) -> (r: Hittable)
        ensures
            hbox(r) == hbox(*self),
            hittable_wf(*self) ==> hittable_wf(r),
            *self is Sphere ==> r == *self,
            *self is Quad ==> r == *self,
        decreases *self, 1int,
    {
        match self {
            Hittable::Sphere(s) => Hittable::Sphere(*s),
            Hittable::Quad(q) => Hittable::Quad(*q),
            Hittable::List(l) => Hittable::List(l.duplicate()),
            Hittable::Node(n) => Hittable::Node(n.duplicate()),
        }
    }
}

/// A shape displaced by a fixed offset, with its box displaced alongside.
pub struct Translate {
    pub object: Box<Hittable>,
    pub offset: Vec3,
    pub bbox: AABB,
}

impl Translate {
    pub fn new(object: Box<Hittable>, offset: Vec3) -> (r: Translate)
        requires
            vfits(offset),
            crate::aabb::aabb_wf(hbox(*object)),
        ensures
            r.object == object,
            r.offset == offset,
            r.bbox == shift_box(hbox(*object), offset),
    {
        let bbox = shift_box_exec(&object.bounding_box(), &offset);
        Translate { object, offset, bbox }
    }
}

/// A box displaced by a vector, saturating at the band edge.
pub open spec fn shift_box(b: AABB, off: Vec3) -> AABB {
    AABB {
        x: Interval {
            min: crate::fx::sadd(b.x.min as int, off.x as int) as i64,
            max: crate::fx::sadd(b.x.max as int, off.x as int) as i64,
        },
        y: Interval {
            min: crate::fx::sadd(b.y.min as int, off.y as int) as i64,
            max: crate::fx::sadd(b.y.max as int, off.y as int) as i64,
        },
        z: Interval {
            min: crate::fx::sadd(b.z.min as int, off.z as int) as i64,
            max: crate::fx::sadd(b.z.max as int, off.z as int) as i64,
        },
    }
}

fn shift_box_exec(b: &AABB, off: &Vec3) -> (r: AABB)
    requires
        crate::aabb::aabb_wf(*b),
        vfits(*off),
    ensures
        r == shift_box(*b, *off),
{
    AABB {
        x: Interval {
            min: crate::fx::fx_add(b.x.min, off.x),
            max: crate::fx::fx_add(b.x.max, off.x),
        },
        y: Interval {
            min: crate::fx::fx_add(b.y.min, off.y),
            max: crate::fx::fx_add(b.y.max, off.y),
        },
        z: Interval {
            min: crate::fx::fx_add(b.z.min, off.z),
            max: crate::fx::fx_add(b.z.max, off.z),
        },
    }
}

} // verus!

//! A flat collection of shapes, searched linearly for the nearest hit.

use vstd::prelude::*;

use crate::aabb::{aabb_contains, aabb_proper, aabb_union, aabb_wf, AABB};
use crate::hit::{hbox, hittable_hit_spec, hittable_wf, rec_wf, seq_fold_hit, HitRecord, Hittable};
use crate::interval::{ivl2, ivl_wf, Interval};
use crate::ray::{ray_wf, Ray};
use crate::vec3::Vec3;

verus! {

pub struct HitList {
    pub list: Vec<Hittable>,
    pub bbox: AABB,
}

/// A well-formed shape has a well-formed, proper enclosing box.
pub proof fn lemma_wf_box(h: Hittable)
    requires
        hittable_wf(h),
    ensures
        aabb_wf(hbox(h)),
        aabb_proper(hbox(h)),
{
}

impl HitList {
    /// Wrap an existing vector of shapes; the box starts at the whole
    /// band, which encloses every well-formed shape.
    pub fn new(list: Vec<Hittable>) -> (r: HitList)
        requires
            forall|i: int| 0 <= i < list@.len() ==> hittable_wf(#[trigger] list@[i]),
        ensures
            r.list@ == list@,
            r.bbox.x.min == -crate::fx::FX_MAX && r.bbox.x.max == crate::fx::FX_MAX,
            r.bbox.y.min == -crate::fx::FX_MAX && r.bbox.y.max == crate::fx::FX_MAX,
            r.bbox.z.min == -crate::fx::FX_MAX && r.bbox.z.max == crate::fx::FX_MAX,
            hittable_wf(Hittable::List(r)),
    {
        let r = HitList { list, bbox: AABB::default() };
        proof {
            assert forall|i: int| 0 <= i < r.list@.len() implies hittable_wf(#[trigger] r.list@[i])
                && aabb_contains(r.bbox, hbox(r.list@[i])) by {
                lemma_wf_box(r.list@[i]);
            }
        }
        r
    }

    /// Append a shape, growing the box to keep enclosing everything.
    pub fn add(&mut self, item: Hittable)
        requires
            hittable_wf(Hittable::List(*old(self))),
            hittable_wf(item),
        ensures
            final(self).list@ == old(self).list@.push(item),
            final(self).bbox == aabb_union(old(self).bbox, hbox(item)),
            hittable_wf(Hittable::List(*final(self))),
    {
        let item_bbox = item.bounding_box();
        self.list.push(item);
        self.bbox = AABB::new_by_aabb(&self.bbox, &item_bbox);
        proof {
            lemma_wf_box(item);
            assert forall|i: int| 0 <= i < self.list@.len() implies hittable_wf(
                #[trigger] self.list@[i],
            ) && aabb_contains(self.bbox, hbox(self.list@[i])) by {
                if i < old(self).list@.len() {
                    assert(old(self).list@[i] == self.list@[i]);
                }
            }
        }
    }

    /// A singleton collection.
    pub fn new_by_arc(object: Hittable) -> (r: HitList)
        requires
            hittable_wf(object),
        ensures
            r.list@ =~= seq![object],
            hittable_wf(Hittable::List(r)),
    {
        let mut list: HitList = HitList::new(Vec::new());
        list.add(object);
        list
    }

    /// Drop every shape; the box is left as it was.
    pub fn clear(&mut self)
        requires
            hittable_wf(Hittable::List(*old(self))),
        ensures
            final(self).list@.len() == 0,
            final(self).bbox == old(self).bbox,
            hittable_wf(Hittable::List(*final(self))),
    {
        self.list.clear();
    }

    /// A deep copy: same box, same length, boxes of the members kept,
    /// well-formedness kept, primitive members copied exactly.
    pub fn duplicate(&self) -> (r: HitList)
        ensures
            r.bbox == self.bbox,
            r.list@.len() == self.list@.len(),
            forall|i: int|
                0 <= i < self.list@.len() ==> hbox(#[trigger] r.list@[i]) == hbox(self.list@[i]),
            forall|i: int|
                0 <= i < self.list@.len() ==> (hittable_wf(#[trigger] self.list@[i])
                    ==> hittable_wf(r.list@[i])),
            forall|i: int|
                0 <= i < self.list@.len() ==> ((self.list@[i] is Sphere || self.list@[i] is Quad)
                    ==> #[trigger] r.list@[i] == self.list@[i]),
            hittable_wf(Hittable::List(*self)) ==> hittable_wf(Hittable::List(r)),
        decreases *self, 0int,
    {
        let mut list: Vec<Hittable> = Vec::new();
        let mut i: usize = 0;
        while i < self.list.len()
            invariant
                0 <= i <= self.list@.len(),
                list@.len() == i,
                forall|k: int|
                    0 <= k < i ==> hbox(#[trigger] list@[k]) == hbox(self.list@[k]),
                forall|k: int|
                    0 <= k < i ==> (hittable_wf(#[trigger] self.list@[k]) ==> hittable_wf(
                        list@[k],
                    )),
                forall|k: int|
                    0 <= k < i ==> ((self.list@[k] is Sphere || self.list@[k] is Quad)
                        ==> #[trigger] list@[k] == self.list@[k]),
            decreases self.list@.len() - i,
        {
            let element = &self.list[i];
            list.push(element.duplicate());
            i = i + 1;
        }
        let r = HitList { list, bbox: self.bbox };
        proof {
            if hittable_wf(Hittable::List(*self)) {
                assert forall|k: int| 0 <= k < r.list@.len() implies hittable_wf(
                    #[trigger] r.list@[k],
                ) && aabb_contains(r.bbox, hbox(r.list@[k])) by {
                    assert(hittable_wf(self.list@[k]));
                    assert(aabb_contains(self.bbox, hbox(self.list@[k])));
                }
            }
        }
        r
    }

    /// Search every member, keeping the nearest record and narrowing the
    /// interval as hits are found.
    pub fn hit(&self, ray_: &Ray, ray_t: Interval, rec: &mut HitRecord) -> (res: bool)
        requires
            hittable_wf(Hittable::List(*self)),
            ray_wf(*ray_),
            ivl_wf(ray_t),
            rec_wf(*old(rec)),
        ensures
            res == hittable_hit_spec(Hittable::List(*self), *ray_, ray_t) is Some,
            res ==> hittable_hit_spec(Hittable::List(*self), *ray_, ray_t) == Some(*final(rec)),
            !res ==> *final(rec) == *old(rec),
            rec_wf(*final(rec)),
        decreases *self, 0int,
    {
        let mut temp_rec = HitRecord::new(Vec3::zero(), Vec3::zero(), 0, false, None);
        let mut hit_anything = false;
        let mut closest_so_far = ray_t.max;
        let mut i: usize = 0;
        while i < self.list.len()
            invariant
                hittable_wf(Hittable::List(*self)),
                ray_wf(*ray_),
                ivl_wf(ray_t),
                0 <= i <= self.list@.len(),
                crate::fx::fits(closest_so_far as int),
                rec_wf(temp_rec),
                rec_wf(*rec),
                !hit_anything ==> *rec == *old(rec) && closest_so_far == ray_t.max,
                seq_fold_hit(self.list@, 0, *ray_, ray_t.min as int, ray_t.max as int, None)
                    == seq_fold_hit(
                    self.list@,
                    i as int,
                    *ray_,
                    ray_t.min as int,
                    closest_so_far as int,
                    if hit_anything {
                        Some(*rec)
                    } else {
                        None
                    },
                ),
            decreases self.list@.len() - i,
        {
            let element = &self.list[i];
            proof {
                assert(hittable_wf(self.list@[i as int]));
            }
            if element.hit(ray_, Interval::new(ray_t.min, closest_so_far), &mut temp_rec) {
                hit_anything = true;
                closest_so_far = temp_rec.t;
                *rec = temp_rec;
            }
            i = i + 1;
        }
        hit_anything
    }

    /// The enclosing box.
    pub fn bounding_box(&self) -> (r: AABB)
        ensures
            r == self.bbox,
    {
        self.bbox
    }
}

} // verus!

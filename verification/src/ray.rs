//! Rays with a motion-blur time stamp.

use vstd::prelude::*;

use crate::fx::fits;
use crate::vec3::{sv_add, sv_scale, vfits, Vec3};

verus! {

#[derive(Clone, Copy, Debug, PartialEq, Eq, Structural)]
pub struct Ray {
    pub orig: Vec3,
    pub dir: Vec3,
    pub time: i64,
}

/// Every coordinate of the ray lies in the representable band.
pub open spec fn ray_wf(r: Ray) -> bool {
    vfits(r.orig) && vfits(r.dir) && fits(r.time as int)
}

impl Ray {
    pub fn new(origin: Vec3, direction: Vec3, time: i64) -> (r: Ray)
        requires
            vfits(origin),
            vfits(direction),
            fits(time as int),
        ensures
            r.orig == origin && r.dir == direction && r.time == time,
            ray_wf(r),
    {
        Ray { orig: origin, dir: direction, time }
    }

    /// The point reached after parameter `t`.
    pub fn at(&self, t: i64) -> (r: Vec3)
        requires
            ray_wf(*self),
            fits(t as int),
        ensures
            r == sv_add(self.orig, sv_scale(self.dir, t as int)),
            vfits(r),
    {
        self.orig.add(&self.dir.scale(t))
    }
}

} // verus!

//! Axis-aligned bounding boxes and the ray/box slab test.
//!
//! Boxes are padded at construction so no axis is thinner than [`PAD`] raw
//! units; flat primitives therefore still produce valid slab tests.  The
//! slab test is monotone both in the box and in the search interval, which
//! is what makes bounding-volume pruning sound (see [`lemma_slab_mono`]).

use vstd::prelude::*;

use crate::fx::{
    fits, fx_clamp_i128, i128_tdiv, lemma_tdiv_mono_signed, sat, tdiv, FX_MAX, FX_ONE,
};
use crate::interval::{ivl_expand, ivl_union, ivl_wf, Interval};
use crate::ray::{ray_wf, Ray};
use crate::vec3::{vfits, Vec3};

verus! {

/// Minimum thickness of a box axis, in raw units.
pub const PAD: i64 = 8;

#[derive(Clone, Copy, Debug, PartialEq, Eq, Structural)]
pub struct AABB {
    pub x: Interval,
    pub y: Interval,
    pub z: Interval,
}

pub open spec fn aabb_wf(b: AABB) -> bool {
    ivl_wf(b.x) && ivl_wf(b.y) && ivl_wf(b.z)
}

/// Every axis runs forward.
pub open spec fn aabb_proper(b: AABB) -> bool {
    b.x.min <= b.x.max && b.y.min <= b.y.max && b.z.min <= b.z.max
}

/// `outer` encloses `inner` on every axis.
pub open spec fn aabb_contains(outer: AABB, inner: AABB) -> bool {
    outer.x.min <= inner.x.min && inner.x.max <= outer.x.max && outer.y.min <= inner.y.min
        && inner.y.max <= outer.y.max && outer.z.min <= inner.z.min && inner.z.max <= outer.z.max
}

pub open spec fn aabb_mk(x: Interval, y: Interval, z: Interval) -> AABB {
    AABB { x, y, z }
}

/// Thicken an axis up to the padding floor.
pub open spec fn pad_ivl(i: Interval) -> Interval {
    if i.max - i.min < PAD as int {
        ivl_expand(i, PAD as int)
    } else {
        i
    }
}

pub open spec fn aabb_new_spec(x: Interval, y: Interval, z: Interval) -> AABB {
    AABB { x: pad_ivl(x), y: pad_ivl(y), z: pad_ivl(z) }
}

/// The ordered interval spanned by two scalars.
pub open spec fn ivl_span(a: int, b: int) -> Interval {
    if a <= b {
        Interval { min: a as i64, max: b as i64 }
    } else {
        Interval { min: b as i64, max: a as i64 }
    }
}

pub open spec fn aabb_from_points(a: Vec3, b: Vec3) -> AABB {
    aabb_new_spec(
        ivl_span(a.x as int, b.x as int),
        ivl_span(a.y as int, b.y as int),
        ivl_span(a.z as int, b.z as int),
    )
}

pub open spec fn aabb_union(b0: AABB, b1: AABB) -> AABB {
    AABB { x: ivl_union(b0.x, b1.x), y: ivl_union(b0.y, b1.y), z: ivl_union(b0.z, b1.z) }
}

/// One axis of the slab test: intersect the running parameter range with
/// the entry/exit parameters of this slab.  A zero direction component
/// constrains nothing when the origin lies inside the slab and rejects
/// everything when it lies outside.
pub open spec fn slab_axis(iv: Interval, o: int, d: int, cur: Interval) -> Interval {
    if d == 0 {
        if iv.min <= o && o <= iv.max {
            cur
        } else {
            Interval { min: cur.min, max: cur.min }
        }
    } else {
        let t0 = sat(tdiv((iv.min - o) * (FX_ONE as int), d));
        let t1 = sat(tdiv((iv.max - o) * (FX_ONE as int), d));
        let lo = if t0 < t1 {
            t0
        } else {
            t1
        };
        let hi = if t0 < t1 {
            t1
        } else {
            t0
        };
        Interval {
            min: (if lo > cur.min { lo } else { cur.min as int }) as i64,
            max: (if hi < cur.max { hi } else { cur.max as int }) as i64,
        }
    }
}

/// The parameter range after the x, then y, then z slabs.
pub open spec fn slab1(b: AABB, r: Ray, cur: Interval) -> Interval {
    slab_axis(b.x, r.orig.x as int, r.dir.x as int, cur)
}

pub open spec fn slab2(b: AABB, r: Ray, cur: Interval) -> Interval {
    slab_axis(b.y, r.orig.y as int, r.dir.y as int, slab1(b, r, cur))
}

pub open spec fn slab3(b: AABB, r: Ray, cur: Interval) -> Interval {
    slab_axis(b.z, r.orig.z as int, r.dir.z as int, slab2(b, r, cur))
}

/// Does the ray meet the box somewhere in the parameter range `cur`?
pub open spec fn aabb_hit_spec(b: AABB, r: Ray, cur: Interval) -> bool {
    slab1(b, r, cur).max > slab1(b, r, cur).min && slab2(b, r, cur).max > slab2(b, r, cur).min
        && slab3(b, r, cur).max > slab3(b, r, cur).min
}

/// The parameter range left behind by the test (it stops at the first
/// empty axis, as the implementation does).
pub open spec fn slab_final(b: AABB, r: Ray, cur: Interval) -> Interval {
    if !(slab1(b, r, cur).max > slab1(b, r, cur).min) {
        slab1(b, r, cur)
    } else if !(slab2(b, r, cur).max > slab2(b, r, cur).min) {
        slab2(b, r, cur)
    } else {
        slab3(b, r, cur)
    }
}

impl AABB {
    /// Build a box from three axis ranges, padding thin axes.
    pub fn new(x_: Interval, y_: Interval, z_: Interval) -> (r: AABB)
        requires
            ivl_wf(x_),
            ivl_wf(y_),
            ivl_wf(z_),
        ensures
            r == aabb_new_spec(x_, y_, z_),
            aabb_wf(r),
            aabb_contains(r, aabb_mk(x_, y_, z_)),
            x_.min <= x_.max ==> r.x.min <= r.x.max,
            y_.min <= y_.max ==> r.y.min <= r.y.max,
            z_.min <= z_.max ==> r.z.min <= r.z.max,
    {
        let mut x = x_;
        let mut y = y_;
        let mut z = z_;
        if x.size() < PAD {
            x = x.expand(PAD);
        }
        if y.size() < PAD {
            y = y.expand(PAD);
        }
        if z.size() < PAD {
            z = z.expand(PAD);
        }
        AABB { x, y, z }
    }

    /// The padded box spanned by two opposite corners.
    pub fn new_by_point(a: Vec3, b: Vec3) -> (r: AABB)
        requires
            vfits(a),
            vfits(b),
        ensures
            r == aabb_from_points(a, b),
            aabb_wf(r),
            aabb_proper(r),
    {
        let x = if a.x <= b.x {
            Interval::new(a.x, b.x)
        } else {
            Interval::new(b.x, a.x)
        };
        let y = if a.y <= b.y {
            Interval::new(a.y, b.y)
        } else {
            Interval::new(b.y, a.y)
        };
        let z = if a.z <= b.z {
            Interval::new(a.z, b.z)
        } else {
            Interval::new(b.z, a.z)
        };
        AABB::new(x, y, z)
    }

    /// The tight union of two boxes.
    pub fn new_by_aabb(box0: &AABB, box1: &AABB) -> (r: AABB)
        ensures
            r == aabb_union(*box0, *box1),
            aabb_contains(r, *box0),
            aabb_contains(r, *box1),
    {
        AABB {
            x: Interval::new_by_interval(box0.x, box1.x),
            y: Interval::new_by_interval(box0.y, box1.y),
            z: Interval::new_by_interval(box0.z, box1.z),
        }
    }

    /// Select an axis range: 1 is y, 2 is z, anything else is x.
    pub fn axis_interval(&self, n: i32) -> (r: Interval)
        ensures
            n == 1 ==> r == self.y,
            n == 2 ==> r == self.z,
            n != 1 && n != 2 ==> r == self.x,
    {
        if n == 1 {
            self.y
        } else if n == 2 {
            self.z
        } else {
            self.x
        }
    }

    /// The slab test.  Narrows `ray_t` axis by axis and reports whether a
    /// non-empty parameter range is left.
    pub fn hit(&self, ray: &Ray, ray_t: &mut Interval) -> (res: bool)
        requires
            aabb_wf(*self),
            ray_wf(*ray),
            ivl_wf(*old(ray_t)),
        ensures
            res == aabb_hit_spec(*self, *ray, *old(ray_t)),
            *final(ray_t) == slab_final(*self, *ray, *old(ray_t)),
            ivl_wf(*final(ray_t)),
    {
        let cur = axis_update(self.x, ray.orig.x, ray.dir.x, *ray_t);
        *ray_t = cur;
        if ray_t.max <= ray_t.min {
            return false;
        }
        let cur = axis_update(self.y, ray.orig.y, ray.dir.y, *ray_t);
        *ray_t = cur;
        if ray_t.max <= ray_t.min {
            return false;
        }
        let cur = axis_update(self.z, ray.orig.z, ray.dir.z, *ray_t);
        *ray_t = cur;
        if ray_t.max <= ray_t.min {
            return false;
        }
        true
    }

    /// The index of the widest axis; exact ties prefer the later
    /// comparison's left operand, as the comparison chain dictates.
    pub fn longest_axis(&self) -> (r: i32)
        requires
            aabb_wf(*self),
        ensures
            r == aabb_longest_axis(*self),
    {
        if self.x.size() < self.y.size() {
            if self.y.size() < self.z.size() {
                2
            } else {
                1
            }
        } else {
            if self.x.size() < self.z.size() {
                2
            } else {
                0
            }
        }
    }
}

/// Which axis is widest: compare x with y, then the winner with z.
pub open spec fn aabb_longest_axis(b: AABB) -> i32 {
    if b.x.max - b.x.min < b.y.max - b.y.min {
        if b.y.max - b.y.min < b.z.max - b.z.min {
            2
        } else {
            1
        }
    } else {
        if b.x.max - b.x.min < b.z.max - b.z.min {
            2
        } else {
            0
        }
    }
}

impl Default for AABB {
    /// The default box spans the whole representable band.
    fn default() -> (r: AABB)
        ensures
            r.x.min == -FX_MAX && r.x.max == FX_MAX,
            r.y.min == -FX_MAX && r.y.max == FX_MAX,
            r.z.min == -FX_MAX && r.z.max == FX_MAX,
            aabb_wf(r),
            aabb_proper(r),
    {
        AABB { x: Interval::default(), y: Interval::default(), z: Interval::default() }
    }
}

/// One exec step of the slab test.
fn axis_update(iv: Interval, o: i64, d: i64, cur: Interval) -> (r: Interval)
    requires
        ivl_wf(iv),
        fits(o as int),
        fits(d as int),
        ivl_wf(cur),
    ensures
        r == slab_axis(iv, o as int, d as int, cur),
        ivl_wf(r),
{
    if d == 0 {
        if iv.min <= o && o <= iv.max {
            cur
        } else {
            Interval { min: cur.min, max: cur.min }
        }
    } else {
        proof {
            lemma_mul_by_scale_bounded(iv.min - o);
            lemma_mul_by_scale_bounded(iv.max - o);
        }
        let n0: i128 = (iv.min as i128 - o as i128) * (FX_ONE as i128);
        let n1: i128 = (iv.max as i128 - o as i128) * (FX_ONE as i128);
        let t0 = fx_clamp_i128(i128_tdiv(n0, d as i128));
        let t1 = fx_clamp_i128(i128_tdiv(n1, d as i128));
        let lo = if t0 < t1 {
            t0
        } else {
            t1
        };
        let hi = if t0 < t1 {
            t1
        } else {
            t0
        };
        Interval {
            min: if lo > cur.min {
                lo
            } else {
                cur.min
            },
            max: if hi < cur.max {
                hi
            } else {
                cur.max
            },
        }
    }
}

/// A difference of in-band scalars, widened by the scale, stays well
/// inside an `i128`.
proof fn lemma_mul_by_scale_bounded(w: int)
    requires
        -0x80000001 <= w <= 0x80000001,
    ensures
        -0x800010000000000 <= w * (FX_ONE as int) <= 0x800010000000000,
{
    assert(-0x800010000000000 <= w * (FX_ONE as int) <= 0x800010000000000) by (nonlinear_arith)
        requires
            -0x80000001 <= w <= 0x80000001,
            FX_ONE as int == 65536,
    ;
}

/// One axis of the slab test is monotone: a wider box and a wider search
/// range can only widen a still-alive parameter range.
proof fn lemma_slab_axis_mono(
    ivs: Interval,
    ivb: Interval,
    o: int,
    d: int,
    cs: Interval,
    cb: Interval,
)
    requires
        ivs.min <= ivs.max,
        ivb.min <= ivs.min,
        ivs.max <= ivb.max,
        cb.min <= cs.min,
        cs.max <= cb.max,
    ensures
        slab_axis(ivs, o, d, cs).max > slab_axis(ivs, o, d, cs).min ==> {
            &&& slab_axis(ivb, o, d, cb).min <= slab_axis(ivs, o, d, cs).min
            &&& slab_axis(ivs, o, d, cs).max <= slab_axis(ivb, o, d, cb).max
        },
{
    if d != 0 {
        lemma_tdiv_mono_signed((ivb.min - o) * (FX_ONE as int), (ivs.min - o) * (FX_ONE as int), d);
        lemma_tdiv_mono_signed((ivs.min - o) * (FX_ONE as int), (ivs.max - o) * (FX_ONE as int), d);
        lemma_tdiv_mono_signed((ivs.max - o) * (FX_ONE as int), (ivb.max - o) * (FX_ONE as int), d);
    }
}

/// The whole slab test is monotone: if a ray meets a box inside some
/// search range, it also meets any enclosing box inside any wider range.
pub proof fn lemma_slab_mono(bs: AABB, bb: AABB, r: Ray, cs: Interval, cb: Interval)
    requires
        aabb_proper(bs),
        aabb_proper(bb),
        aabb_contains(bb, bs),
        cb.min <= cs.min,
        cs.max <= cb.max,
    ensures
        aabb_hit_spec(bs, r, cs) ==> aabb_hit_spec(bb, r, cb),
{
    if aabb_hit_spec(bs, r, cs) {
        lemma_slab_axis_mono(bs.x, bb.x, r.orig.x as int, r.dir.x as int, cs, cb);
        lemma_slab_axis_mono(
            bs.y,
            bb.y,
            r.orig.y as int,
            r.dir.y as int,
            slab1(bs, r, cs),
            slab1(bb, r, cb),
        );
        lemma_slab_axis_mono(
            bs.z,
            bb.z,
            r.orig.z as int,
            r.dir.z as int,
            slab2(bs, r, cs),
            slab2(bb, r, cb),
        );
    }
}

/// The padding invariant: an axis that ran forward still runs forward
/// after padding, so its size is never negative; and away from the band
/// edge a padded thin axis reaches the full thickness floor.
pub proof fn lemma_pad_floor(i: Interval)
    requires
        ivl_wf(i),
        i.min <= i.max,
    ensures
        pad_ivl(i).min <= pad_ivl(i).max,
        pad_ivl(i).max - pad_ivl(i).min >= 0,
        fits(i.min - PAD / 2) && fits(i.max + (PAD - PAD / 2)) ==> pad_ivl(i).max - pad_ivl(i).min
            >= PAD,
{
}

/// The box union encloses both arguments and is the tightest such box:
/// any box that encloses both also encloses the union.
pub proof fn lemma_aabb_union_tight(b0: AABB, b1: AABB, c: AABB)
    requires
        aabb_contains(c, b0),
        aabb_contains(c, b1),
    ensures
        aabb_contains(aabb_union(b0, b1), b0),
        aabb_contains(aabb_union(b0, b1), b1),
        aabb_contains(c, aabb_union(b0, b1)),
{
}

} // verus!

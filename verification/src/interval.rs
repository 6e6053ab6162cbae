//! Closed numeric ranges over fixed-point scalars.
//!
//! An interval is used both as a ray-parameter bound and as a colour clamp.
//! `empty` is deliberately inverted (`min > max`) and `universe` spans the
//! whole representable band.

use vstd::prelude::*;

use crate::fx::{fits, sat, FX_MAX};

verus! {

#[derive(Clone, Copy, Debug, PartialEq, Eq, Structural)]
pub struct Interval {
    pub min: i64,
    pub max: i64,
}

/// Both endpoints lie in the representable band.
pub open spec fn ivl_wf(i: Interval) -> bool {
    fits(i.min as int) && fits(i.max as int)
}

/// A proper (non-empty) interval.
pub open spec fn ivl_proper(i: Interval) -> bool {
    i.min <= i.max
}

/// The interval `expand` yields: half the margin on each side, with the
/// odd raw unit going to the upper end so the size grows by exactly `d`.
pub open spec fn ivl_expand(i: Interval, d: int) -> Interval {
    Interval { min: sat(i.min - d / 2) as i64, max: sat(i.max + (d - d / 2)) as i64 }
}

/// The interval with the given endpoints (which must be in band).
pub open spec fn ivl2(min: int, max: int) -> Interval {
    Interval { min: min as i64, max: max as i64 }
}

/// The tight union of two intervals.
pub open spec fn ivl_union(a: Interval, b: Interval) -> Interval {
    Interval {
        min: if a.min <= b.min { a.min } else { b.min },
        max: if a.max >= b.max { a.max } else { b.max },
    }
}

impl Interval {
    /// The inverted range that contains nothing.
    pub fn empty() -> (r: Interval)
        ensures
            r.min == FX_MAX,
            r.max == -FX_MAX,
            ivl_wf(r),
    {
        Interval { min: FX_MAX, max: -FX_MAX }
    }

    /// The range that contains every representable scalar.
    pub fn universe() -> (r: Interval)
        ensures
            r.min == -FX_MAX,
            r.max == FX_MAX,
            ivl_wf(r),
    {
        Interval { min: -FX_MAX, max: FX_MAX }
    }

    pub fn new(min: i64, max: i64) -> (r: Interval)
        requires
            fits(min as int),
            fits(max as int),
        ensures
            r.min == min,
            r.max == max,
            ivl_wf(r),
    {
        Interval { min, max }
    }

    /// Inclusive membership.
    pub fn contains(&self, x: i64) -> (r: bool)
        ensures
            r == (self.min <= x && x <= self.max),
    {
        self.min <= x && x <= self.max
    }

    /// Strict membership, used to reject self-intersections at the boundary.
    pub fn surrounds(&self, x: i64) -> (r: bool)
        ensures
            r == (self.min < x && x < self.max),
    {
        self.min < x && x < self.max
    }

    /// Clamp a scalar into the range.
    pub fn clamp(&self, x: i64) -> (r: i64)
        ensures
            r == (if x < self.min {
                self.min
            } else if x > self.max {
                self.max
            } else {
                x
            }),
    {
        if x < self.min {
            self.min
        } else if x > self.max {
            self.max
        } else {
            x
        }
    }

    /// Widen the range so its size grows by `delta` (up to saturation).
    pub fn expand(&self, delta: i64) -> (r: Interval)
        requires
            ivl_wf(*self),
            0 <= delta,
            fits(delta as int),
        ensures
            r == ivl_expand(*self, delta as int),
            ivl_wf(r),
    {
        let half = delta / 2;
        let min = self.min - half;
        let max = self.max + (delta - half);
        let min = if min < -FX_MAX {
            -FX_MAX
        } else {
            min
        };
        let max = if max > FX_MAX {
            FX_MAX
        } else {
            max
        };
        Interval { min, max }
    }

    /// The tight union of two ranges.
    pub fn new_by_interval(a: Interval, b: Interval) -> (r: Interval)
        ensures
            r == ivl_union(a, b),
    {
        Interval {
            min: if a.min <= b.min {
                a.min
            } else {
                b.min
            },
            max: if a.max >= b.max {
                a.max
            } else {
                b.max
            },
        }
    }

    /// Signed width; negative exactly when the range is inverted.
    pub fn size(&self) -> (r: i64)
        requires
            ivl_wf(*self),
        ensures
            r as int == self.max - self.min,
    {
        self.max - self.min
    }
}

impl Default for Interval {
    /// The default range is the whole representable band.
    fn default() -> (r: Interval)
        ensures
            r.min == -FX_MAX,
            r.max == FX_MAX,
            ivl_wf(r),
    {
        Interval { min: -FX_MAX, max: FX_MAX }
    }
}

/// Widening a proper range by `delta` grows its size by exactly `delta`,
/// whenever neither end saturates.
pub proof fn lemma_expand_size(i: Interval, d: int)
    requires
        ivl_wf(i),
        0 <= d,
        fits(i.min - d / 2),
        fits(i.max + (d - d / 2)),
    ensures
        ivl_expand(i, d).max - ivl_expand(i, d).min == (i.max - i.min) + d,
{
}

/// The union contains both of its arguments and nothing narrower does.
pub proof fn lemma_union_tight(a: Interval, b: Interval, c: Interval)
    requires
        c.min <= a.min && a.max <= c.max,
        c.min <= b.min && b.max <= c.max,
    ensures
        ivl_union(a, b).min <= a.min && a.max <= ivl_union(a, b).max,
        ivl_union(a, b).min <= b.min && b.max <= ivl_union(a, b).max,
        c.min <= ivl_union(a, b).min && ivl_union(a, b).max <= c.max,
{
}

} // verus!

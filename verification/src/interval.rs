//! Closed scalar ranges, used for intersection-parameter bounds and for
//! color clamping.
//!
//! `min <= max` is not enforced: an inverted interval is the valid
//! "empty" sentinel, and the widest representable interval stands in for
//! the real line.

use vstd::prelude::*;

verus! {

use crate::fixed::fx_sub_s;

#[derive(Clone, Copy, PartialEq, Eq, Structural, Debug)]
pub struct Interval {
    pub min: i64,
    pub max: i64,
}

/// Whether `x` lies in the closed interval.
pub open spec fn contains_s(i: Interval, x: int) -> bool {
    i.min as int <= x <= i.max as int
}

/// Whether `x` lies strictly inside the interval.
pub open spec fn surrounds_s(i: Interval, x: int) -> bool {
    (i.min as int) < x && x < (i.max as int)
}

/// `x` forced into the interval.
pub open spec fn clamp_s(i: Interval, x: int) -> int {
    if x < i.min as int {
        i.min as int
    } else if x > i.max as int {
        i.max as int
    } else {
        x
    }
}

impl Interval {
    /// The empty interval, the identity for intersection-parameter
    /// narrowing: its bounds are the saturated extremes, inverted.
    pub fn new() -> (r: Interval)
        ensures
            r == (Interval { min: i64::MAX, max: i64::MIN }),
    {
        Interval { min: i64::MAX, max: i64::MIN }
    }

    /// The interval with the given bounds.
    pub fn from_range(min: i64, max: i64) -> (r: Interval)
        ensures
            r == (Interval { min, max }),
    {
        Interval { min, max }
    }

    /// The interval covering every representable scalar.
    pub fn universe() -> (r: Interval)
        ensures
            r == (Interval { min: i64::MIN, max: i64::MAX }),
    {
        Interval { min: i64::MIN, max: i64::MAX }
    }

    /// The saturating width; negative exactly when the interval is
    /// inverted (empty).
    pub fn size(&self) -> (r: i64)
        ensures
            r as int == fx_sub_s(self.max as int, self.min as int),
    {
        crate::fixed::fx_sub(self.max, self.min)
    }

    /// Whether `x` lies in the closed interval.
    pub fn contains(&self, x: i64) -> (r: bool)
        ensures
            r == contains_s(*self, x as int),
    {
        self.min <= x && x <= self.max
    }

    /// Whether `x` lies strictly inside the interval; intersection
    /// acceptance uses this to exclude the boundary parameters.
    pub fn surrounds(&self, x: i64) -> (r: bool)
        ensures
            r == surrounds_s(*self, x as int),
    {
        self.min < x && x < self.max
    }

    /// `x` forced into the interval.
    pub fn clamp(&self, x: i64) -> (r: i64)
        ensures
            r as int == clamp_s(*self, x as int),
    {
        if x < self.min {
            self.min
        } else if x > self.max {
            self.max
        } else {
            x
        }
    }
}

impl Default for Interval {
    /// The empty interval, as `new` yields it.
    fn default() -> (r: Interval)
        ensures
            r == (Interval { min: i64::MAX, max: i64::MIN }),
    {
        Interval::new()
    }
}

} // verus!

//! Closed numeric ranges over fixed-point values.
//!
//! An interval bounds the acceptable ray parameters of an intersection
//! search; `surrounds` (strict on both ends) is the acceptance test for
//! roots, and `clamp` projects a value into the range.

use vstd::prelude::*;

verus! {

/// A numeric range `[min, max]` of raw fixed-point values.
#[derive(Clone, Copy, PartialEq, Eq, Structural, Debug)]
pub struct Interval {
    pub min: i64,
    pub max: i64,
}

impl Default for Interval {
    /// The empty interval: no value is contained.
    fn default() -> (r: Self)
        ensures
            r.min == i64::MAX,
            r.max == i64::MIN,
    {
        Interval { min: i64::MAX, max: i64::MIN }
    }
}

impl Interval {
    /// `x` lies in the closed range.
    pub open spec fn contains_spec(self, x: int) -> bool {
        self.min <= x <= self.max
    }

    /// `x` lies strictly inside the range.
    pub open spec fn surrounds_spec(self, x: int) -> bool {
        self.min < x < self.max
    }

    /// `x` projected into the range.
    pub open spec fn clamp_spec(self, x: int) -> int {
        if x < self.min {
            self.min as int
        } else if x > self.max {
            self.max as int
        } else {
            x
        }
    }

    pub fn new(min: i64, max: i64) -> (r: Self)
        ensures
            r.min == min,
            r.max == max,
    {
        Interval { min, max }
    }

    pub fn contains(&self, x: i64) -> (r: bool)
        ensures
            r == self.contains_spec(x as int),
    {
        self.min <= x && self.max >= x
    }

    pub fn surrounds(&self, x: i64) -> (r: bool)
        ensures
            r == self.surrounds_spec(x as int),
    {
        self.min < x && self.max > x
    }

    pub fn clamp(&self, x: i64) -> (r: i64)
        ensures
            r == self.clamp_spec(x as int),
    {
        if x < self.min {
            return self.min;
        }
        if x > self.max {
            return self.max;
        }
        x
    }
}

} // verus!

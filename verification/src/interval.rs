//! Ranges of scalars.

use crate::scalar::Scalar;
use vstd::prelude::*;

verus! {

/// The range from `min` to `max`. It is empty where `max` is below `min`.
#[derive(Clone, Copy, Debug, PartialEq, Eq, Structural)]
pub struct Interval {
    pub min: Scalar,
    pub max: Scalar,
}

impl Interval {
    /// The range from `min` to `max`.
    pub fn new(min: Scalar, max: Scalar) -> (r: Interval)
        ensures
            r == (Interval { min, max }),
    {
        Interval { min, max }
    }

    /// The lower end.
    pub fn min(&self) -> (r: Scalar)
        ensures
            r == self.min,
    {
        self.min
    }

    /// The upper end.
    pub fn max(&self) -> (r: Scalar)
        ensures
            r == self.max,
    {
        self.max
    }

    /// The upper end less the lower end.
    pub fn size(&self) -> (r: Scalar)
        ensures
            r == self.max.spec_sub(self.min),
    {
        self.max.sub(self.min)
    }

    /// Whether `x` lies in the range, ends included.
    pub open spec fn spec_inclusive_contains(self, x: Scalar) -> bool {
        self.min@ <= x@ <= self.max@
    }

    /// Whether `x` lies in the range, ends included.
    pub fn inclusive_contains(&self, x: Scalar) -> (r: bool)
        ensures
            r == self.spec_inclusive_contains(x),
    {
        self.min.le(x) && x.le(self.max)
    }

    /// Whether `x` lies strictly between the ends.
    pub open spec fn spec_exclusive_contains(self, x: Scalar) -> bool {
        self.min@ < x@ < self.max@
    }

    /// Whether `x` lies strictly between the ends.
    pub fn exclusive_contains(&self, x: Scalar) -> (r: bool)
        ensures
            r == self.spec_exclusive_contains(x),
    {
        self.min.lt(x) && x.lt(self.max)
    }

    /// The value of the range nearest to `x`: the lower end for an `x`
    /// below it, else the upper end for an `x` above it, else `x`.
    pub open spec fn spec_clamp(self, x: Scalar) -> Scalar {
        if x@ < self.min@ {
            self.min
        } else if x@ > self.max@ {
            self.max
        } else {
            x
        }
    }

    /// The value of the range nearest to `x`.
    pub fn clamp(&self, x: Scalar) -> (r: Scalar)
        ensures
            r == self.spec_clamp(x),
            self.min@ <= self.max@ ==> self.spec_inclusive_contains(r),
    {
        if x.lt(self.min) {
            self.min
        } else if self.max.lt(x) {
            self.max
        } else {
            x
        }
    }

    /// The same range with its upper end moved to `max`.
    pub open spec fn spec_up_to(self, max: Scalar) -> Interval {
        Interval { min: self.min, max }
    }
}

} // verus!

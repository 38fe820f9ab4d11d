//! Rays: half-lines through the scene.

use crate::scalar::Scalar;
use crate::vec3::{Point3, Vec3};
use vstd::prelude::*;

verus! {

/// The points `origin + t * direction`. The direction need not have
/// length one.
#[derive(Clone, Copy, Debug, PartialEq, Eq, Structural)]
pub struct Ray {
    pub origin: Point3,
    pub direction: Vec3,
}

impl Ray {
    /// The ray from `origin` along `direction`.
    pub fn new(origin: Point3, direction: Vec3) -> (r: Ray)
        ensures
            r == (Ray { origin, direction }),
    {
        Ray { origin, direction }
    }

    /// The point at parameter `t`.
    pub open spec fn spec_at(self, t: Scalar) -> Point3 {
        self.origin.spec_add(self.direction.spec_mul(t))
    }

    /// The point at parameter `t`.
    pub fn at(&self, t: Scalar) -> (r: Point3)
        ensures
            r == self.spec_at(t),
    {
        self.origin.add(self.direction.mul(t))
    }

    /// Where the ray starts.
    pub fn origin(&self) -> (r: Point3)
        ensures
            r == self.origin,
    {
        self.origin
    }

    /// The way the ray points.
    pub fn direction(&self) -> (r: Vec3)
        ensures
            r == self.direction,
    {
        self.direction
    }
}

} // verus!

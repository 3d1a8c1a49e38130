//! Rays: an origin with a direction, evaluated at a scalar parameter.
//!
//! The direction is not required to be unit length; intersection code
//! accounts for its scale through the quadratic coefficients.

use vstd::prelude::*;

verus! {

use crate::vec3::{Vec3, Point3, vadd_s, vscale_s};

#[derive(Clone, Copy, PartialEq, Eq, Structural, Debug)]
pub struct Ray {
    pub origin: Point3,
    pub direction: Vec3,
}

/// The point the ray reaches at parameter `t`.
pub open spec fn ray_at_s(r: Ray, t: int) -> Vec3 {
    vadd_s(r.origin, vscale_s(r.direction, t))
}

impl Ray {
    /// The degenerate ray at the origin.
    pub fn new() -> (r: Ray)
        ensures
            r.origin == (Vec3 { x: 0, y: 0, z: 0 }),
            r.direction == (Vec3 { x: 0, y: 0, z: 0 }),
    {
        Ray {
            origin: Vec3 { x: 0, y: 0, z: 0 },
            direction: Vec3 { x: 0, y: 0, z: 0 },
        }
    }

    /// The ray with the given origin and direction.
    pub fn from_origin_direction(origin: Point3, direction: Vec3) -> (r: Ray)
        ensures
            r.origin == origin,
            r.direction == direction,
    {
        Ray { origin, direction }
    }

    /// The origin.
    pub fn origin(&self) -> (r: &Point3)
        ensures
            *r == self.origin,
    {
        &self.origin
    }

    /// The direction.
    pub fn direction(&self) -> (r: &Vec3)
        ensures
            *r == self.direction,
    {
        &self.direction
    }

    /// The point the ray reaches at parameter `t`.
    pub fn at(&self, t: i64) -> (r: Point3)
        ensures
            r == ray_at_s(*self, t as int),
    {
        self.origin.add(&self.direction.scale(t))
    }
}

impl Default for Ray {
    /// The degenerate ray at the origin, as `new` yields it.
    fn default() -> (r: Ray)
        ensures
            r.origin == (Vec3 { x: 0, y: 0, z: 0 }),
            r.direction == (Vec3 { x: 0, y: 0, z: 0 }),
    {
        Ray::new()
    }
}

} // verus!

//! The result of an intersection query: hit point, oriented unit normal,
//! ray parameter, and the index of the struck material in the scene's
//! material arena.

use vstd::prelude::*;

verus! {

use crate::vec3::{Vec3, Point3, dot, dot_s, vneg_s};
use crate::ray::Ray;

#[derive(Clone, Copy, Debug)]
pub struct HitRecord {
    pub p: Point3,
    pub normal: Vec3,
    pub mat: Option<usize>,
    pub t: i64,
    pub front_face: bool,
}

/// The outward normal, flipped when the incoming ray strikes the surface
/// from inside, so that the stored normal always opposes the ray.
pub open spec fn oriented_normal_s(r: Ray, outward: Vec3) -> Vec3 {
    if dot_s(r.direction, outward) < 0 {
        outward
    } else {
        vneg_s(outward)
    }
}

impl HitRecord {
    /// A blank record, overwritten by the first accepted intersection.
    pub fn new() -> (r: HitRecord)
        ensures
            r.p == (Vec3 { x: 0, y: 0, z: 0 }),
            r.normal == (Vec3 { x: 0, y: 0, z: 0 }),
            r.mat is None,
            r.t == 0,
            r.front_face == false,
    {
        HitRecord {
            p: Vec3 { x: 0, y: 0, z: 0 },
            normal: Vec3 { x: 0, y: 0, z: 0 },
            mat: None,
            t: 0,
            front_face: false,
        }
    }

    /// Record which side the ray struck and store the normal oriented
    /// against it.
    pub fn set_face_normal(&mut self, ray: &Ray, outward_normal: &Vec3)
        ensures
            final(self).front_face == (dot_s(ray.direction, *outward_normal) < 0),
            final(self).normal == oriented_normal_s(*ray, *outward_normal),
            final(self).p == old(self).p,
            final(self).mat == old(self).mat,
            final(self).t == old(self).t,
    {
        let d = dot(ray.direction(), outward_normal);
        self.front_face = d < 0;
        self.normal = if self.front_face {
            *outward_normal
        } else {
            outward_normal.neg()
        };
    }
}

} // verus!

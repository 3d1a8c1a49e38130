//! An aggregate of primitives answering intersection queries by
//! exhaustive scan: the reference against which the bounding-volume
//! hierarchy is compared.

use vstd::prelude::*;

verus! {

use crate::sphere::{Sphere, sphere_hit_t_s, sphere_hit_record_s, sphere_box_s};
use crate::ray::Ray;
use crate::interval::Interval;
use crate::hittable::HitRecord;
use crate::aabb::{AABB, union_s};

#[derive(Clone, Debug)]
pub struct HittableList {
    pub objects: Vec<Sphere>,
}

/// The scan state after the first `n` objects: the winning index and
/// parameter, if any object was struck. Each object is queried over the
/// interval narrowed to the closest parameter found so far, so a later
/// object wins only by being strictly closer.
pub open spec fn scan_hit_upto_s(spheres: Seq<Sphere>, r: Ray, ray_t: Interval, n: int) -> Option<(int, int)>
    decreases n,
{
    if n <= 0 {
        None
    } else {
        let prev = scan_hit_upto_s(spheres, r, ray_t, n - 1);
        let ub = if prev is Some {
            (prev->0).1
        } else {
            ray_t.max as int
        };
        match sphere_hit_t_s(spheres[n - 1], r, Interval { min: ray_t.min, max: ub as i64 }) {
            Some(t) => Some((n - 1, t)),
            None => prev,
        }
    }
}

/// The nearest hit over the whole list.
pub open spec fn scan_hit_s(spheres: Seq<Sphere>, r: Ray, ray_t: Interval) -> Option<(int, int)> {
    scan_hit_upto_s(spheres, r, ray_t, spheres.len() as int)
}

/// The union of the objects' boxes after the first `n`, starting from
/// the empty box.
pub open spec fn list_box_upto_s(spheres: Seq<Sphere>, n: int) -> AABB
    decreases n,
{
    if n <= 0 {
        AABB {
            min: crate::vec3::Vec3 { x: i64::MAX, y: i64::MAX, z: i64::MAX },
            max: crate::vec3::Vec3 { x: i64::MIN, y: i64::MIN, z: i64::MIN },
        }
    } else {
        union_s(list_box_upto_s(spheres, n - 1), sphere_box_s(spheres[n - 1]))
    }
}

/// What the exhaustive scan reports is the nearest accepted intersection
/// over the prefix: sound (the winner is a real hit of a listed object,
/// inside the interval) and complete (no listed object hits strictly
/// closer; a miss means no listed object hits at all).
pub proof fn lemma_scan_nearest(spheres: Seq<Sphere>, r: Ray, ray_t: Interval, n: int)
    requires
        0 <= n <= spheres.len(),
    ensures
        match scan_hit_upto_s(spheres, r, ray_t, n) {
            Some(it) => {
                &&& 0 <= it.0 < n
                &&& sphere_hit_t_s(spheres[it.0], r, ray_t) == Some(it.1)
                &&& crate::interval::surrounds_s(ray_t, it.1)
                &&& forall|j: int|
                    0 <= j < n && #[trigger] sphere_hit_t_s(spheres[j], r, ray_t) is Some
                        ==> it.1 <= sphere_hit_t_s(spheres[j], r, ray_t)->0
            },
            None => forall|j: int|
                0 <= j < n ==> #[trigger] sphere_hit_t_s(spheres[j], r, ray_t) is None,
        },
    decreases n,
{
    if n > 0 {
        lemma_scan_nearest(spheres, r, ray_t, n - 1);
        let prev = scan_hit_upto_s(spheres, r, ray_t, n - 1);
        let ub = if prev is Some {
            (prev->0).1
        } else {
            ray_t.max as int
        };
        let small = Interval { min: ray_t.min, max: ub as i64 };
        if prev is Some {
            assert(crate::interval::surrounds_s(ray_t, (prev->0).1));
        }
        crate::sphere::lemma_sphere_interval_shrink(
            spheres[n - 1], r, ray_t.min, small.max, ray_t.max);
        match scan_hit_upto_s(spheres, r, ray_t, n) {
            Some(it) => {
                assert forall|j: int|
                    0 <= j < n && #[trigger] sphere_hit_t_s(spheres[j], r, ray_t) is Some
                        implies it.1 <= sphere_hit_t_s(spheres[j], r, ray_t)->0 by {
                    if j == n - 1 {
                        crate::sphere::lemma_sphere_interval_shrink(
                            spheres[j], r, ray_t.min, small.max, ray_t.max);
                    }
                }
            },
            None => {
            },
        }
    }
}

impl HittableList {
    /// An empty aggregate.
    pub fn new() -> (r: HittableList)
        ensures
            r.objects@ == Seq::<Sphere>::empty(),
    {
        HittableList { objects: Vec::new() }
    }

    /// The aggregate holding a single object.
    pub fn from_object(object: Sphere) -> (r: HittableList)
        ensures
            r.objects@ == seq![object],
    {
        let mut list = HittableList::new();
        list.add(object);
        proof {
            assert(list.objects@ =~= seq![object]);
        }
        list
    }

    /// Append an object.
    pub fn add(&mut self, object: Sphere)
        ensures
            final(self).objects@ == old(self).objects@.push(object),
    {
        self.objects.push(object);
    }

    /// Drop every object.
    pub fn clear(&mut self)
        ensures
            final(self).objects@ == Seq::<Sphere>::empty(),
    {
        self.objects.clear();
    }

    /// The nearest intersection strictly inside `ray_t`, by scanning
    /// every object and narrowing the interval to each accepted
    /// parameter.
    pub fn hit(&self, ray: &Ray, ray_t: Interval, rec: &mut HitRecord) -> (r: bool)
        ensures
            r == scan_hit_s(self.objects@, *ray, ray_t) is Some,
            r ==> *final(rec) == sphere_hit_record_s(
                self.objects@[(scan_hit_s(self.objects@, *ray, ray_t)->0).0],
                *ray,
                (scan_hit_s(self.objects@, *ray, ray_t)->0).1,
            ),
            !r ==> *final(rec) == *old(rec),
    {
        let mut temp_rec = HitRecord::new();
        let mut best_rec = HitRecord::new();
        let mut hit_anything = false;
        let mut closest_so_far = ray_t.max;
        let mut i: usize = 0;

        while i < self.objects.len()
            invariant
                0 <= i <= self.objects@.len(),
                hit_anything == scan_hit_upto_s(self.objects@, *ray, ray_t, i as int) is Some,
                hit_anything ==> {
                    let win = scan_hit_upto_s(self.objects@, *ray, ray_t, i as int)->0;
                    closest_so_far as int == win.1
                        && best_rec == sphere_hit_record_s(self.objects@[win.0], *ray, win.1)
                },
                !hit_anything ==> closest_so_far == ray_t.max,
            decreases self.objects@.len() - i,
        {
            let obj = self.objects[i];
            if obj.hit(ray, Interval::from_range(ray_t.min, closest_so_far), &mut temp_rec) {
                hit_anything = true;
                closest_so_far = temp_rec.t;
                best_rec = temp_rec;
            }
            i = i + 1;
        }

        if hit_anything {
            *rec = best_rec;
        }
        hit_anything
    }

    /// The union of every object's bounding box (the empty box for an
    /// empty list).
    pub fn bounding_box(&self) -> (r: AABB)
        ensures
            r == list_box_upto_s(self.objects@, self.objects@.len() as int),
    {
        let mut output_box = AABB::new();
        let mut i: usize = 0;
        while i < self.objects.len()
            invariant
                0 <= i <= self.objects@.len(),
                output_box == list_box_upto_s(self.objects@, i as int),
            decreases self.objects@.len() - i,
        {
            let b = self.objects[i].bounding_box();
            output_box = AABB::from_boxes(&output_box, &b);
            i = i + 1;
        }
        output_box
    }
}

} // verus!

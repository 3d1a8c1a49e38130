//! The sphere primitive: analytic ray intersection, normal computation,
//! and bounding box.

use vstd::prelude::*;

verus! {

use crate::fixed::{fx_sub, fx_mul, fx_div, fx_sqrt, fx_add};
use crate::fixed::{fx_add_s, fx_sub_s, fx_mul_s, fx_div_s, fx_sqrt_s};
use crate::vec3::{Vec3, Point3, vsub_s, vdiv_s, dot_s, len_sq_s, dot};
use crate::ray::{Ray, ray_at_s};
use crate::interval::{Interval, surrounds_s};
use crate::hittable::{HitRecord, oriented_normal_s};
use crate::aabb::{AABB, union_s};

#[derive(Clone, Copy, PartialEq, Eq, Structural, Debug)]
pub struct Sphere {
    pub center: Point3,
    pub radius: i64,
    pub mat: usize,
}

/// The box spanned by the sphere's two extreme corners.
pub open spec fn sphere_box_s(s: Sphere) -> AABB {
    let rvec = Vec3 { x: s.radius, y: s.radius, z: s.radius };
    let a = vsub_s(s.center, rvec);
    let b = crate::vec3::vadd_s(s.center, rvec);
    union_s(AABB { min: a, max: a }, AABB { min: b, max: b })
}

/// The accepted intersection parameter, if any: the nearer quadratic
/// root strictly inside the query interval, else the farther one, else
/// nothing. All coefficients are the saturating fixed-point values the
/// executable code computes.
pub open spec fn sphere_hit_t_s(s: Sphere, r: Ray, ray_t: Interval) -> Option<int> {
    let oc = vsub_s(s.center, r.origin);
    let a = len_sq_s(r.direction);
    let h = dot_s(r.direction, oc);
    let c = fx_sub_s(len_sq_s(oc), fx_mul_s(s.radius as int, s.radius as int));
    let disc = fx_sub_s(fx_mul_s(h, h), fx_mul_s(a, c));
    if disc < 0 {
        None
    } else {
        let sq = fx_sqrt_s(disc);
        let root1 = fx_div_s(fx_sub_s(h, sq), a);
        if surrounds_s(ray_t, root1) {
            Some(root1)
        } else {
            let root2 = fx_div_s(fx_add_s(h, sq), a);
            if surrounds_s(ray_t, root2) {
                Some(root2)
            } else {
                None
            }
        }
    }
}

/// The record an accepted intersection at parameter `t` fills in.
pub open spec fn sphere_hit_record_s(s: Sphere, r: Ray, t: int) -> HitRecord {
    let p = ray_at_s(r, t);
    let outward = vdiv_s(vsub_s(p, s.center), s.radius as int);
    HitRecord {
        p,
        normal: oriented_normal_s(r, outward),
        mat: Some(s.mat),
        t: t as i64,
        front_face: dot_s(r.direction, outward) < 0,
    }
}

/// How the accepted parameter changes when only the upper bound of the
/// query interval moves: a hit strictly below the smaller bound is kept
/// unchanged, anything else becomes a miss. (The roots themselves do not
/// depend on the interval, and the nearer root never exceeds the
/// farther.)
pub proof fn lemma_sphere_interval_shrink(s: Sphere, r: Ray, lo: i64, u_small: i64, u_big: i64)
    requires
        u_small <= u_big,
    ensures
        sphere_hit_t_s(s, r, Interval { min: lo, max: u_big }) is None
            ==> sphere_hit_t_s(s, r, Interval { min: lo, max: u_small }) is None,
        sphere_hit_t_s(s, r, Interval { min: lo, max: u_big }) matches Some(t) && t < u_small as int
            ==> sphere_hit_t_s(s, r, Interval { min: lo, max: u_small })
                == sphere_hit_t_s(s, r, Interval { min: lo, max: u_big }),
        sphere_hit_t_s(s, r, Interval { min: lo, max: u_big }) matches Some(t) && t >= u_small as int
            ==> sphere_hit_t_s(s, r, Interval { min: lo, max: u_small }) is None,
{
    let oc = vsub_s(s.center, r.origin);
    let a = len_sq_s(r.direction);
    let h = dot_s(r.direction, oc);
    let c = fx_sub_s(len_sq_s(oc), fx_mul_s(s.radius as int, s.radius as int));
    let disc = fx_sub_s(fx_mul_s(h, h), fx_mul_s(a, c));
    if disc >= 0 {
        let sq = fx_sqrt_s(disc);
        crate::fixed::lemma_fx_sqrt_nonneg(disc);
        crate::vec3::lemma_len_sq_nonneg(r.direction);
        crate::fixed::lemma_fx_div_mono(fx_sub_s(h, sq), fx_add_s(h, sq), a);
        let root1 = fx_div_s(fx_sub_s(h, sq), a);
        let root2 = fx_div_s(fx_add_s(h, sq), a);
        assert(root1 <= root2);
    }
}

/// A ray fired from the origin straight at a sphere centered on the
/// negative z axis hits at exactly the distance to the near surface,
/// with the reported normal opposing the ray (the negation of its
/// direction) and the front face struck. Stated for configurations whose
/// squares are exactly representable: center offset and radius multiples
/// of 1/256.
pub proof fn lemma_sphere_axial_roundtrip(s: Sphere, ray: Ray, tmax: i64)
    requires
        s.center.x == 0,
        s.center.y == 0,
        s.center.z < 0,
        (s.center.z as int) % 256 == 0,
        (s.radius as int) % 256 == 0,
        0 < s.radius as int,
        (s.radius as int) < -(s.center.z as int),
        -(s.center.z as int) <= 0x10_0000_0000,
        ray.origin == (crate::vec3::Vec3 { x: 0, y: 0, z: 0 }),
        ray.direction == (crate::vec3::Vec3 { x: 0, y: 0, z: (-65536) as i64 }),
        -(s.center.z as int) - (s.radius as int) < tmax as int,
    ensures
        sphere_hit_t_s(s, ray, (Interval { min: 0, max: tmax }))
            == Some(-(s.center.z as int) - s.radius as int),
        sphere_hit_record_s(s, ray, -(s.center.z as int) - s.radius as int).front_face,
        sphere_hit_record_s(s, ray, -(s.center.z as int) - s.radius as int).normal
            == (crate::vec3::Vec3 { x: 0, y: 0, z: 65536 }),
{
    let k = -(s.center.z as int);
    let rad = s.radius as int;
    let m = k / 256;
    let p = rad / 256;
    let big = 65536int;
    assert(k == 256 * m && rad == 256 * p);

    let oc = vsub_s(s.center, ray.origin);
    assert(oc == (crate::vec3::Vec3 { x: 0, y: 0, z: (-k) as i64 }));

    // every product in the quadratic is an exact multiple of the scale
    assert(fx_mul_s(0, 0) == 0) by {
        crate::fixed::lemma_div_exact(0, big, 0);
    }
    assert(fx_mul_s(-65536, -65536) == 65536) by {
        crate::fixed::lemma_div_exact((-65536) * (-65536), big, 65536);
    }
    assert(fx_mul_s(-65536, -k) == k) by {
        assert((-65536) * (-k) == k * 65536) by (nonlinear_arith);
        crate::fixed::lemma_div_exact((-65536) * (-k), big, k);
    }
    assert(fx_mul_s(-k, -k) == m * m) by {
        assert((-k) * (-k) == (m * m) * 65536) by (nonlinear_arith)
            requires
                k == 256 * m,
        ;
        assert(0 <= m * m <= 0x100_0000_0000_0000) by (nonlinear_arith)
            requires
                0 <= m <= 0x1000_0000,
        ;
        crate::fixed::lemma_div_exact((-k) * (-k), big, m * m);
    }
    assert(fx_mul_s(rad, rad) == p * p) by {
        assert(rad * rad == (p * p) * 65536) by (nonlinear_arith)
            requires
                rad == 256 * p,
        ;
        assert(0 <= p * p <= 0x100_0000_0000_0000) by (nonlinear_arith)
            requires
                0 <= p <= 0x1000_0000,
        ;
        crate::fixed::lemma_div_exact(rad * rad, big, p * p);
    }
    let a = len_sq_s(ray.direction);
    let h = dot_s(ray.direction, oc);
    assert(a == 65536);
    assert(h == k);
    assert(len_sq_s(oc) == m * m);
    let c = fx_sub_s(m * m, p * p);
    assert(p * p <= m * m) by (nonlinear_arith)
        requires
            0 <= p <= m,
    ;
    assert(c == m * m - p * p);
    assert(fx_mul_s(h, h) == m * m) by {
        assert(k * k == (m * m) * 65536) by (nonlinear_arith)
            requires
                k == 256 * m,
        ;
        crate::fixed::lemma_div_exact(k * k, big, m * m);
    }
    assert(fx_mul_s(65536, m * m - p * p) == m * m - p * p) by {
        crate::fixed::lemma_fx_unit(m * m - p * p);
        assert(65536 * (m * m - p * p) == (m * m - p * p) * 65536) by (nonlinear_arith);
        crate::fixed::lemma_div_exact(65536 * (m * m - p * p), big, m * m - p * p);
    }
    let disc = fx_sub_s(fx_mul_s(h, h), fx_mul_s(a, c));
    assert(disc == p * p);
    assert(fx_sqrt_s(p * p) == rad) by {
        assert((p * p) * 65536 == rad * rad) by (nonlinear_arith)
            requires
                rad == 256 * p,
        ;
        assert(rad * rad < (rad + 1) * (rad + 1)) by (nonlinear_arith)
            requires
                rad >= 0,
        ;
        crate::fixed::lemma_sqrt_floor_is((p * p) * 65536, rad);
        assert(p * p > 0) by (nonlinear_arith)
            requires
                p >= 1,
        ;
    }
    let sq = fx_sqrt_s(disc);
    assert(sq == rad);
    assert(fx_div_s(k - rad, 65536) == k - rad) by {
        crate::fixed::lemma_fx_unit(k - rad);
    }
    let t = k - rad;
    assert(sphere_hit_t_s(s, ray, (Interval { min: 0, max: tmax })) == Some(t));

    // the record: hit point one radius short of the center, outward
    // normal straight back along the axis
    assert(fx_mul_s(-65536, t) == -t) by {
        assert((-65536) * t == (-t) * 65536) by (nonlinear_arith);
        crate::fixed::lemma_div_exact((-65536) * t, big, -t);
    }
    assert(fx_mul_s(0, t) == 0) by {
        assert(0 * t == 0) by (nonlinear_arith);
        crate::fixed::lemma_div_exact(0 * t, big, 0);
    }
    let hit_p = crate::ray::ray_at_s(ray, t);
    assert(hit_p == (crate::vec3::Vec3 { x: 0, y: 0, z: (-t) as i64 }));
    assert(fx_div_s(rad, rad) == 65536) by {
        assert(rad * 65536 == 65536 * rad) by (nonlinear_arith);
        crate::fixed::lemma_div_exact(rad * 65536, rad, 65536);
    }
    assert(fx_div_s(0, rad) == 0) by {
        crate::fixed::lemma_div_exact(0int, rad, 0int);
    }
    let outward = vdiv_s(vsub_s(hit_p, s.center), rad);
    assert(outward == (crate::vec3::Vec3 { x: 0, y: 0, z: 65536 }));
    assert(fx_mul_s(-65536, 65536) == -65536) by {
        crate::fixed::lemma_div_exact((-65536) * 65536, big, -65536);
    }
    assert(dot_s(ray.direction, outward) == -65536);
}

impl Sphere {
    /// A sphere with the given center and material; the radius is
    /// clamped to be nonnegative.
    pub fn new(center: Point3, radius: i64, mat: usize) -> (r: Sphere)
        ensures
            r.center == center,
            r.radius == if radius >= 0 { radius } else { 0 },
            r.mat == mat,
    {
        Sphere { center, radius: if radius >= 0 { radius } else { 0 }, mat }
    }

    /// The bounding box: the corners one radius away from the center in
    /// every direction.
    pub fn bounding_box(&self) -> (r: AABB)
        ensures
            r == sphere_box_s(*self),
    {
        let rvec = Vec3 { x: self.radius, y: self.radius, z: self.radius };
        AABB::from_points(self.center.sub(&rvec), self.center.add(&rvec))
    }

    /// The nearest intersection strictly inside `ray_t`, if any; on
    /// acceptance the record is rebuilt, otherwise it is untouched.
    pub fn hit(&self, ray: &Ray, ray_t: Interval, rec: &mut HitRecord) -> (r: bool)
        ensures
            r == sphere_hit_t_s(*self, *ray, ray_t) is Some,
            r ==> *final(rec) == sphere_hit_record_s(*self, *ray, sphere_hit_t_s(*self, *ray, ray_t)->0),
            !r ==> *final(rec) == *old(rec),
    {
        let oc = self.center.sub(&ray.origin);
        let a = ray.direction.length_squared();
        let h = dot(&ray.direction, &oc);
        let c = fx_sub(oc.length_squared(), fx_mul(self.radius, self.radius));

        let discriminant = fx_sub(fx_mul(h, h), fx_mul(a, c));
        if discriminant < 0 {
            return false;
        }

        let sqrt_discriminant = fx_sqrt(discriminant);

        let mut root = fx_div(fx_sub(h, sqrt_discriminant), a);
        if !ray_t.surrounds(root) {
            root = fx_div(fx_add(h, sqrt_discriminant), a);
            if !ray_t.surrounds(root) {
                return false;
            }
        }

        rec.t = root;
        rec.p = ray.at(root);
        let outward_normal = rec.p.sub(&self.center).div_scalar(self.radius);
        rec.set_face_normal(ray, &outward_normal);
        rec.mat = Some(self.mat);

        true
    }
}

} // verus!

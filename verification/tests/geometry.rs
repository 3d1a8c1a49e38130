//! Scalar, vector, interval, box and sphere behavior on concrete values.

use raytrace::fixed::{fx_add, fx_div, fx_mul, fx_sqrt, fx_sub, FX_ONE};
use raytrace::vec3::{cross, dot, unit_vector, Vec3};
use raytrace::interval::Interval;
use raytrace::aabb::AABB;
use raytrace::ray::Ray;
use raytrace::sphere::Sphere;
use raytrace::hittable::HitRecord;

const ONE: i64 = FX_ONE;

#[test]
fn fixed_point_arithmetic_matches_reals() {
    assert_eq!(fx_mul(ONE, ONE), ONE);
    assert_eq!(fx_mul(2 * ONE, 3 * ONE), 6 * ONE);
    assert_eq!(fx_div(3 * ONE, 2 * ONE), 3 * ONE / 2);
    assert_eq!(fx_sqrt(4 * ONE), 2 * ONE);
    assert_eq!(fx_sqrt(0), 0);
    assert_eq!(fx_add(ONE, -ONE), 0);
    assert_eq!(fx_sub(ONE, 3 * ONE), -2 * ONE);
}

#[test]
fn fixed_point_saturates_instead_of_wrapping() {
    assert_eq!(fx_add(i64::MAX, i64::MAX), i64::MAX);
    assert_eq!(fx_sub(i64::MIN, 1), i64::MIN);
    assert_eq!(fx_mul(i64::MAX, 2 * ONE), i64::MAX);
}

#[test]
fn division_by_zero_saturates_by_sign() {
    assert_eq!(fx_div(5, 0), i64::MAX);
    assert_eq!(fx_div(-5, 0), i64::MIN);
    assert_eq!(fx_div(0, 0), 0);
}

#[test]
fn vector_algebra_on_whole_units() {
    let u = Vec3::from_values(ONE, 2 * ONE, 3 * ONE);
    let v = Vec3::from_values(4 * ONE, 5 * ONE, 6 * ONE);
    assert_eq!(u.add(&v), Vec3::from_values(5 * ONE, 7 * ONE, 9 * ONE));
    assert_eq!(v.sub(&u), Vec3::from_values(3 * ONE, 3 * ONE, 3 * ONE));
    assert_eq!(dot(&u, &v), 32 * ONE);
    assert_eq!(
        cross(&u, &v),
        Vec3::from_values(-3 * ONE, 6 * ONE, -3 * ONE)
    );
    assert_eq!(u.length_squared(), 14 * ONE);
}

#[test]
fn unit_vector_of_three_four_five() {
    let v = Vec3::from_values(3 * ONE, 4 * ONE, 0);
    assert_eq!(v.length(), 5 * ONE);
    let u = unit_vector(&v);
    // 0.6 and 0.8, rounded down
    assert_eq!(u, Vec3::from_values(39321, 52428, 0));
}

#[test]
fn interval_contains_surrounds_clamp() {
    let i = Interval::from_range(0, 10 * ONE);
    assert!(i.contains(0));
    assert!(i.contains(10 * ONE));
    assert!(!i.surrounds(0));
    assert!(!i.surrounds(10 * ONE));
    assert!(i.surrounds(5 * ONE));
    assert_eq!(i.clamp(-ONE), 0);
    assert_eq!(i.clamp(11 * ONE), 10 * ONE);
    assert_eq!(i.clamp(ONE), ONE);
    assert_eq!(i.size(), 10 * ONE);

    let empty = Interval::new();
    assert!(!empty.contains(0));
    assert!(empty.size() < 0);
}

#[test]
fn union_of_boxes_contains_both() {
    let a = AABB::from_points(
        Vec3::from_values(-ONE, -ONE, -ONE),
        Vec3::from_values(ONE, ONE, ONE),
    );
    let b = AABB::from_points(
        Vec3::from_values(0, 0, 0),
        Vec3::from_values(3 * ONE, 2 * ONE, ONE),
    );
    let u = AABB::from_boxes(&a, &b);
    assert_eq!(u.min, Vec3::from_values(-ONE, -ONE, -ONE));
    assert_eq!(u.max, Vec3::from_values(3 * ONE, 2 * ONE, ONE));
}

#[test]
fn from_points_accepts_corners_in_any_order() {
    let a = AABB::from_points(
        Vec3::from_values(ONE, -ONE, 2 * ONE),
        Vec3::from_values(-ONE, ONE, 0),
    );
    assert_eq!(a.min, Vec3::from_values(-ONE, -ONE, 0));
    assert_eq!(a.max, Vec3::from_values(ONE, ONE, 2 * ONE));
}

#[test]
fn slab_test_hits_through_center_along_each_axis() {
    let b = AABB::from_points(
        Vec3::from_values(-ONE, -ONE, -ONE),
        Vec3::from_values(ONE, ONE, ONE),
    );
    let query = Interval::from_range(0, 10 * ONE);
    // origin five units before the center on each axis in turn
    let rx = Ray::from_origin_direction(
        Vec3::from_values(-5 * ONE, 0, 0),
        Vec3::from_values(ONE, 0, 0),
    );
    let ry = Ray::from_origin_direction(
        Vec3::from_values(0, -5 * ONE, 0),
        Vec3::from_values(0, ONE, 0),
    );
    let rz = Ray::from_origin_direction(
        Vec3::from_values(0, 0, -5 * ONE),
        Vec3::from_values(0, 0, ONE),
    );
    assert!(b.hit(&rx, query));
    assert!(b.hit(&ry, query));
    assert!(b.hit(&rz, query));
}

#[test]
fn slab_test_hits_through_center_along_a_diagonal() {
    let b = AABB::from_points(
        Vec3::from_values(-ONE, -ONE, -ONE),
        Vec3::from_values(ONE, ONE, ONE),
    );
    // at t = 5 the ray reaches the box center from a diagonal direction
    let r = Ray::from_origin_direction(
        Vec3::from_values(-5 * ONE, -5 * ONE, -5 * ONE),
        Vec3::from_values(ONE, ONE, ONE),
    );
    assert!(b.hit(&r, Interval::from_range(0, 10 * ONE)));
    let tilted = Ray::from_origin_direction(
        Vec3::from_values(-5 * ONE, 5 * ONE / 2, 0),
        Vec3::from_values(ONE, -ONE / 2, 0),
    );
    assert!(b.hit(&tilted, Interval::from_range(0, 10 * ONE)));
}

#[test]
fn default_values_match_the_fresh_constructors() {
    let i: Interval = Default::default();
    assert_eq!(i.min, i64::MAX);
    assert_eq!(i.max, i64::MIN);
    let r: Ray = Default::default();
    assert_eq!(*r.origin(), Vec3::from_values(0, 0, 0));
    assert_eq!(*r.direction(), Vec3::from_values(0, 0, 0));
}

#[test]
fn slab_test_misses_offset_parallel_ray() {
    let b = AABB::from_points(
        Vec3::from_values(-ONE, -ONE, -ONE),
        Vec3::from_values(ONE, ONE, ONE),
    );
    let query = Interval::from_range(0, 10 * ONE);
    let r = Ray::from_origin_direction(
        Vec3::from_values(-5 * ONE, 2 * ONE, 0),
        Vec3::from_values(ONE, 0, 0),
    );
    assert!(!b.hit(&r, query));
    let away = Ray::from_origin_direction(
        Vec3::from_values(-5 * ONE, 0, 0),
        Vec3::from_values(-ONE, 0, 0),
    );
    assert!(!b.hit(&away, query));
}

#[test]
fn sphere_roundtrip_hits_near_surface() {
    // a sphere of radius one half, two units down the axis
    let s = Sphere::new(Vec3::from_values(0, 0, -2 * ONE), ONE / 2, 0);
    let ray = Ray::from_origin_direction(
        Vec3::from_values(0, 0, 0),
        Vec3::from_values(0, 0, -ONE),
    );
    let mut rec = HitRecord::new();
    let hit = s.hit(&ray, Interval::from_range(0, 100 * ONE), &mut rec);
    assert!(hit);
    // distance to the near surface: 2 - 0.5 = 1.5
    assert_eq!(rec.t, 3 * ONE / 2);
    assert!(rec.front_face);
    assert_eq!(rec.normal, Vec3::from_values(0, 0, ONE));
    assert_eq!(rec.p, Vec3::from_values(0, 0, -3 * ONE / 2));
    assert_eq!(rec.mat, Some(0));
}

#[test]
fn sphere_hit_from_inside_takes_far_root_and_flips_normal() {
    let s = Sphere::new(Vec3::from_values(0, 0, 0), ONE, 7);
    let ray = Ray::from_origin_direction(
        Vec3::from_values(0, 0, 0),
        Vec3::from_values(0, 0, -ONE),
    );
    let mut rec = HitRecord::new();
    let hit = s.hit(&ray, Interval::from_range(66, i64::MAX), &mut rec);
    assert!(hit);
    assert_eq!(rec.t, ONE);
    assert!(!rec.front_face);
    assert_eq!(rec.normal, Vec3::from_values(0, 0, ONE));
    assert_eq!(rec.mat, Some(7));
}

#[test]
fn sphere_miss_leaves_record_alone() {
    let s = Sphere::new(Vec3::from_values(0, 0, -2 * ONE), ONE / 2, 0);
    let ray = Ray::from_origin_direction(
        Vec3::from_values(0, 0, 0),
        Vec3::from_values(0, 0, ONE),
    );
    let mut rec = HitRecord::new();
    let hit = s.hit(&ray, Interval::from_range(0, 100 * ONE), &mut rec);
    assert!(!hit);
    assert_eq!(rec.t, 0);
    assert_eq!(rec.mat, None);
}

#[test]
fn sphere_negative_radius_is_clamped() {
    let s = Sphere::new(Vec3::from_values(0, 0, 0), -5 * ONE, 0);
    assert_eq!(s.radius, 0);
}

#[test]
fn degrees_convert_exactly_for_straight_angles() {
    // a straight angle is exactly the circle constant in fixed point
    assert_eq!(raytrace::fixed::degrees_to_radians(180 * ONE), raytrace::fixed::PI_FX);
    assert_eq!(raytrace::fixed::degrees_to_radians(0), 0);
    assert_eq!(raytrace::fixed::degrees_to_radians(90 * ONE), raytrace::fixed::PI_FX / 2);
}

#[test]
fn universe_interval_contains_everything() {
    let u = Interval::universe();
    assert!(u.contains(i64::MIN));
    assert!(u.contains(0));
    assert!(u.contains(i64::MAX));
}

#[test]
fn fixed_to_int_rounds_toward_minus_infinity() {
    assert_eq!(raytrace::fixed::fx_to_int(3 * ONE / 2), 1);
    assert_eq!(raytrace::fixed::fx_to_int(-3 * ONE / 2), -2);
    assert_eq!(raytrace::fixed::fx_to_int(-ONE), -1);
}

#[test]
fn ray_evaluates_points() {
    let r = Ray::from_origin_direction(
        Vec3::from_values(ONE, 0, 0),
        Vec3::from_values(0, 2 * ONE, 0),
    );
    assert_eq!(r.at(ONE / 2), Vec3::from_values(ONE, ONE, 0));
    assert_eq!(*r.origin(), Vec3::from_values(ONE, 0, 0));
    assert_eq!(*r.direction(), Vec3::from_values(0, 2 * ONE, 0));
}

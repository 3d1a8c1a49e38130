//! Materials, color conversion, hierarchy-versus-scan agreement, and a
//! small end-to-end render.

use raytrace::fixed::{fx_div, fx_mul, FX_ONE};
use raytrace::vec3::Vec3;
use raytrace::interval::Interval;
use raytrace::ray::Ray;
use raytrace::sphere::Sphere;
use raytrace::hittable::HitRecord;
use raytrace::hittable_list::HittableList;
use raytrace::bvh::{BVHNode, SceneError};
use raytrace::material::{Dielectric, Lambertian, Material, Metal};
use raytrace::color::{linear_to_gamma, write_color};
use raytrace::camera::{background_color, Camera};
use raytrace::rng::RandomSource;

const ONE: i64 = FX_ONE;

fn hit_record() -> HitRecord {
    let mut rec = HitRecord::new();
    rec.p = Vec3::from_values(0, 0, -ONE);
    rec.normal = Vec3::from_values(0, ONE, 0);
    rec.front_face = true;
    rec
}

#[test]
fn lambertian_attenuation_is_the_albedo() {
    let albedo = Vec3::from_values(ONE / 2, ONE / 4, ONE);
    let mat = Lambertian::new(albedo);
    let rec = hit_record();
    let res = mat.scatter(&rec, Vec3::from_values(0, ONE, 0));
    assert_eq!(res.attenuation, albedo);
    assert_eq!(res.scattered.origin, rec.p);
    assert_eq!(res.scattered.direction, Vec3::from_values(0, 2 * ONE, 0));
}

#[test]
fn lambertian_degenerate_sum_falls_back_to_normal() {
    let mat = Lambertian::new(Vec3::from_values(ONE, ONE, ONE));
    let rec = hit_record();
    // the sample exactly cancels the normal
    let res = mat.scatter(&rec, Vec3::from_values(0, -ONE, 0));
    assert_eq!(res.scattered.direction, rec.normal);
}

#[test]
fn metal_reflects_about_the_normal() {
    let albedo = Vec3::from_values(ONE, ONE / 2, ONE / 2);
    let mat = Metal::new(albedo, 0);
    let rec = hit_record();
    let r_in = Ray::from_origin_direction(
        Vec3::from_values(-ONE, ONE, -ONE),
        Vec3::from_values(ONE, -ONE, 0),
    );
    let res = mat.scatter(&r_in, &rec, Vec3::from_values(0, 0, 0));
    assert_eq!(res.attenuation, albedo);
    assert_eq!(res.scattered.direction, Vec3::from_values(ONE, ONE, 0));
}

#[test]
fn metal_fuzz_is_clamped_into_unit_range() {
    let m = Metal::new(Vec3::from_values(ONE, ONE, ONE), 3 * ONE);
    assert_eq!(m.fuzz, ONE);
    let m2 = Metal::new(Vec3::from_values(ONE, ONE, ONE), -ONE);
    assert_eq!(m2.fuzz, 0);
}

#[test]
fn dielectric_transmits_fully() {
    let mat = Dielectric::new(3 * ONE / 2);
    let rec = hit_record();
    let r_in = Ray::from_origin_direction(
        Vec3::from_values(0, 2 * ONE, -ONE),
        Vec3::from_values(0, -ONE, 0),
    );
    let res = mat.scatter(&r_in, &rec, 0);
    assert_eq!(res.attenuation, Vec3::from_values(ONE, ONE, ONE));
    assert_eq!(res.scattered.origin, rec.p);
}

#[test]
fn energy_is_never_amplified_by_diffuse_or_specular() {
    let albedo = Vec3::from_values(ONE / 2, ONE / 4, 3 * ONE / 4);
    let rec = hit_record();
    let lam = Lambertian::new(albedo).scatter(&rec, Vec3::from_values(0, ONE, 0));
    assert!(lam.attenuation.x <= albedo.x);
    assert!(lam.attenuation.y <= albedo.y);
    assert!(lam.attenuation.z <= albedo.z);
    let r_in = Ray::from_origin_direction(
        Vec3::from_values(0, ONE, 0),
        Vec3::from_values(0, -ONE, 0),
    );
    let met = Metal::new(albedo, ONE / 2).scatter(&r_in, &rec, Vec3::from_values(0, 0, 0));
    assert!(met.attenuation.x <= albedo.x);
    assert!(met.attenuation.y <= albedo.y);
    assert!(met.attenuation.z <= albedo.z);
}

#[test]
fn gamma_and_clamp_emit_documented_bytes() {
    // linear 0.25 has gamma value 0.5
    assert_eq!(linear_to_gamma(ONE / 4), ONE / 2);
    assert_eq!(linear_to_gamma(0), 0);
    assert_eq!(linear_to_gamma(-ONE), 0);
    // the documented triple: (0.0, 1.0, 0.25) -> (0, 255, 128)
    let bytes = write_color(&Vec3::from_values(0, ONE, ONE / 4));
    assert_eq!(bytes, (0, 255, 128));
}

#[test]
fn every_channel_lands_in_a_byte() {
    let mut c: i64 = -2 * ONE;
    while c < 3 * ONE {
        let (r, g, b) = write_color(&Vec3::from_values(c, c, c));
        assert!(r <= 255 && g <= 255 && b <= 255);
        c += 12345;
    }
}

#[test]
fn fresh_cameras_start_with_zeroed_derived_state() {
    let c = Camera::new();
    assert_eq!(c.image_width, 100);
    assert_eq!(c.samples_per_pixel, 10);
    assert_eq!(c.max_depth, 10);
    assert_eq!(c.vfov_tan_half, ONE);
    assert_eq!(c.image_height, 0);
    assert_eq!(c.pixel_samples_scale, 0);
    assert_eq!(c.pixel00_loc, Vec3::from_values(0, 0, 0));
    let d: Camera = Default::default();
    assert_eq!(d.image_width, c.image_width);
    assert_eq!(d.lookat, c.lookat);
    assert_eq!(d.image_height, 0);
}

#[test]
fn hemisphere_samples_point_with_the_normal() {
    let mut rng = RandomSource::from_seed(77);
    let normal = Vec3::from_values(0, ONE, 0);
    for _ in 0..200 {
        let v = raytrace::vec3::random_on_hemisphere(&mut rng, &normal);
        assert!(raytrace::vec3::dot(&v, &normal) >= -3);
    }
}

#[test]
fn random_draws_stay_in_range_and_vary() {
    let mut rng = RandomSource::from_seed(123);
    let mut seen_distinct = false;
    let mut prev: i64 = -1;
    for _ in 0..1000 {
        let r = raytrace::rng::random_scalar(&mut rng);
        assert!(0 <= r && r < ONE);
        let s = raytrace::rng::random_scalar_range(&mut rng, -ONE, ONE);
        assert!(-ONE <= s && s < ONE);
        if prev >= 0 && prev != r {
            seen_distinct = true;
        }
        prev = r;
    }
    assert!(seen_distinct);
}

#[test]
fn seeded_sources_repeat_their_draws() {
    let mut a = RandomSource::from_seed(5);
    let mut b = RandomSource::from_seed(5);
    for _ in 0..100 {
        assert_eq!(
            raytrace::rng::random_scalar(&mut a),
            raytrace::rng::random_scalar(&mut b)
        );
    }
}

#[test]
fn list_and_tree_bounding_boxes_cover_the_scene() {
    let spheres = vec![
        Sphere::new(Vec3::from_values(0, 0, -2 * ONE), ONE / 2, 0),
        Sphere::new(Vec3::from_values(3 * ONE, ONE, -4 * ONE), ONE, 0),
    ];
    let list = HittableList { objects: spheres.clone() };
    let lb = list.bounding_box();
    assert_eq!(lb.min, Vec3::from_values(-ONE / 2, -ONE / 2, -5 * ONE));
    assert_eq!(lb.max, Vec3::from_values(4 * ONE, 2 * ONE, -3 * ONE / 2));

    let mut rng = RandomSource::from_seed(1);
    let tree = match BVHNode::new(spheres, &mut rng) {
        Ok(t) => t,
        Err(_) => panic!("scene is nonempty"),
    };
    let tb = tree.bounding_box();
    assert_eq!(tb.min, lb.min);
    assert_eq!(tb.max, lb.max);
}

#[test]
fn empty_scene_is_refused() {
    let mut rng = RandomSource::from_seed(1);
    let r = BVHNode::new(Vec::new(), &mut rng);
    match r {
        Err(SceneError::EmptyScene) => {}
        _ => panic!("an empty scene must be refused"),
    }
}

fn random_scene(rng: &mut RandomSource, count: usize) -> Vec<Sphere> {
    let mut spheres = Vec::new();
    let mut i = 0;
    while i < count {
        let center = Vec3::from_values(
            raytrace::rng::random_scalar_range(rng, -10 * ONE, 10 * ONE),
            raytrace::rng::random_scalar_range(rng, -10 * ONE, 10 * ONE),
            raytrace::rng::random_scalar_range(rng, -30 * ONE, -5 * ONE),
        );
        let radius = raytrace::rng::random_scalar_range(rng, ONE / 4, 2 * ONE);
        spheres.push(Sphere::new(center, radius, i % 3));
        i += 1;
    }
    spheres
}

#[test]
fn bvh_agrees_with_exhaustive_scan() {
    let mut rng = RandomSource::from_seed(42);
    let spheres = random_scene(&mut rng, 25);
    let list = HittableList { objects: spheres.clone() };
    let bvh = match BVHNode::new(spheres, &mut rng) {
        Ok(b) => b,
        Err(_) => panic!("scene is nonempty"),
    };

    let mut ray_i = 0;
    while ray_i < 200 {
        let origin = Vec3::from_values(
            raytrace::rng::random_scalar_range(&mut rng, -2 * ONE, 2 * ONE),
            raytrace::rng::random_scalar_range(&mut rng, -2 * ONE, 2 * ONE),
            0,
        );
        let direction = Vec3::from_values(
            raytrace::rng::random_scalar_range(&mut rng, -ONE, ONE),
            raytrace::rng::random_scalar_range(&mut rng, -ONE, ONE),
            raytrace::rng::random_scalar_range(&mut rng, -2 * ONE, -ONE / 4),
        );
        let ray = Ray::from_origin_direction(origin, direction);
        let query = Interval::from_range(66, i64::MAX);

        let mut rec_list = HitRecord::new();
        let mut rec_bvh = HitRecord::new();
        let hit_list = list.hit(&ray, query, &mut rec_list);
        let hit_bvh = bvh.hit(&ray, query, &mut rec_bvh);

        assert_eq!(hit_list, hit_bvh);
        if hit_list {
            assert_eq!(rec_list.t, rec_bvh.t);
            assert_eq!(rec_list.p, rec_bvh.p);
        }
        ray_i += 1;
    }
}

fn tiny_camera() -> Camera {
    let mut cam = Camera::new();
    cam.aspect_ratio = 2 * ONE;
    cam.image_width = 2;
    cam.samples_per_pixel = 1;
    cam.max_depth = 1;
    cam.vfov_tan_half = ONE;
    cam.lookfrom = Vec3::from_values(0, 0, 0);
    cam.lookat = Vec3::from_values(0, 0, -ONE);
    cam.vup = Vec3::from_values(0, ONE, 0);
    cam.defocus_tan_half = 0;
    cam.focus_dist = ONE;
    cam
}

#[test]
fn initialize_derives_the_documented_viewport_geometry() {
    let mut cam = tiny_camera();
    cam.initialize();
    assert_eq!(cam.image_height, 1);
    assert_eq!(cam.pixel_samples_scale, ONE);
    assert_eq!(cam.center, Vec3::from_values(0, 0, 0));
    assert_eq!(cam.w, Vec3::from_values(0, 0, ONE));
    assert_eq!(cam.u, Vec3::from_values(ONE, 0, 0));
    assert_eq!(cam.v, Vec3::from_values(0, ONE, 0));
    assert_eq!(cam.pixel_delta_u, Vec3::from_values(2 * ONE, 0, 0));
    assert_eq!(cam.pixel_delta_v, Vec3::from_values(0, -2 * ONE, 0));
    assert_eq!(cam.pixel00_loc, Vec3::from_values(-ONE, 0, -ONE));
    // no lens blur: the defocus basis collapses
    assert_eq!(cam.defocus_disk_u, Vec3::from_values(0, 0, 0));
    assert_eq!(cam.defocus_disk_v, Vec3::from_values(0, 0, 0));
}

#[test]
fn rays_start_at_the_center_and_aim_at_the_jittered_pixel() {
    let mut cam = tiny_camera();
    cam.initialize();
    let zero = Vec3::from_values(0, 0, 0);
    let r00 = cam.get_ray_at(0, 0, 0, 0, zero);
    assert_eq!(r00.origin, zero);
    assert_eq!(r00.direction, Vec3::from_values(-ONE, 0, -ONE));
    let r10 = cam.get_ray_at(1, 0, 0, 0, zero);
    assert_eq!(r10.direction, Vec3::from_values(ONE, 0, -ONE));
    // a half-pixel jitter moves the target by half a pixel step
    let rj = cam.get_ray_at(0, 0, ONE / 2, 0, zero);
    assert_eq!(rj.direction, Vec3::from_values(0, 0, -ONE));
}

#[test]
fn tiny_render_is_deterministic_for_a_seed() {
    let scene = vec![Sphere::new(Vec3::from_values(0, 0, -ONE), ONE / 2, 0)];
    let materials = vec![Material::Lambertian(Lambertian::new(Vec3::from_values(
        ONE / 2,
        ONE / 2,
        ONE / 2,
    )))];

    let mut rng_build = RandomSource::from_seed(7);
    let world = match BVHNode::new(scene, &mut rng_build) {
        Ok(w) => w,
        Err(_) => panic!("scene is nonempty"),
    };

    let mut cam1 = tiny_camera();
    let mut rng1 = RandomSource::from_seed(9);
    let frame1 = cam1.render(&world, &materials, &mut rng1);

    let mut cam2 = tiny_camera();
    let mut rng2 = RandomSource::from_seed(9);
    let frame2 = cam2.render(&world, &materials, &mut rng2);

    assert_eq!(cam1.image_height, 1);
    assert_eq!(frame1.len(), 2);
    assert_eq!(frame1, frame2);

    // replaying the generator reproduces each pixel in scan order
    let mut rng3 = RandomSource::from_seed(9);
    let mut i = 0;
    while i < cam1.image_width {
        let c = cam1.render_pixel(i, 0, &world, &materials, &mut rng3);
        assert_eq!(write_color(&c), frame1[i]);
        i += 1;
    }
}

#[test]
fn background_pixels_match_the_sky_gradient() {
    // the camera looks away from the lone sphere: every pixel is sky
    let scene = vec![Sphere::new(Vec3::from_values(0, 0, -100 * ONE), ONE / 2, 0)];
    let materials = vec![Material::Lambertian(Lambertian::new(Vec3::from_values(
        ONE / 2,
        ONE / 2,
        ONE / 2,
    )))];
    let mut rng_build = RandomSource::from_seed(3);
    let world = match BVHNode::new(scene, &mut rng_build) {
        Ok(w) => w,
        Err(_) => panic!("scene is nonempty"),
    };

    let mut cam = tiny_camera();
    cam.lookat = Vec3::from_values(0, 0, ONE);
    let mut rng = RandomSource::from_seed(11);
    let frame = cam.render(&world, &materials, &mut rng);

    // replay the generator: one sample per pixel, so the pixel color is
    // the ray color, which on a miss is the analytic gradient
    let mut rng2 = RandomSource::from_seed(11);
    assert_eq!(cam.pixel_samples_scale, fx_div(ONE, ONE));
    let mut i = 0;
    while i < cam.image_width {
        let ray = cam.get_ray(i, 0, &mut rng2);
        let expected = background_color(&ray);
        let scaled = expected.scale(cam.pixel_samples_scale);
        assert_eq!(write_color(&scaled), frame[i]);
        assert_eq!(fx_mul(expected.x, ONE), expected.x);
        i += 1;
    }
}

//! The camera: derives an orthonormal view basis and viewport geometry
//! from scene parameters, generates jittered, lens-sampled rays per
//! pixel, and integrates Monte-Carlo samples into gamma-corrected pixel
//! bytes.
//!
//! Angles enter as the tangent of their half: the caller converts the
//! vertical field of view and the defocus cone once, and everything
//! downstream of the two tangents is fixed-point arithmetic.

use vstd::prelude::*;

verus! {

use crate::fixed::{fx_add, fx_sub, fx_mul, fx_div, fx_from_int, fx_to_int, FX_ONE};
use crate::fixed::{fx_add_s, fx_mul_s, fx_div_s, floor_div, sat64};
use crate::vec3::{Vec3, Point3, vadd_s, vsub_s, vscale_s, vdiv_s, vneg_s, cross_s, unit_s};
use crate::vec3::{cross, unit_vector, random_in_unit_disk};
use crate::ray::Ray;
use crate::interval::Interval;
use crate::hittable::HitRecord;
use crate::material::{Material, materials_wf};
use crate::bvh::{BVHNode, node_hit_s, node_mats_ok, lemma_node_winner_in_tree};
use crate::color::write_color;
use crate::rng::{RandomSource, random_scalar};

/// The lower intersection bound of every query: a little above zero, so
/// a scattered ray cannot strike its own origin through round-off.
pub const T_MIN_EPS: i64 = 66;

pub struct Camera {
    // configuration
    pub aspect_ratio: i64,
    pub image_width: usize,
    pub samples_per_pixel: usize,
    pub max_depth: u32,
    pub vfov_tan_half: i64,
    pub lookfrom: Point3,
    pub lookat: Point3,
    pub vup: Vec3,
    pub defocus_tan_half: i64,
    pub focus_dist: i64,
    // derived, recomputed once before rendering
    pub image_height: usize,
    pub pixel_samples_scale: i64,
    pub center: Point3,
    pub pixel00_loc: Point3,
    pub pixel_delta_u: Vec3,
    pub pixel_delta_v: Vec3,
    pub u: Vec3,
    pub v: Vec3,
    pub w: Vec3,
    pub defocus_disk_u: Vec3,
    pub defocus_disk_v: Vec3,
}

/// The configuration bounds under which the derived geometry is
/// computed. The lower bounds are the ones the configuration surface
/// demands (a positive aspect ratio, a nonempty image, at least one
/// sample); `1` is the smallest representable positive aspect ratio.
/// The two caps are machine limits of the representation: a wider image
/// would overflow the fixed-point width-times-scale products, and above
/// 65536 samples the per-sample weight rounds down to zero.
pub open spec fn config_wf(c: Camera) -> bool {
    &&& 1 <= c.aspect_ratio
    &&& 1 <= c.image_width <= 65535
    &&& 1 <= c.samples_per_pixel <= 65536
}

/// The derived image height: width over aspect ratio, at least one.
pub open spec fn image_height_s(c: Camera) -> int {
    let h = floor_div(fx_div_s(sat64(c.image_width as int * 65536), c.aspect_ratio as int), 65536);
    if h < 1 {
        1
    } else {
        h
    }
}

/// The per-sample weight: the reciprocal of the sample count.
pub open spec fn pixel_samples_scale_s(c: Camera) -> int {
    fx_div_s(FX_ONE as int, sat64(c.samples_per_pixel as int * 65536))
}

/// The view basis vector pointing from the target back to the camera.
pub open spec fn w_s(c: Camera) -> Vec3 {
    unit_s(vsub_s(c.lookfrom, c.lookat))
}

/// The view basis vector pointing right.
pub open spec fn u_s(c: Camera) -> Vec3 {
    unit_s(cross_s(c.vup, w_s(c)))
}

/// The view basis vector pointing up.
pub open spec fn v_s(c: Camera) -> Vec3 {
    cross_s(w_s(c), u_s(c))
}

/// The viewport height: twice the half-angle tangent, at focus distance.
pub open spec fn viewport_height_s(c: Camera) -> int {
    fx_mul_s(fx_mul_s(2 * FX_ONE as int, c.vfov_tan_half as int), c.focus_dist as int)
}

/// The viewport width: the height scaled by the realized aspect ratio.
pub open spec fn viewport_width_s(c: Camera) -> int {
    fx_mul_s(
        viewport_height_s(c),
        fx_div_s(sat64(c.image_width as int * 65536), sat64(image_height_s(c) * 65536)),
    )
}

/// The step from one pixel to the next along a row.
pub open spec fn pixel_delta_u_s(c: Camera) -> Vec3 {
    vdiv_s(vscale_s(u_s(c), viewport_width_s(c)), sat64(c.image_width as int * 65536))
}

/// The step from one row to the next.
pub open spec fn pixel_delta_v_s(c: Camera) -> Vec3 {
    vdiv_s(vscale_s(vneg_s(v_s(c)), viewport_height_s(c)), sat64(image_height_s(c) * 65536))
}

/// The center of the top-left pixel.
pub open spec fn pixel00_loc_s(c: Camera) -> Vec3 {
    let viewport_u = vscale_s(u_s(c), viewport_width_s(c));
    let viewport_v = vscale_s(vneg_s(v_s(c)), viewport_height_s(c));
    let upper_left = vsub_s(
        vsub_s(
            vsub_s(c.lookfrom, vscale_s(w_s(c), c.focus_dist as int)),
            vdiv_s(viewport_u, 2 * FX_ONE as int),
        ),
        vdiv_s(viewport_v, 2 * FX_ONE as int),
    );
    vadd_s(upper_left, vscale_s(vadd_s(pixel_delta_u_s(c), pixel_delta_v_s(c)), 32768))
}

/// The lens radius: the defocus half-angle tangent at focus distance.
pub open spec fn defocus_radius_s(c: Camera) -> int {
    fx_mul_s(c.focus_dist as int, c.defocus_tan_half as int)
}

/// Whether the derived fields hold the geometry of the configuration.
pub open spec fn initialized_s(old_c: Camera, c: Camera) -> bool {
    &&& c.aspect_ratio == old_c.aspect_ratio
    &&& c.image_width == old_c.image_width
    &&& c.samples_per_pixel == old_c.samples_per_pixel
    &&& c.max_depth == old_c.max_depth
    &&& c.vfov_tan_half == old_c.vfov_tan_half
    &&& c.lookfrom == old_c.lookfrom
    &&& c.lookat == old_c.lookat
    &&& c.vup == old_c.vup
    &&& c.defocus_tan_half == old_c.defocus_tan_half
    &&& c.focus_dist == old_c.focus_dist
    &&& c.image_height as int == image_height_s(old_c)
    &&& c.pixel_samples_scale as int == pixel_samples_scale_s(old_c)
    &&& c.center == old_c.lookfrom
    &&& c.w == w_s(old_c)
    &&& c.u == u_s(old_c)
    &&& c.v == v_s(old_c)
    &&& c.pixel_delta_u == pixel_delta_u_s(old_c)
    &&& c.pixel_delta_v == pixel_delta_v_s(old_c)
    &&& c.pixel00_loc == pixel00_loc_s(old_c)
    &&& c.defocus_disk_u == vscale_s(u_s(old_c), defocus_radius_s(old_c))
    &&& c.defocus_disk_v == vscale_s(v_s(old_c), defocus_radius_s(old_c))
}

/// The ray toward pixel `(i, j)` for given jitter offsets and lens disk
/// point: aim at the pixel center moved by the jitter, start from the
/// camera center or from the sampled point of the defocus disk.
pub open spec fn get_ray_at_s(c: Camera, i: int, j: int, ox: int, oy: int, lens: Vec3) -> Ray {
    let pixel_sample = vadd_s(
        vadd_s(
            c.pixel00_loc,
            vscale_s(c.pixel_delta_u, fx_add_s(sat64(i * 65536), ox)),
        ),
        vscale_s(c.pixel_delta_v, fx_add_s(sat64(j * 65536), oy)),
    );
    let ray_origin = if c.defocus_tan_half <= 0 {
        c.center
    } else {
        vadd_s(
            vadd_s(c.center, vscale_s(c.defocus_disk_u, lens.x as int)),
            vscale_s(c.defocus_disk_v, lens.y as int),
        )
    };
    Ray { origin: ray_origin, direction: vsub_s(pixel_sample, ray_origin) }
}

/// The background: a vertical gradient from white at the horizon toward
/// pale blue at the zenith, by the normalized vertical component of the
/// ray direction (clamped into `[0, 1]`, where real arithmetic would
/// keep it by itself).
pub open spec fn background_color_s(r: Ray) -> Vec3 {
    let unit_y = unit_s(r.direction).y as int;
    let a = crate::interval::clamp_s(
        (Interval { min: 0, max: FX_ONE }),
        fx_mul_s(fx_add_s(unit_y, FX_ONE as int), 32768),
    );
    let white = Vec3 { x: FX_ONE, y: FX_ONE, z: FX_ONE };
    let blue = Vec3 { x: 32768, y: 45875, z: FX_ONE };
    vadd_s(vscale_s(white, FX_ONE as int - a), vscale_s(blue, a))
}

/// The background gradient for a ray that escapes the scene.
pub fn background_color(ray: &Ray) -> (c: Vec3)
    ensures
        c == background_color_s(*ray),
        crate::material::color_wf(c),
{
    let unit_direction = unit_vector(&ray.direction);
    let raw = fx_mul(fx_add(unit_direction.y, FX_ONE), 32768);
    let a = Interval::from_range(0, FX_ONE).clamp(raw);
    let white = Vec3 { x: FX_ONE, y: FX_ONE, z: FX_ONE };
    let blue = Vec3 { x: 32768, y: 45875, z: FX_ONE };
    let c = white.scale(fx_sub(FX_ONE, a)).add(&blue.scale(a));
    proof {
        lemma_blend_wf(FX_ONE as int, a as int);
        lemma_blend_wf(32768, a as int);
        lemma_blend_wf(45875, a as int);
    }
    c
}

/// Blending a channel in `[0, 1]` with white by a weight in `[0, 1]`
/// lands in `[0, 1]`.
proof fn lemma_blend_wf(ch: int, a: int)
    requires
        0 <= ch <= FX_ONE as int,
        0 <= a <= FX_ONE as int,
    ensures
        0 <= fx_add_s(
            fx_mul_s(FX_ONE as int, FX_ONE as int - a),
            fx_mul_s(ch, a),
        ) <= FX_ONE as int,
{
    crate::fixed::lemma_fx_mul_unit_range(FX_ONE as int, FX_ONE as int - a);
    crate::fixed::lemma_fx_mul_unit_range(ch, a);
    crate::fixed::lemma_fx_unit(FX_ONE as int - a);
}

/// The configuration a fresh camera carries, its derived fields still
/// zeroed until `initialize` runs: a square viewport of a hundred
/// pixels, ten samples, ten bounces, a ninety-degree field of view
/// (whose half-angle tangent is one) looking down the negative z axis.
pub open spec fn camera_default_s() -> Camera {
    Camera {
        aspect_ratio: FX_ONE,
        image_width: 100,
        samples_per_pixel: 10,
        max_depth: 10,
        vfov_tan_half: FX_ONE,
        lookfrom: Vec3 { x: 0, y: 0, z: 0 },
        lookat: Vec3 { x: 0, y: 0, z: (-FX_ONE) as i64 },
        vup: Vec3 { x: 0, y: FX_ONE, z: 0 },
        defocus_tan_half: 0,
        focus_dist: (10 * FX_ONE as int) as i64,
        image_height: 0,
        pixel_samples_scale: 0,
        center: Vec3 { x: 0, y: 0, z: 0 },
        pixel00_loc: Vec3 { x: 0, y: 0, z: 0 },
        pixel_delta_u: Vec3 { x: 0, y: 0, z: 0 },
        pixel_delta_v: Vec3 { x: 0, y: 0, z: 0 },
        u: Vec3 { x: 0, y: 0, z: 0 },
        v: Vec3 { x: 0, y: 0, z: 0 },
        w: Vec3 { x: 0, y: 0, z: 0 },
        defocus_disk_u: Vec3 { x: 0, y: 0, z: 0 },
        defocus_disk_v: Vec3 { x: 0, y: 0, z: 0 },
    }
}

/// What one ray can evaluate to, one random draw at a time: black once
/// the depth budget is exhausted; the background gradient on a miss;
/// otherwise some admissible scatter's attenuation times an admissible
/// color of the scattered ray. This is the color-integration recursion
/// with the draws existentially quantified.
pub open spec fn ray_color_rel(world: BVHNode, materials: Seq<Material>, r: Ray, depth: int, c: Vec3) -> bool
    decreases depth,
{
    if depth <= 0 {
        c == (Vec3 { x: 0, y: 0, z: 0 })
    } else if node_hit_s(world, r, Interval { min: T_MIN_EPS, max: i64::MAX }) is None {
        c == background_color_s(r)
    } else {
        let q = node_hit_s(world, r, Interval { min: T_MIN_EPS, max: i64::MAX })->0;
        let rec = crate::sphere::sphere_hit_record_s(q.1, r, q.0);
        exists|res: crate::material::ScatterResult, bounce: Vec3|
            #![trigger crate::material::scatter_post(materials[q.1.mat as int], r, rec, Some(res)),
                crate::vec3::vmul_s(res.attenuation, bounce)]
            crate::material::scatter_post(materials[q.1.mat as int], r, rec, Some(res))
                && ray_color_rel(world, materials, res.scattered, depth - 1, bounce)
                && c == crate::vec3::vmul_s(res.attenuation, bounce)
    }
}

/// One admissible sample color of pixel `(i, j)`: the color of the ray
/// drawn with some in-range jitter and lens point, at the camera's
/// depth budget.
pub open spec fn pixel_sample_rel(cam: Camera, world: BVHNode, materials: Seq<Material>, i: int, j: int, c: Vec3) -> bool {
    exists|ox: int, oy: int, lens: Vec3|
        #![trigger ray_color_rel(world, materials, get_ray_at_s(cam, i, j, ox, oy, lens), cam.max_depth as int, c)]
        -32768 <= ox < 32768 && -32768 <= oy < 32768
            && lens.z == 0 && crate::vec3::len_sq_s(lens) < FX_ONE as int
            && ray_color_rel(world, materials, get_ray_at_s(cam, i, j, ox, oy, lens), cam.max_depth as int, c)
}

/// An admissible sum of the first `n` sample colors of pixel `(i, j)`.
pub open spec fn pixel_sum_rel(cam: Camera, world: BVHNode, materials: Seq<Material>, i: int, j: int, n: int, sum: Vec3) -> bool
    decreases n,
{
    if n <= 0 {
        sum == (Vec3 { x: 0, y: 0, z: 0 })
    } else {
        exists|prev: Vec3, s: Vec3|
            #![trigger pixel_sample_rel(cam, world, materials, i, j, s), vadd_s(prev, s)]
            pixel_sum_rel(cam, world, materials, i, j, n - 1, prev)
                && pixel_sample_rel(cam, world, materials, i, j, s)
                && sum == vadd_s(prev, s)
    }
}

/// Admissible output bytes of pixel `(i, j)`: the per-channel bytes of
/// some admissible sample sum, scaled by the per-sample weight.
pub open spec fn pixel_bytes_rel(cam: Camera, world: BVHNode, materials: Seq<Material>, i: int, j: int, px: (u8, u8, u8)) -> bool {
    exists|sum: Vec3|
        #![trigger pixel_sum_rel(cam, world, materials, i, j, cam.samples_per_pixel as int, sum)]
        pixel_sum_rel(cam, world, materials, i, j, cam.samples_per_pixel as int, sum)
            && px.0 as int == crate::color::byte_s(vscale_s(sum, cam.pixel_samples_scale as int).x as int)
            && px.1 as int == crate::color::byte_s(vscale_s(sum, cam.pixel_samples_scale as int).y as int)
            && px.2 as int == crate::color::byte_s(vscale_s(sum, cam.pixel_samples_scale as int).z as int)
}

impl Camera {
    /// The default configuration: a square viewport of a hundred pixels,
    /// ten samples, ten bounces, a ninety-degree field of view (whose
    /// half-angle tangent is one) looking down the negative z axis.
    pub fn new() -> (r: Camera)
        ensures
            r == camera_default_s(),
            config_wf(r),
    {
        Camera {
            aspect_ratio: FX_ONE,
            image_width: 100,
            samples_per_pixel: 10,
            max_depth: 10,
            vfov_tan_half: FX_ONE,
            lookfrom: Vec3 { x: 0, y: 0, z: 0 },
            lookat: Vec3 { x: 0, y: 0, z: -FX_ONE },
            vup: Vec3 { x: 0, y: FX_ONE, z: 0 },
            defocus_tan_half: 0,
            focus_dist: 10 * FX_ONE,
            image_height: 0,
            pixel_samples_scale: 0,
            center: Vec3 { x: 0, y: 0, z: 0 },
            pixel00_loc: Vec3 { x: 0, y: 0, z: 0 },
            pixel_delta_u: Vec3 { x: 0, y: 0, z: 0 },
            pixel_delta_v: Vec3 { x: 0, y: 0, z: 0 },
            u: Vec3 { x: 0, y: 0, z: 0 },
            v: Vec3 { x: 0, y: 0, z: 0 },
            w: Vec3 { x: 0, y: 0, z: 0 },
            defocus_disk_u: Vec3 { x: 0, y: 0, z: 0 },
            defocus_disk_v: Vec3 { x: 0, y: 0, z: 0 },
        }
    }

    /// Recompute every derived field from the configuration. Idempotent:
    /// the derived values depend on the configuration alone.
    pub fn initialize(&mut self)
        requires
            config_wf(*old(self)),
        ensures
            initialized_s(*old(self), *final(self)),
    {
        let w_fx = fx_from_int(self.image_width as i64);
        let h_raw = fx_to_int(fx_div(w_fx, self.aspect_ratio));
        proof {
            lemma_height_bounds(*self);
        }
        let h: i64 = if h_raw < 1 {
            1
        } else {
            h_raw
        };
        self.image_height = h as usize;

        self.pixel_samples_scale = fx_div(FX_ONE, fx_from_int(self.samples_per_pixel as i64));

        self.center = self.lookfrom;

        let viewport_height = fx_mul(fx_mul(2 * FX_ONE, self.vfov_tan_half), self.focus_dist);
        let h_fx = fx_from_int(self.image_height as i64);
        let viewport_width = fx_mul(viewport_height, fx_div(w_fx, h_fx));

        self.w = unit_vector(&self.lookfrom.sub(&self.lookat));
        self.u = unit_vector(&cross(&self.vup, &self.w));
        self.v = cross(&self.w, &self.u);

        let viewport_u = self.u.scale(viewport_width);
        let viewport_v = self.v.neg().scale(viewport_height);

        self.pixel_delta_u = viewport_u.div_scalar(w_fx);
        self.pixel_delta_v = viewport_v.div_scalar(h_fx);

        let viewport_upper_left = self
            .center
            .sub(&self.w.scale(self.focus_dist))
            .sub(&viewport_u.div_scalar(2 * FX_ONE))
            .sub(&viewport_v.div_scalar(2 * FX_ONE));
        self.pixel00_loc = viewport_upper_left.add(
            &self.pixel_delta_u.add(&self.pixel_delta_v).scale(32768),
        );

        let defocus_radius = fx_mul(self.focus_dist, self.defocus_tan_half);
        self.defocus_disk_u = self.u.scale(defocus_radius);
        self.defocus_disk_v = self.v.scale(defocus_radius);
    }

    /// The ray toward pixel `(i, j)` for the given jitter and lens
    /// samples.
    pub fn get_ray_at(&self, i: usize, j: usize, ox: i64, oy: i64, lens: Vec3) -> (r: Ray)
        requires
            i <= 0xffff_ffff,
            j <= 0xffff_ffff,
        ensures
            r == get_ray_at_s(*self, i as int, j as int, ox as int, oy as int, lens),
    {
        let pixel_sample = self
            .pixel00_loc
            .add(&self.pixel_delta_u.scale(fx_add(fx_from_int(i as i64), ox)))
            .add(&self.pixel_delta_v.scale(fx_add(fx_from_int(j as i64), oy)));
        let ray_origin = if self.defocus_tan_half <= 0 {
            self.center
        } else {
            self
                .center
                .add(&self.defocus_disk_u.scale(lens.x))
                .add(&self.defocus_disk_v.scale(lens.y))
        };
        Ray { origin: ray_origin, direction: pixel_sample.sub(&ray_origin) }
    }

    /// A jittered, lens-sampled ray toward pixel `(i, j)`: the jitter is
    /// uniform in the pixel square, the lens point uniform in the unit
    /// disk.
    pub fn get_ray(&self, i: usize, j: usize, rng: &mut RandomSource) -> (r: Ray)
        requires
            i <= 0xffff_ffff,
            j <= 0xffff_ffff,
        ensures
            exists|ox: int, oy: int, lens: Vec3|
                -32768 <= ox < 32768 && -32768 <= oy < 32768
                    && lens.z == 0 && crate::vec3::len_sq_s(lens) < FX_ONE as int
                    && r == get_ray_at_s(*self, i as int, j as int, ox, oy, lens),
    {
        let ox = fx_sub(random_scalar(rng), 32768);
        let oy = fx_sub(random_scalar(rng), 32768);
        let lens = random_in_unit_disk(rng);
        let r = self.get_ray_at(i, j, ox, oy, lens);
        proof {
            assert(-32768 <= ox as int && (ox as int) < 32768
                && -32768 <= oy as int && (oy as int) < 32768
                && lens.z == 0 && crate::vec3::len_sq_s(lens) < FX_ONE as int
                && r == get_ray_at_s(*self, i as int, j as int, ox as int, oy as int, lens));
        }
        r
    }

    /// The light along a ray: black once the depth budget is exhausted;
    /// on a hit, the struck material's attenuation times the light along
    /// the scattered ray; on a miss, the background gradient. The result
    /// is always a color in `[0, 1]` per channel, and always one the
    /// integration recursion admits for this ray (`ray_color_rel`), the
    /// random draws existentially quantified.
    pub fn ray_color(
        ray: &Ray,
        depth: u32,
        world: &BVHNode,
        materials: &Vec<Material>,
        rng: &mut RandomSource,
    ) -> (c: Vec3)
        requires
            materials_wf(materials@),
            node_mats_ok(*world, materials@.len() as int),
        ensures
            crate::material::color_wf(c),
            ray_color_rel(*world, materials@, *ray, depth as int, c),
            depth == 0 ==> c == (Vec3 { x: 0, y: 0, z: 0 }),
            depth > 0 && node_hit_s(*world, *ray, (Interval { min: T_MIN_EPS, max: i64::MAX }))
                is None ==> c == background_color_s(*ray),
        decreases depth,
    {
        if depth == 0 {
            return Vec3 { x: 0, y: 0, z: 0 };
        }
        let mut rec = HitRecord::new();

        if world.hit(ray, Interval::from_range(T_MIN_EPS, i64::MAX), &mut rec) {
            proof {
                lemma_node_winner_in_tree(*world, *ray, (Interval { min: T_MIN_EPS, max: i64::MAX }));
            }
            match rec.mat {
                Some(mi) => {
                    let material = &materials[mi];
                    match material.scatter(ray, &rec, rng) {
                        Some(sc) => {
                            let bounce = Self::ray_color(&sc.scattered, depth - 1, world, materials, rng);
                            let shaded = sc.attenuation.mul(&bounce);
                            proof {
                                crate::material::lemma_attenuation_wf(materials@[mi as int]);
                                crate::fixed::lemma_fx_mul_unit_range(
                                    sc.attenuation.x as int, bounce.x as int);
                                crate::fixed::lemma_fx_mul_unit_range(
                                    sc.attenuation.y as int, bounce.y as int);
                                crate::fixed::lemma_fx_mul_unit_range(
                                    sc.attenuation.z as int, bounce.z as int);
                                let q = node_hit_s(*world, *ray,
                                    Interval { min: T_MIN_EPS, max: i64::MAX })->0;
                                assert(rec == crate::sphere::sphere_hit_record_s(q.1, *ray, q.0));
                                assert(crate::material::scatter_post(materials@[q.1.mat as int],
                                    *ray, crate::sphere::sphere_hit_record_s(q.1, *ray, q.0),
                                    Some(sc)));
                                assert(ray_color_rel(*world, materials@, sc.scattered,
                                    depth as int - 1, bounce));
                                assert(shaded == crate::vec3::vmul_s(sc.attenuation, bounce));
                                assert(ray_color_rel(*world, materials@, *ray, depth as int, shaded));
                            }
                            shaded
                        },
                        None => Vec3 { x: 0, y: 0, z: 0 },
                    }
                },
                None => Vec3 { x: 0, y: 0, z: 0 },
            }
        } else {
            background_color(ray)
        }
    }

    /// The color of one pixel: the average of `samples_per_pixel`
    /// independent sample rays — exactly some admissible sample sum,
    /// scaled by the per-sample weight.
    #[verifier::rlimit(100)]
    pub fn render_pixel(
        &self,
        i: usize,
        j: usize,
        world: &BVHNode,
        materials: &Vec<Material>,
        rng: &mut RandomSource,
    ) -> (c: Vec3)
        requires
            config_wf(*self),
            i <= 0xffff_ffff,
            j <= 0xffff_ffff,
            self.pixel_samples_scale as int == pixel_samples_scale_s(*self),
            materials_wf(materials@),
            node_mats_ok(*world, materials@.len() as int),
        ensures
            crate::material::color_wf(c),
            exists|sum: Vec3|
                #[trigger] pixel_sum_rel(*self, *world, materials@, i as int, j as int,
                    self.samples_per_pixel as int, sum)
                    && c == vscale_s(sum, self.pixel_samples_scale as int),
    {
        let mut pixel_color = Vec3 { x: 0, y: 0, z: 0 };
        let mut sample: usize = 0;
        let spp = self.samples_per_pixel;
        while sample < spp
            invariant
                config_wf(*self),
                i <= 0xffff_ffff,
                j <= 0xffff_ffff,
                self.pixel_samples_scale as int == pixel_samples_scale_s(*self),
                materials_wf(materials@),
                node_mats_ok(*world, materials@.len() as int),
                sample <= spp,
                spp == self.samples_per_pixel,
                pixel_sum_rel(*self, *world, materials@, i as int, j as int, sample as int, pixel_color),
                0 <= pixel_color.x as int <= sample as int * FX_ONE as int,
                0 <= pixel_color.y as int <= sample as int * FX_ONE as int,
                0 <= pixel_color.z as int <= sample as int * FX_ONE as int,
            decreases spp - sample,
        {
            let ray = self.get_ray(i, j, rng);
            let sample_color = Self::ray_color(&ray, self.max_depth, world, materials, rng);
            proof {
                assert(sample as int * FX_ONE as int + FX_ONE as int
                    == (sample as int + 1) * FX_ONE as int) by (nonlinear_arith);
                assert((sample as int + 1) * FX_ONE as int <= 65536 * 65536) by (nonlinear_arith)
                    requires
                        0 <= sample as int + 1 <= 65536,
                ;
                let (ox, oy, lens): (int, int, Vec3) = choose|ox: int, oy: int, lens: Vec3|
                    -32768 <= ox < 32768 && -32768 <= oy < 32768
                        && lens.z == 0 && crate::vec3::len_sq_s(lens) < FX_ONE as int
                        && ray == get_ray_at_s(*self, i as int, j as int, ox, oy, lens);
                assert(ray_color_rel(*world, materials@,
                    get_ray_at_s(*self, i as int, j as int, ox, oy, lens),
                    self.max_depth as int, sample_color));
                assert(pixel_sample_rel(*self, *world, materials@, i as int, j as int, sample_color));
                assert(pixel_sum_rel(*self, *world, materials@, i as int, j as int,
                    sample as int, pixel_color)
                    && vadd_s(pixel_color, sample_color) == vadd_s(pixel_color, sample_color));
                assert(pixel_sum_rel(*self, *world, materials@, i as int, j as int,
                    sample as int + 1, vadd_s(pixel_color, sample_color)));
            }
            pixel_color = pixel_color.add(&sample_color);
            sample = sample + 1;
        }
        let scaled = pixel_color.scale(self.pixel_samples_scale);
        proof {
            lemma_average_in_range(*self, pixel_color);
            assert(pixel_sum_rel(*self, *world, materials@, i as int, j as int,
                self.samples_per_pixel as int, pixel_color)
                && scaled == vscale_s(pixel_color, self.pixel_samples_scale as int));
        }
        scaled
    }

    /// Render the scene into pixel byte triples in row-major, top-down,
    /// left-to-right order: `image_height` rows of `image_width` pixels,
    /// where the entry at `row * width + column` holds the
    /// gamma-corrected, clamped bytes of an admissible sample average of
    /// exactly that pixel.
    #[verifier::rlimit(100)]
    pub fn render(
        &mut self,
        world: &BVHNode,
        materials: &Vec<Material>,
        rng: &mut RandomSource,
    ) -> (pixels: Vec<(u8, u8, u8)>)
        requires
            config_wf(*old(self)),
            materials_wf(materials@),
            node_mats_ok(*world, materials@.len() as int),
        ensures
            initialized_s(*old(self), *final(self)),
            pixels@.len() == image_height_s(*old(self)) * old(self).image_width as int,
            forall|jj: int, ii: int|
                0 <= jj < image_height_s(*old(self)) && 0 <= ii < old(self).image_width as int
                    ==> #[trigger] pixel_bytes_rel(*final(self), *world, materials@, ii, jj,
                        pixels@[jj * old(self).image_width as int + ii]),
    {
        self.initialize();
        proof {
            lemma_height_bounds(*old(self));
        }
        let mut pixels: Vec<(u8, u8, u8)> = Vec::new();
        let height = self.image_height;
        let width = self.image_width;
        let mut j: usize = 0;
        while j < height
            invariant
                config_wf(*self),
                self.pixel_samples_scale as int == pixel_samples_scale_s(*self),
                materials_wf(materials@),
                node_mats_ok(*world, materials@.len() as int),
                j <= height,
                height == self.image_height,
                height <= 0x1_0000_0000,
                width == self.image_width,
                pixels@.len() == j as int * width as int,
                forall|jj: int, ii: int|
                    0 <= jj < j as int && 0 <= ii < width as int
                        ==> #[trigger] pixel_bytes_rel(*self, *world, materials@, ii, jj,
                            pixels@[jj * width as int + ii]),
            decreases height - j,
        {
            let mut i: usize = 0;
            while i < width
                invariant
                    config_wf(*self),
                    self.pixel_samples_scale as int == pixel_samples_scale_s(*self),
                    materials_wf(materials@),
                    node_mats_ok(*world, materials@.len() as int),
                    i <= width,
                    j < height,
                    height == self.image_height,
                    height <= 0x1_0000_0000,
                    width == self.image_width,
                    pixels@.len() == j as int * width as int + i as int,
                    forall|jj: int, ii: int|
                        0 <= jj < j as int && 0 <= ii < width as int
                            ==> #[trigger] pixel_bytes_rel(*self, *world, materials@, ii, jj,
                                pixels@[jj * width as int + ii]),
                    forall|ii: int|
                        0 <= ii < i as int
                            ==> #[trigger] pixel_bytes_rel(*self, *world, materials@, ii, j as int,
                                pixels@[j as int * width as int + ii]),
                decreases width - i,
            {
                let pixel_color = self.render_pixel(i, j, world, materials, rng);
                let bytes = write_color(&pixel_color);
                proof {
                    let sum = choose|sum: Vec3|
                        #[trigger] pixel_sum_rel(*self, *world, materials@, i as int, j as int,
                            self.samples_per_pixel as int, sum)
                            && pixel_color == vscale_s(sum, self.pixel_samples_scale as int);
                    assert(pixel_sum_rel(*self, *world, materials@, i as int, j as int,
                        self.samples_per_pixel as int, sum)
                        && bytes.0 as int
                            == crate::color::byte_s(vscale_s(sum, self.pixel_samples_scale as int).x as int)
                        && bytes.1 as int
                            == crate::color::byte_s(vscale_s(sum, self.pixel_samples_scale as int).y as int)
                        && bytes.2 as int
                            == crate::color::byte_s(vscale_s(sum, self.pixel_samples_scale as int).z as int));
                    assert(pixel_bytes_rel(*self, *world, materials@, i as int, j as int, bytes));
                }
                let ghost pixels_pre = pixels@;
                pixels.push(bytes);
                proof {
                    assert forall|jj: int, ii: int|
                        0 <= jj < j as int && 0 <= ii < width as int
                            implies #[trigger] pixel_bytes_rel(*self, *world, materials@, ii, jj,
                                pixels@[jj * width as int + ii]) by {
                        assert(jj * width as int + ii < pixels_pre.len()) by (nonlinear_arith)
                            requires
                                0 <= jj < j as int,
                                0 <= ii < width as int,
                                pixels_pre.len() == j as int * width as int + i as int,
                                0 <= i as int,
                        ;
                        assert(pixels@[jj * width as int + ii] == pixels_pre[jj * width as int + ii]);
                    }
                    assert forall|ii: int|
                        0 <= ii < i as int + 1
                            implies #[trigger] pixel_bytes_rel(*self, *world, materials@, ii, j as int,
                                pixels@[j as int * width as int + ii]) by {
                        if ii < i as int {
                            assert(pixels@[j as int * width as int + ii]
                                == pixels_pre[j as int * width as int + ii]);
                        } else {
                            assert(j as int * width as int + ii == pixels_pre.len() as int);
                            assert(pixels@[j as int * width as int + ii] == bytes);
                        }
                    }
                }
                i = i + 1;
            }
            proof {
                assert(j as int * width as int + width as int
                    == (j as int + 1) * width as int) by (nonlinear_arith);
                assert forall|jj: int, ii: int|
                    0 <= jj < j as int + 1 && 0 <= ii < width as int
                        implies #[trigger] pixel_bytes_rel(*self, *world, materials@, ii, jj,
                            pixels@[jj * width as int + ii]) by {
                    if jj == j as int {
                        assert(pixel_bytes_rel(*self, *world, materials@, ii, j as int,
                            pixels@[j as int * width as int + ii]));
                    }
                }
            }
            j = j + 1;
        }
        pixels
    }
}

impl Default for Camera {
    /// The same fresh camera `new` yields.
    fn default() -> (r: Camera)
        ensures
            r == camera_default_s(),
            config_wf(r),
    {
        Camera::new()
    }
}

/// Initialization is idempotent: the derived fields depend on the
/// configuration alone, so deriving them a second time changes nothing.
pub proof fn lemma_initialize_idempotent(c0: Camera, c1: Camera, c2: Camera)
    requires
        initialized_s(c0, c1),
        initialized_s(c1, c2),
    ensures
        c2 == c1,
{
}

/// The derived height both fits the machine and stays positive.
proof fn lemma_height_bounds(c: Camera)
    requires
        config_wf(c),
    ensures
        0 <= floor_div(fx_div_s(sat64(c.image_width as int * 65536), c.aspect_ratio as int), 65536)
            < 0x1_0000_0000,
{
    let wfx = sat64(c.image_width as int * 65536);
    assert(wfx == c.image_width as int * 65536);
    assert(0 <= wfx * 65536 && wfx * 65536 <= 0xFFFF_0000_0000) by (nonlinear_arith)
        requires
            0 <= wfx <= 0xFFFF_0000,
    ;
    vstd::arithmetic::div_mod::lemma_div_basics(wfx * 65536);
    vstd::arithmetic::div_mod::lemma_div_is_ordered(0, wfx * 65536, c.aspect_ratio as int);
    vstd::arithmetic::div_mod::lemma_div_is_ordered_by_denominator(
        wfx * 65536, 1, c.aspect_ratio as int);
    let q = fx_div_s(wfx, c.aspect_ratio as int);
    assert(0 <= q && q <= 0xFFFF_0000_0000);
    vstd::arithmetic::div_mod::lemma_div_is_ordered(0, q, 65536);
    vstd::arithmetic::div_mod::lemma_div_is_ordered(q, 0xFFFF_0000_0000, 65536);
}

/// The scaled sample sum is again a color in `[0, 1]`: the sum of `n`
/// unit-bounded samples times the reciprocal of `n` cannot exceed one.
proof fn lemma_average_in_range(c: Camera, sum: Vec3)
    requires
        config_wf(c),
        c.pixel_samples_scale as int == pixel_samples_scale_s(c),
        0 <= sum.x as int <= c.samples_per_pixel as int * FX_ONE as int,
        0 <= sum.y as int <= c.samples_per_pixel as int * FX_ONE as int,
        0 <= sum.z as int <= c.samples_per_pixel as int * FX_ONE as int,
    ensures
        crate::material::color_wf(vscale_s(sum, c.pixel_samples_scale as int)),
{
    let n = c.samples_per_pixel as int;
    let s = FX_ONE as int;
    let scale = pixel_samples_scale_s(c);
    assert(c.pixel_samples_scale as int == scale) by {
        assert(sat64(n * s) == n * s) by (nonlinear_arith)
            requires
                1 <= n <= 65536,
                s == 65536,
        ;
    }
    lemma_channel_average(sum.x as int, n, scale);
    lemma_channel_average(sum.y as int, n, scale);
    lemma_channel_average(sum.z as int, n, scale);
}

/// One channel of the average stays in `[0, 1]`.
proof fn lemma_channel_average(ch: int, n: int, scale: int)
    requires
        1 <= n <= 65536,
        0 <= ch <= n * 65536,
        scale == fx_div_s(65536, sat64(n * 65536)),
    ensures
        0 <= fx_mul_s(ch, scale) <= 65536,
{
    let s = 65536int;
    assert(sat64(n * s) == n * s) by (nonlinear_arith)
        requires
            1 <= n <= 65536,
            s == 65536,
    ;
    // the reciprocal's quotient is exactly s / n
    vstd::arithmetic::div_mod::lemma_div_multiples_vanish_quotient(s, s, n);
    assert(n * s == s * n) by (nonlinear_arith);
    assert(floor_div(s * s, n * s) == s / n);
    vstd::arithmetic::div_mod::lemma_div_is_ordered(0, s, n);
    assert(scale == s / n);
    // so the scaled sum is at most (n * s) * (s / n) <= s * s
    vstd::arithmetic::div_mod::lemma_fundamental_div_mod(s, n);
    assert(n * (s / n) <= s) by (nonlinear_arith)
        requires
            1 <= n,
            s == n * (s / n) + s % n,
            0 <= s % n,
    ;
    assert(0 <= ch * scale <= s * s) by (nonlinear_arith)
        requires
            0 <= ch <= n * s,
            0 <= scale,
            scale == s / n,
            n * (s / n) <= s,
            s == 65536,
    ;
    vstd::arithmetic::div_mod::lemma_div_is_ordered(0, ch * scale, s);
    vstd::arithmetic::div_mod::lemma_div_is_ordered(ch * scale, s * s, s);
    crate::fixed::lemma_div_exact(s * s, s, s);
}

} // verus!

//! Material scattering: diffuse, specular-with-roughness, and dielectric
//! refraction.
//!
//! Each concrete material exposes a deterministic scatter function whose
//! random inputs (a rough unit sample, a uniform draw) are arguments, so
//! its contract is exact for every draw; the `Material` dispatch draws
//! them from the explicit random source and is verified for every
//! outcome.

use vstd::prelude::*;

verus! {

use crate::fixed::{fx_add, fx_sub, fx_mul, fx_div, fx_sqrt, fx_pow, FX_ONE};
use crate::fixed::{fx_add_s, fx_sub_s, fx_mul_s, fx_div_s, fx_sqrt_s, fx_pow_s};
use crate::vec3::{Vec3, vadd_s, vscale_s, vneg_s, dot_s, unit_s, reflect_s, refract_s};
use crate::vec3::{dot, reflect, refract, unit_vector, random_unit_vector};
use crate::ray::Ray;
use crate::hittable::HitRecord;
use crate::rng::{RandomSource, random_scalar};

/// A diffuse surface.
#[derive(Clone, Copy, PartialEq, Eq, Structural, Debug)]
pub struct Lambertian {
    pub albedo: Vec3,
}

/// A specular surface with a roughness (fuzz) radius in `[0, 1]`.
#[derive(Clone, Copy, PartialEq, Eq, Structural, Debug)]
pub struct Metal {
    pub albedo: Vec3,
    pub fuzz: i64,
}

/// A clear refractive surface with the given index.
#[derive(Clone, Copy, PartialEq, Eq, Structural, Debug)]
pub struct Dielectric {
    pub refraction_index: i64,
}

/// The closed set of material kinds a surface can carry.
#[derive(Clone, Copy, PartialEq, Eq, Structural, Debug)]
pub enum Material {
    Lambertian(Lambertian),
    Metal(Metal),
    Dielectric(Dielectric),
}

/// An accepted scatter: the color filter applied to the continuing ray,
/// and the continuing ray itself.
#[derive(Clone, Copy, Debug)]
pub struct ScatterResult {
    pub attenuation: Vec3,
    pub scattered: Ray,
}

/// Whether `v` is a plausible result of the rough unit sampler.
pub open spec fn unit_sample_s(v: Vec3) -> bool {
    &&& -(FX_ONE as int + 2) <= v.x as int <= FX_ONE as int + 2
    &&& -(FX_ONE as int + 2) <= v.y as int <= FX_ONE as int + 2
    &&& -(FX_ONE as int + 2) <= v.z as int <= FX_ONE as int + 2
}

/// The diffuse scatter direction: normal plus unit sample, falling back
/// to the normal itself when the sum cancels to zero.
pub open spec fn lambertian_dir_s(normal: Vec3, ruv: Vec3) -> Vec3 {
    let d = vadd_s(normal, ruv);
    if d == (Vec3 { x: 0, y: 0, z: 0 }) {
        normal
    } else {
        d
    }
}

/// The specular scatter direction: the mirror reflection perturbed by
/// `fuzz` times the unit sample.
pub open spec fn metal_dir_s(vin: Vec3, normal: Vec3, fuzz: int, ruv: Vec3) -> Vec3 {
    vadd_s(reflect_s(vin, normal), vscale_s(ruv, fuzz))
}

/// The effective refraction ratio: inverted when the ray strikes the
/// outside of the surface.
pub open spec fn dielectric_ratio_s(d: Dielectric, front_face: bool) -> int {
    if front_face {
        fx_div_s(FX_ONE as int, d.refraction_index as int)
    } else {
        d.refraction_index as int
    }
}

/// The exponent of Schlick's polynomial approximation. The standard
/// reference value; held as a named constant so it can be recalibrated
/// in one place.
pub const SCHLICK_EXPONENT: u32 = 5;

/// Schlick's polynomial approximation of the Fresnel reflectance.
pub open spec fn reflectance_s(cos: int, ri: int) -> int {
    let r0q = fx_div_s(fx_sub_s(FX_ONE as int, ri), fx_add_s(FX_ONE as int, ri));
    let r0 = fx_mul_s(r0q, r0q);
    let om = fx_sub_s(FX_ONE as int, cos);
    fx_add_s(r0, fx_mul_s(fx_sub_s(FX_ONE as int, r0), fx_pow_s(om, SCHLICK_EXPONENT as nat)))
}

/// The refractive scatter direction for a given uniform draw: reflect on
/// total internal reflection or when the reflectance exceeds the draw,
/// otherwise refract.
pub open spec fn dielectric_dir_s(d: Dielectric, vin: Vec3, normal: Vec3, front_face: bool, draw: int) -> Vec3 {
    let ri = dielectric_ratio_s(d, front_face);
    let unit_dir = unit_s(vin);
    let cos_raw = dot_s(vneg_s(unit_dir), normal);
    let cos = if cos_raw > FX_ONE as int { FX_ONE as int } else { cos_raw };
    let sin = fx_sqrt_s(fx_sub_s(FX_ONE as int, fx_mul_s(cos, cos)));
    let cannot_refract = fx_mul_s(ri, sin) > FX_ONE as int;
    if cannot_refract || reflectance_s(cos, ri) > draw {
        reflect_s(unit_dir, normal)
    } else {
        refract_s(unit_dir, normal, ri)
    }
}

/// A color with every channel in `[0, 1]`.
pub open spec fn color_wf(v: Vec3) -> bool {
    &&& 0 <= v.x <= FX_ONE
    &&& 0 <= v.y <= FX_ONE
    &&& 0 <= v.z <= FX_ONE
}

/// A physically sensible material: albedo channels in `[0, 1]`, fuzz in
/// `[0, 1]`, a positive refraction index.
pub open spec fn material_wf(m: Material) -> bool {
    match m {
        Material::Lambertian(l) => color_wf(l.albedo),
        Material::Metal(mm) => color_wf(mm.albedo) && 0 <= mm.fuzz <= FX_ONE,
        Material::Dielectric(d) => d.refraction_index > 0,
    }
}

/// Every material of the arena is well-formed.
pub open spec fn materials_wf(ms: Seq<Material>) -> bool {
    forall|i: int| 0 <= i < ms.len() ==> material_wf(#[trigger] ms[i])
}

/// A well-formed material's attenuation is itself a color in `[0, 1]`.
pub proof fn lemma_attenuation_wf(m: Material)
    requires
        material_wf(m),
    ensures
        color_wf(scatter_attenuation_s(m)),
{
}

/// The color filter a scatter applies: the albedo for diffuse and
/// specular surfaces, full transmission for dielectrics.
pub open spec fn scatter_attenuation_s(m: Material) -> Vec3 {
    match m {
        Material::Lambertian(l) => l.albedo,
        Material::Metal(mm) => mm.albedo,
        Material::Dielectric(_) => Vec3 { x: FX_ONE, y: FX_ONE, z: FX_ONE },
    }
}

/// What `Material::scatter` promises of its result for every draw the
/// random source can make.
pub open spec fn scatter_post(m: Material, r_in: Ray, rec: HitRecord, res: Option<ScatterResult>) -> bool {
    &&& res is Some
    &&& res->0.attenuation == scatter_attenuation_s(m)
    &&& res->0.scattered.origin == rec.p
    &&& match m {
        Material::Lambertian(_) => exists|ruv: Vec3|
            unit_sample_s(ruv) && res->0.scattered.direction == lambertian_dir_s(rec.normal, ruv),
        Material::Metal(mm) => exists|ruv: Vec3|
            unit_sample_s(ruv)
                && res->0.scattered.direction == metal_dir_s(r_in.direction, rec.normal, mm.fuzz as int, ruv),
        Material::Dielectric(d) => exists|draw: int|
            0 <= draw < FX_ONE as int
                && res->0.scattered.direction == dielectric_dir_s(d, r_in.direction, rec.normal, rec.front_face, draw),
    }
}

impl Lambertian {
    /// A diffuse material with the given albedo.
    pub fn new(albedo: Vec3) -> (r: Lambertian)
        ensures
            r.albedo == albedo,
    {
        Lambertian { albedo }
    }

    /// The scatter for a given unit sample: always continues, attenuated
    /// by the albedo.
    pub fn scatter(&self, rec: &HitRecord, ruv: Vec3) -> (r: ScatterResult)
        ensures
            r.attenuation == self.albedo,
            r.scattered.origin == rec.p,
            r.scattered.direction == lambertian_dir_s(rec.normal, ruv),
    {
        let mut scatter_direction = rec.normal.add(&ruv);
        if scatter_direction.near_zero() {
            scatter_direction = rec.normal;
        }
        ScatterResult {
            attenuation: self.albedo,
            scattered: Ray { origin: rec.p, direction: scatter_direction },
        }
    }
}

impl Metal {
    /// A specular material with the given albedo; the fuzz radius is
    /// clamped into `[0, 1]`.
    pub fn new(albedo: Vec3, fuzz: i64) -> (r: Metal)
        ensures
            r.albedo == albedo,
            r.fuzz as int == crate::interval::clamp_s(
                (crate::interval::Interval { min: 0, max: FX_ONE }), fuzz as int),
    {
        let f = if fuzz < 0 {
            0
        } else if fuzz > FX_ONE {
            FX_ONE
        } else {
            fuzz
        };
        Metal { albedo, fuzz: f }
    }

    /// The scatter for a given unit sample: the fuzzed mirror reflection,
    /// attenuated by the albedo.
    pub fn scatter(&self, r_in: &Ray, rec: &HitRecord, ruv: Vec3) -> (r: ScatterResult)
        ensures
            r.attenuation == self.albedo,
            r.scattered.origin == rec.p,
            r.scattered.direction == metal_dir_s(r_in.direction, rec.normal, self.fuzz as int, ruv),
    {
        let reflected = reflect(&r_in.direction, &rec.normal);
        let direction = reflected.add(&ruv.scale(self.fuzz));
        ScatterResult {
            attenuation: self.albedo,
            scattered: Ray { origin: rec.p, direction },
        }
    }
}

impl Dielectric {
    /// A clear material with the given refraction index.
    pub fn new(refraction_index: i64) -> (r: Dielectric)
        ensures
            r.refraction_index == refraction_index,
    {
        Dielectric { refraction_index }
    }

    /// The scatter for a given uniform draw: reflect or refract by
    /// Snell's law with Schlick reflectance; transmission is total, so
    /// the attenuation is white.
    pub fn scatter(&self, r_in: &Ray, rec: &HitRecord, draw: i64) -> (r: ScatterResult)
        ensures
            r.attenuation == (Vec3 { x: FX_ONE, y: FX_ONE, z: FX_ONE }),
            r.scattered.origin == rec.p,
            r.scattered.direction == dielectric_dir_s(*self, r_in.direction, rec.normal, rec.front_face, draw as int),
    {
        let ri = if rec.front_face {
            fx_div(FX_ONE, self.refraction_index)
        } else {
            self.refraction_index
        };
        let unit_dir = unit_vector(&r_in.direction);
        let cos_raw = dot(&unit_dir.neg(), &rec.normal);
        let cos = if cos_raw > FX_ONE { FX_ONE } else { cos_raw };
        let sin = fx_sqrt(fx_sub(FX_ONE, fx_mul(cos, cos)));
        let cannot_refract = fx_mul(ri, sin) > FX_ONE;
        let direction = if cannot_refract || self.reflectance(cos, ri) > draw {
            reflect(&unit_dir, &rec.normal)
        } else {
            refract(&unit_dir, &rec.normal, ri)
        };
        ScatterResult {
            attenuation: Vec3 { x: FX_ONE, y: FX_ONE, z: FX_ONE },
            scattered: Ray { origin: rec.p, direction },
        }
    }

    /// Schlick's approximation of the Fresnel reflectance.
    fn reflectance(&self, cos: i64, ri: i64) -> (r: i64)
        ensures
            r as int == reflectance_s(cos as int, ri as int),
    {
        let r0q = fx_div(fx_sub(FX_ONE, ri), fx_add(FX_ONE, ri));
        let r0 = fx_mul(r0q, r0q);
        let om = fx_sub(FX_ONE, cos);
        fx_add(r0, fx_mul(fx_sub(FX_ONE, r0), fx_pow(om, SCHLICK_EXPONENT)))
    }
}

impl Material {
    /// Decide whether and how the ray continues: every kind scatters,
    /// with the direction drawn as its model prescribes.
    pub fn scatter(&self, r_in: &Ray, rec: &HitRecord, rng: &mut RandomSource) -> (r: Option<ScatterResult>)
        ensures
            scatter_post(*self, *r_in, *rec, r),
    {
        match self {
            Material::Lambertian(l) => {
                let ruv = random_unit_vector(rng);
                let res = l.scatter(rec, ruv);
                proof {
                    assert(unit_sample_s(ruv)
                        && res.scattered.direction == lambertian_dir_s(rec.normal, ruv));
                }
                Some(res)
            },
            Material::Metal(m) => {
                let ruv = random_unit_vector(rng);
                let res = m.scatter(r_in, rec, ruv);
                proof {
                    assert(unit_sample_s(ruv)
                        && res.scattered.direction == metal_dir_s(r_in.direction, rec.normal, m.fuzz as int, ruv));
                }
                Some(res)
            },
            Material::Dielectric(d) => {
                let draw = random_scalar(rng);
                let res = d.scatter(r_in, rec, draw);
                proof {
                    assert(0 <= draw as int && (draw as int) < FX_ONE as int
                        && res.scattered.direction == dielectric_dir_s(*d, r_in.direction, rec.normal, rec.front_face, draw as int));
                }
                Some(res)
            },
        }
    }
}

/// For diffuse and specular materials the scatter attenuation is exactly
/// the albedo, so no channel of it ever exceeds the albedo's channel.
pub proof fn lemma_energy_non_amplification(m: Material)
    ensures
        match m {
            Material::Lambertian(l) => scatter_attenuation_s(m).x <= l.albedo.x
                && scatter_attenuation_s(m).y <= l.albedo.y
                && scatter_attenuation_s(m).z <= l.albedo.z,
            Material::Metal(mm) => scatter_attenuation_s(m).x <= mm.albedo.x
                && scatter_attenuation_s(m).y <= mm.albedo.y
                && scatter_attenuation_s(m).z <= mm.albedo.z,
            Material::Dielectric(_) => scatter_attenuation_s(m) == (Vec3 {
                x: FX_ONE,
                y: FX_ONE,
                z: FX_ONE,
            }),
        },
{
}

} // verus!

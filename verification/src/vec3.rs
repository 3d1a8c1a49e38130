//! Three-component fixed-point vectors, used interchangeably as points,
//! directions and RGB colors.

use vstd::prelude::*;

verus! {

use crate::fixed::{fx_add, fx_sub, fx_mul, fx_div, fx_sqrt, FX_ONE};
use crate::fixed::{fx_add_s, fx_sub_s, fx_mul_s, fx_div_s, fx_sqrt_s};
use crate::rng::{RandomSource, random_scalar, random_scalar_range};

#[derive(Clone, Copy, PartialEq, Eq, Structural, Debug)]
pub struct Vec3 {
    pub x: i64,
    pub y: i64,
    pub z: i64,
}

/// A point is a vector from the scene origin.
pub type Point3 = Vec3;

/// Componentwise saturating sum.
pub open spec fn vadd_s(u: Vec3, v: Vec3) -> Vec3 {
    Vec3 {
        x: fx_add_s(u.x as int, v.x as int) as i64,
        y: fx_add_s(u.y as int, v.y as int) as i64,
        z: fx_add_s(u.z as int, v.z as int) as i64,
    }
}

/// Componentwise saturating difference.
pub open spec fn vsub_s(u: Vec3, v: Vec3) -> Vec3 {
    Vec3 {
        x: fx_sub_s(u.x as int, v.x as int) as i64,
        y: fx_sub_s(u.y as int, v.y as int) as i64,
        z: fx_sub_s(u.z as int, v.z as int) as i64,
    }
}

/// Componentwise saturating product.
pub open spec fn vmul_s(u: Vec3, v: Vec3) -> Vec3 {
    Vec3 {
        x: fx_mul_s(u.x as int, v.x as int) as i64,
        y: fx_mul_s(u.y as int, v.y as int) as i64,
        z: fx_mul_s(u.z as int, v.z as int) as i64,
    }
}

/// The vector scaled by `t`.
pub open spec fn vscale_s(v: Vec3, t: int) -> Vec3 {
    Vec3 {
        x: fx_mul_s(v.x as int, t) as i64,
        y: fx_mul_s(v.y as int, t) as i64,
        z: fx_mul_s(v.z as int, t) as i64,
    }
}

/// The vector divided by `t`.
pub open spec fn vdiv_s(v: Vec3, t: int) -> Vec3 {
    Vec3 {
        x: fx_div_s(v.x as int, t) as i64,
        y: fx_div_s(v.y as int, t) as i64,
        z: fx_div_s(v.z as int, t) as i64,
    }
}

/// The negated vector (a saturating subtraction from zero).
pub open spec fn vneg_s(v: Vec3) -> Vec3 {
    Vec3 {
        x: fx_sub_s(0, v.x as int) as i64,
        y: fx_sub_s(0, v.y as int) as i64,
        z: fx_sub_s(0, v.z as int) as i64,
    }
}

/// The fixed-point dot product.
pub open spec fn dot_s(u: Vec3, v: Vec3) -> int {
    fx_add_s(
        fx_add_s(fx_mul_s(u.x as int, v.x as int), fx_mul_s(u.y as int, v.y as int)),
        fx_mul_s(u.z as int, v.z as int),
    )
}

/// The fixed-point cross product.
pub open spec fn cross_s(u: Vec3, v: Vec3) -> Vec3 {
    Vec3 {
        x: fx_sub_s(fx_mul_s(u.y as int, v.z as int), fx_mul_s(u.z as int, v.y as int)) as i64,
        y: fx_sub_s(fx_mul_s(u.z as int, v.x as int), fx_mul_s(u.x as int, v.z as int)) as i64,
        z: fx_sub_s(fx_mul_s(u.x as int, v.y as int), fx_mul_s(u.y as int, v.x as int)) as i64,
    }
}

/// The squared length.
pub open spec fn len_sq_s(v: Vec3) -> int {
    dot_s(v, v)
}

/// The length: the rounded-down square root of the squared length.
pub open spec fn length_s(v: Vec3) -> int {
    fx_sqrt_s(len_sq_s(v))
}

/// The vector divided by its own length.
pub open spec fn unit_s(v: Vec3) -> Vec3 {
    vdiv_s(v, length_s(v))
}

/// The component along axis `i` (`0` is x, `1` is y, `2` is z).
pub open spec fn axis_s(v: Vec3, i: int) -> int {
    if i == 0 {
        v.x as int
    } else if i == 1 {
        v.y as int
    } else {
        v.z as int
    }
}

/// Mirror reflection of `v` about the normal `n`.
pub open spec fn reflect_s(v: Vec3, n: Vec3) -> Vec3 {
    vsub_s(v, vscale_s(n, fx_add_s(dot_s(v, n), dot_s(v, n))))
}

/// Snell-law refraction of the unit direction `uv` at a surface with
/// normal `n`, for the given ratio of refractive indices. The cosine is
/// capped at one; the radicand of the parallel component is taken by
/// magnitude, as the real-valued formula does.
pub open spec fn refract_s(uv: Vec3, n: Vec3, etai_over_etat: int) -> Vec3 {
    let cos_raw = dot_s(vneg_s(uv), n);
    let cos = if cos_raw > FX_ONE as int { FX_ONE as int } else { cos_raw };
    let r_out_perp = vscale_s(vadd_s(uv, vscale_s(n, cos)), etai_over_etat);
    let k = fx_sub_s(FX_ONE as int, len_sq_s(r_out_perp));
    let kabs = if k < 0 { fx_sub_s(0, k) } else { k };
    let r_out_parallel = vscale_s(n, fx_sub_s(0, fx_sqrt_s(kabs)));
    vadd_s(r_out_perp, r_out_parallel)
}

/// Snell-law refraction of the unit direction `uv` about the normal `n`.
pub fn refract(uv: &Vec3, n: &Vec3, etai_over_etat: i64) -> (r: Vec3)
    ensures
        r == refract_s(*uv, *n, etai_over_etat as int),
{
    let cos_raw = dot(&uv.neg(), n);
    let cos = if cos_raw > FX_ONE { FX_ONE } else { cos_raw };
    let r_out_perp = uv.add(&n.scale(cos)).scale(etai_over_etat);
    let k = fx_sub(FX_ONE, r_out_perp.length_squared());
    let kabs = if k < 0 { fx_sub(0, k) } else { k };
    let r_out_parallel = n.scale(fx_sub(0, fx_sqrt(kabs)));
    r_out_perp.add(&r_out_parallel)
}

impl Vec3 {
    /// The zero vector.
    pub fn new() -> (r: Vec3)
        ensures
            r == (Vec3 { x: 0, y: 0, z: 0 }),
    {
        Vec3 { x: 0, y: 0, z: 0 }
    }

    /// The vector with the given components.
    pub fn from_values(e0: i64, e1: i64, e2: i64) -> (r: Vec3)
        ensures
            r == (Vec3 { x: e0, y: e1, z: e2 }),
    {
        Vec3 { x: e0, y: e1, z: e2 }
    }

    /// The first component.
    pub fn x(&self) -> (r: i64)
        ensures
            r == self.x,
    {
        self.x
    }

    /// The second component.
    pub fn y(&self) -> (r: i64)
        ensures
            r == self.y,
    {
        self.y
    }

    /// The third component.
    pub fn z(&self) -> (r: i64)
        ensures
            r == self.z,
    {
        self.z
    }

    /// The component along axis `i`.
    pub fn axis(&self, i: usize) -> (r: i64)
        requires
            i < 3,
        ensures
            r as int == axis_s(*self, i as int),
    {
        if i == 0 {
            self.x
        } else if i == 1 {
            self.y
        } else {
            self.z
        }
    }

    /// Componentwise sum.
    pub fn add(&self, v: &Vec3) -> (r: Vec3)
        ensures
            r == vadd_s(*self, *v),
    {
        Vec3 { x: fx_add(self.x, v.x), y: fx_add(self.y, v.y), z: fx_add(self.z, v.z) }
    }

    /// Componentwise difference.
    pub fn sub(&self, v: &Vec3) -> (r: Vec3)
        ensures
            r == vsub_s(*self, *v),
    {
        Vec3 { x: fx_sub(self.x, v.x), y: fx_sub(self.y, v.y), z: fx_sub(self.z, v.z) }
    }

    /// Componentwise product (used for color attenuation).
    pub fn mul(&self, v: &Vec3) -> (r: Vec3)
        ensures
            r == vmul_s(*self, *v),
    {
        Vec3 { x: fx_mul(self.x, v.x), y: fx_mul(self.y, v.y), z: fx_mul(self.z, v.z) }
    }

    /// The vector scaled by `t`.
    pub fn scale(&self, t: i64) -> (r: Vec3)
        ensures
            r == vscale_s(*self, t as int),
    {
        Vec3 { x: fx_mul(self.x, t), y: fx_mul(self.y, t), z: fx_mul(self.z, t) }
    }

    /// The vector divided by `t`.
    pub fn div_scalar(&self, t: i64) -> (r: Vec3)
        ensures
            r == vdiv_s(*self, t as int),
    {
        Vec3 { x: fx_div(self.x, t), y: fx_div(self.y, t), z: fx_div(self.z, t) }
    }

    /// The negated vector.
    pub fn neg(&self) -> (r: Vec3)
        ensures
            r == vneg_s(*self),
    {
        Vec3 { x: fx_sub(0, self.x), y: fx_sub(0, self.y), z: fx_sub(0, self.z) }
    }

    /// The squared length.
    pub fn length_squared(&self) -> (r: i64)
        ensures
            r as int == len_sq_s(*self),
    {
        let xx = fx_mul(self.x, self.x);
        let yy = fx_mul(self.y, self.y);
        let zz = fx_mul(self.z, self.z);
        fx_add(fx_add(xx, yy), zz)
    }

    /// The length.
    pub fn length(&self) -> (r: i64)
        ensures
            r as int == length_s(*self),
            r >= 0,
    {
        fx_sqrt(self.length_squared())
    }

    /// Whether every component is zero. A fixed-point unit is already
    /// far coarser than the near-zero threshold a real-valued renderer
    /// uses, so only the exact zero counts as degenerate.
    pub fn near_zero(&self) -> (r: bool)
        ensures
            r == (self.x == 0 && self.y == 0 && self.z == 0),
    {
        self.x == 0 && self.y == 0 && self.z == 0
    }

    /// A vector with components drawn uniformly from `[0, 1)`.
    pub fn random(rng: &mut RandomSource) -> (r: Vec3)
        ensures
            0 <= r.x < FX_ONE,
            0 <= r.y < FX_ONE,
            0 <= r.z < FX_ONE,
    {
        let e0 = random_scalar(rng);
        let e1 = random_scalar(rng);
        let e2 = random_scalar(rng);
        Vec3 { x: e0, y: e1, z: e2 }
    }

    /// A vector with components drawn uniformly from `[min, max)`.
    pub fn random_range(rng: &mut RandomSource, min: i64, max: i64) -> (r: Vec3)
        requires
            min < max,
            max as int - min as int <= i64::MAX as int,
        ensures
            min <= r.x < max,
            min <= r.y < max,
            min <= r.z < max,
    {
        let e0 = random_scalar_range(rng, min, max);
        let e1 = random_scalar_range(rng, min, max);
        let e2 = random_scalar_range(rng, min, max);
        Vec3 { x: e0, y: e1, z: e2 }
    }
}

/// The dot product.
pub fn dot(u: &Vec3, v: &Vec3) -> (r: i64)
    ensures
        r as int == dot_s(*u, *v),
{
    let xx = fx_mul(u.x, v.x);
    let yy = fx_mul(u.y, v.y);
    let zz = fx_mul(u.z, v.z);
    fx_add(fx_add(xx, yy), zz)
}

/// The cross product.
pub fn cross(u: &Vec3, v: &Vec3) -> (r: Vec3)
    ensures
        r == cross_s(*u, *v),
{
    Vec3 {
        x: fx_sub(fx_mul(u.y, v.z), fx_mul(u.z, v.y)),
        y: fx_sub(fx_mul(u.z, v.x), fx_mul(u.x, v.z)),
        z: fx_sub(fx_mul(u.x, v.y), fx_mul(u.y, v.x)),
    }
}

/// The vector divided by its own length. The caller is responsible for a
/// nondegenerate argument, as for the real-valued counterpart: a zero
/// vector yields zero (division by a zero length is saturated, not an
/// error).
pub fn unit_vector(v: &Vec3) -> (r: Vec3)
    ensures
        r == unit_s(*v),
{
    let len = v.length();
    v.div_scalar(len)
}

/// Mirror reflection of `v` about the normal `n`.
pub fn reflect(v: &Vec3, n: &Vec3) -> (r: Vec3)
    ensures
        r == reflect_s(*v, *n),
{
    let d = dot(v, n);
    let twice = fx_add(d, d);
    v.sub(&n.scale(twice))
}

/// What the rejection sampler can yield: a point of the cube `[-1, 1)^3`
/// whose squared length lies in the shell between one quarter and one,
/// divided by its own rounded length — or, if every bounded retry
/// missed, the z axis.
pub open spec fn unit_vector_sample_s(v: Vec3) -> bool {
    ||| v == (Vec3 { x: 0, y: 0, z: FX_ONE })
    ||| exists|p: Vec3|
        #![trigger vdiv_s(p, fx_sqrt_s(len_sq_s(p)))]
        -FX_ONE <= p.x < FX_ONE && -FX_ONE <= p.y < FX_ONE && -FX_ONE <= p.z < FX_ONE
            && FX_ONE as int / 4 <= len_sq_s(p) <= FX_ONE as int
            && v == vdiv_s(p, fx_sqrt_s(len_sq_s(p)))
}

/// A roughly unit-length vector drawn by rejection: points are sampled in
/// the cube `[-1, 1)^3` until one lands in the spherical shell between
/// radius one half and one, then that point is divided by its length.
/// (The shell's inner wall discards the tiny samples whose fixed-point
/// normalization would be badly inaccurate.) Rejection is bounded: after
/// 64 misses — vanishingly unlikely — the z axis is returned.
pub fn random_unit_vector(rng: &mut RandomSource) -> (r: Vec3)
    ensures
        unit_vector_sample_s(r),
        -(FX_ONE + 2) <= r.x <= FX_ONE + 2,
        -(FX_ONE + 2) <= r.y <= FX_ONE + 2,
        -(FX_ONE + 2) <= r.z <= FX_ONE + 2,
{
    let mut tries: usize = 0;
    while tries < 64
        invariant
            tries <= 64,
        decreases 64 - tries,
    {
        let p = Vec3::random_range(rng, -FX_ONE, FX_ONE);
        let lensq = p.length_squared();
        if FX_ONE / 4 <= lensq && lensq <= FX_ONE {
            let len = fx_sqrt(lensq);
            proof {
                lemma_normalize_bounds(p, lensq as int, len as int);
            }
            let r = p.div_scalar(len);
            proof {
                assert(len as int == fx_sqrt_s(len_sq_s(p)));
                assert(r == vdiv_s(p, fx_sqrt_s(len_sq_s(p))));
            }
            return r;
        }
        tries = tries + 1;
    }
    Vec3 { x: 0, y: 0, z: FX_ONE }
}

/// Division of a point in the accepted shell by its rounded length stays
/// within two units of the fixed-point one.
proof fn lemma_normalize_bounds(p: Vec3, lensq: int, len: int)
    requires
        lensq == len_sq_s(p),
        FX_ONE as int / 4 <= lensq <= FX_ONE as int,
        len == fx_sqrt_s(lensq),
    ensures
        -(FX_ONE as int + 2) <= fx_div_s(p.x as int, len) <= FX_ONE as int + 2,
        -(FX_ONE as int + 2) <= fx_div_s(p.y as int, len) <= FX_ONE as int + 2,
        -(FX_ONE as int + 2) <= fx_div_s(p.z as int, len) <= FX_ONE as int + 2,
{
    lemma_component_le_len(p, lensq, len, p.x as int);
    lemma_component_le_len(p, lensq, len, p.y as int);
    lemma_component_le_len(p, lensq, len, p.z as int);
    lemma_div_bound(p.x as int, len);
    lemma_div_bound(p.y as int, len);
    lemma_div_bound(p.z as int, len);
}

/// Any component of a vector in the accepted shell is bounded by the
/// rounded length plus one.
proof fn lemma_component_le_len(p: Vec3, lensq: int, len: int, c: int)
    requires
        lensq == len_sq_s(p),
        FX_ONE as int / 4 <= lensq <= FX_ONE as int,
        len == fx_sqrt_s(lensq),
        c == p.x as int || c == p.y as int || c == p.z as int,
    ensures
        -(len + 1) <= c <= len + 1,
        len >= 32768,
{
    let s = FX_ONE as int;
    assert(s == 65536);
    let qx = (p.x as int) * (p.x as int) / s;
    let qy = (p.y as int) * (p.y as int) / s;
    let qz = (p.z as int) * (p.z as int) / s;
    assert(0 <= qx && 0 <= qy && 0 <= qz) by (nonlinear_arith)
        requires
            qx == (p.x as int) * (p.x as int) / s,
            qy == (p.y as int) * (p.y as int) / s,
            qz == (p.z as int) * (p.z as int) / s,
            s == 65536,
    ;
    let mx = fx_mul_s(p.x as int, p.x as int);
    let my = fx_mul_s(p.y as int, p.y as int);
    let mz = fx_mul_s(p.z as int, p.z as int);
    assert(mx == crate::fixed::sat64(qx) && my == crate::fixed::sat64(qy)
        && mz == crate::fixed::sat64(qz));
    assert(0 <= mx && 0 <= my && 0 <= mz);
    // The saturating sum dominates each term, so each stays below lensq,
    // and below the saturation threshold the sum is exact.
    let m = if c == p.x as int { mx } else if c == p.y as int { my } else { mz };
    let q = if c == p.x as int { qx } else if c == p.y as int { qy } else { qz };
    assert(m <= lensq);
    assert(q == m);
    assert(c * c < (lensq + 1) * s) by (nonlinear_arith)
        requires
            q == c * c / s,
            q <= lensq,
            s == 65536,
    ;
    // The rounded square root of lensq * s dominates c up to one unit.
    let n = lensq * s;
    assert(len * len <= n && n < (len + 1) * (len + 1) && len >= 0) by {
        assert(n >= s) by (nonlinear_arith)
            requires
                lensq >= s / 4,
                s == 65536,
                n == lensq * s,
        ;
        crate::fixed::lemma_sqrt_floor_props(n);
    }
    assert(len >= 32768) by (nonlinear_arith)
        requires
            n < (len + 1) * (len + 1),
            n == lensq * s,
            lensq >= s / 4,
            s == 65536,
            len >= 0,
    ;
    assert(-(len + 1) <= c <= len + 1) by (nonlinear_arith)
        requires
            c * c < (lensq + 1) * s,
            n == lensq * s,
            len * len <= n,
            n < (len + 1) * (len + 1),
            len >= 32768,
            s == 65536,
    ;
}

/// Every vector's squared length is nonnegative.
pub proof fn lemma_len_sq_nonneg(v: Vec3)
    ensures
        len_sq_s(v) >= 0,
{
    crate::fixed::lemma_fx_square_nonneg(v.x as int);
    crate::fixed::lemma_fx_square_nonneg(v.y as int);
    crate::fixed::lemma_fx_square_nonneg(v.z as int);
}

/// Division of a component bounded by `len + 1` by `len` lands within two
/// units of one.
proof fn lemma_div_bound(c: int, len: int)
    requires
        len >= 32768,
        -(len + 1) <= c <= len + 1,
    ensures
        -(FX_ONE as int + 2) <= fx_div_s(c, len) <= FX_ONE as int + 2,
{
    let s = FX_ONE as int;
    assert(-((s + 2) * len) <= c * s <= (s + 2) * len) by (nonlinear_arith)
        requires
            -(len + 1) <= c <= len + 1,
            len >= 32768,
            s == 65536,
    ;
    assert(-(s + 2) <= c * s / len <= s + 2) by (nonlinear_arith)
        requires
            -((s + 2) * len) <= c * s <= (s + 2) * len,
            len >= 32768,
            s == 65536,
    ;
}

/// Negating a bounded vector lowers its dot product against any vector
/// by at most one rounding unit per component beyond the exact
/// negation.
proof fn lemma_dot_neg_bound(v: Vec3, n: Vec3)
    requires
        -(FX_ONE as int + 2) <= v.x as int <= FX_ONE as int + 2,
        -(FX_ONE as int + 2) <= v.y as int <= FX_ONE as int + 2,
        -(FX_ONE as int + 2) <= v.z as int <= FX_ONE as int + 2,
    ensures
        dot_s(vneg_s(v), n) >= -dot_s(v, n) - 3,
{
    crate::fixed::lemma_fx_mul_neg(v.x as int, n.x as int);
    crate::fixed::lemma_fx_mul_neg(v.y as int, n.y as int);
    crate::fixed::lemma_fx_mul_neg(v.z as int, n.z as int);
}

/// A roughly unit vector on the hemisphere around `normal`: the unit
/// sample where it points with the normal, else its negation. The
/// flipped vector's dot against the normal can dip below zero only by
/// the three components' rounding units.
pub fn random_on_hemisphere(rng: &mut RandomSource, normal: &Vec3) -> (r: Vec3)
    ensures
        -(FX_ONE + 2) <= r.x <= FX_ONE + 2,
        -(FX_ONE + 2) <= r.y <= FX_ONE + 2,
        -(FX_ONE + 2) <= r.z <= FX_ONE + 2,
        dot_s(r, *normal) >= -3,
        exists|s: Vec3|
            #![trigger unit_vector_sample_s(s)]
            unit_vector_sample_s(s)
                && ((dot_s(s, *normal) > 0 && r == s) || (dot_s(s, *normal) <= 0 && r == vneg_s(s))),
{
    let on_unit_sphere = random_unit_vector(rng);
    let d = dot(&on_unit_sphere, normal);
    if d > 0 {
        proof {
            assert(unit_vector_sample_s(on_unit_sphere)
                && dot_s(on_unit_sphere, *normal) > 0
                && vneg_s(on_unit_sphere) == vneg_s(on_unit_sphere));
        }
        on_unit_sphere
    } else {
        proof {
            lemma_dot_neg_bound(on_unit_sphere, *normal);
            assert(unit_vector_sample_s(on_unit_sphere)
                && dot_s(on_unit_sphere, *normal) <= 0
                && vneg_s(on_unit_sphere) == vneg_s(on_unit_sphere));
        }
        on_unit_sphere.neg()
    }
}

/// A point drawn uniformly by rejection from the unit disk in the x-y
/// plane. Rejection is bounded: after 64 misses — vanishingly unlikely —
/// the disk center is returned.
pub fn random_in_unit_disk(rng: &mut RandomSource) -> (r: Vec3)
    ensures
        r.z == 0,
        -FX_ONE <= r.x < FX_ONE,
        -FX_ONE <= r.y < FX_ONE,
        len_sq_s(r) < FX_ONE as int,
{
    let mut tries: usize = 0;
    while tries < 64
        invariant
            tries <= 64,
        decreases 64 - tries,
    {
        let e0 = random_scalar_range(rng, -FX_ONE, FX_ONE);
        let e1 = random_scalar_range(rng, -FX_ONE, FX_ONE);
        let p = Vec3 { x: e0, y: e1, z: 0 };
        let lensq = p.length_squared();
        if lensq < FX_ONE {
            return p;
        }
        tries = tries + 1;
    }
    Vec3 { x: 0, y: 0, z: 0 }
}

} // verus!

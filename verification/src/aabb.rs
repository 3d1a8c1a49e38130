//! Axis-aligned bounding boxes with the slab intersection test.

use vstd::prelude::*;

verus! {

use crate::fixed::{fx_sub, fx_div, fx_sub_s, fx_div_s, fx_mul_s, FX_ONE, sat64};
use crate::vec3::{Vec3, Point3, axis_s};
use crate::ray::Ray;
use crate::interval::Interval;

#[derive(Clone, Copy, PartialEq, Eq, Structural, Debug)]
pub struct AABB {
    pub min: Point3,
    pub max: Point3,
}

/// The smaller of two coordinates.
pub open spec fn imin(a: int, b: int) -> int {
    if a <= b {
        a
    } else {
        b
    }
}

/// The larger of two coordinates.
pub open spec fn imax(a: int, b: int) -> int {
    if a >= b {
        a
    } else {
        b
    }
}

/// Whether the box has its corners ordered on every axis (it is nonempty).
pub open spec fn box_wf(b: AABB) -> bool {
    b.min.x <= b.max.x && b.min.y <= b.max.y && b.min.z <= b.max.z
}

/// Whether the box contains the point on every axis, inclusively.
pub open spec fn contains_point_s(b: AABB, p: Vec3) -> bool {
    b.min.x <= p.x <= b.max.x && b.min.y <= p.y <= b.max.y && b.min.z <= p.z <= b.max.z
}

/// Whether `outer` contains every point of `inner` (by corner data).
pub open spec fn contains_box_s(outer: AABB, inner: AABB) -> bool {
    outer.min.x <= inner.min.x && inner.max.x <= outer.max.x
        && outer.min.y <= inner.min.y && inner.max.y <= outer.max.y
        && outer.min.z <= inner.min.z && inner.max.z <= outer.max.z
}

/// The smallest box containing both boxes: per axis the smaller minimum
/// and the larger maximum.
pub open spec fn union_s(a: AABB, b: AABB) -> AABB {
    AABB {
        min: Vec3 {
            x: imin(a.min.x as int, b.min.x as int) as i64,
            y: imin(a.min.y as int, b.min.y as int) as i64,
            z: imin(a.min.z as int, b.min.z as int) as i64,
        },
        max: Vec3 {
            x: imax(a.max.x as int, b.max.x as int) as i64,
            y: imax(a.max.y as int, b.max.y as int) as i64,
            z: imax(a.max.z as int, b.max.z as int) as i64,
        },
    }
}

/// One axis of the slab test: the entry and exit parameters of the slab,
/// swapped for a negative direction component, narrow the running
/// interval. A zero component divides to the saturated extremes, which
/// leave the interval alone exactly when the origin lies between the
/// slab's walls.
pub open spec fn slab_step(b: AABB, r: Ray, lo: int, hi: int, ax: int) -> (int, int) {
    let d = axis_s(r.direction, ax);
    let t0 = fx_div_s(fx_sub_s(axis_s(b.min, ax), axis_s(r.origin, ax)), d);
    let t1 = fx_div_s(fx_sub_s(axis_s(b.max, ax), axis_s(r.origin, ax)), d);
    let u0 = if d < 0 { t1 } else { t0 };
    let u1 = if d < 0 { t0 } else { t1 };
    (imax(lo, u0), imin(hi, u1))
}

/// The running interval after the first `n` axes.
pub open spec fn slab_after(b: AABB, r: Ray, lo: int, hi: int, n: int) -> (int, int)
    decreases n,
{
    if n <= 0 {
        (lo, hi)
    } else {
        let prev = slab_after(b, r, lo, hi, n - 1);
        slab_step(b, r, prev.0, prev.1, n - 1)
    }
}

/// Whether the slab test reports a hit: the interval narrowed by all
/// three axes is still ordered.
pub open spec fn aabb_hit_s(b: AABB, r: Ray, ray_t: Interval) -> bool {
    let f = slab_after(b, r, ray_t.min as int, ray_t.max as int, 3);
    f.0 <= f.1
}

/// Narrowing never widens the running interval.
proof fn lemma_slab_monotone(b: AABB, r: Ray, lo: int, hi: int, n1: int, n2: int)
    requires
        0 <= n1 <= n2,
    ensures
        slab_after(b, r, lo, hi, n2).0 >= slab_after(b, r, lo, hi, n1).0,
        slab_after(b, r, lo, hi, n2).1 <= slab_after(b, r, lo, hi, n1).1,
    decreases n2 - n1,
{
    if n2 > n1 {
        lemma_slab_monotone(b, r, lo, hi, n1, n2 - 1);
    }
}

impl AABB {
    /// The empty box: saturated inverted corners, the identity for the
    /// union.
    pub fn new() -> (r: AABB)
        ensures
            r.min == (Vec3 { x: i64::MAX, y: i64::MAX, z: i64::MAX }),
            r.max == (Vec3 { x: i64::MIN, y: i64::MIN, z: i64::MIN }),
    {
        AABB {
            min: Vec3 { x: i64::MAX, y: i64::MAX, z: i64::MAX },
            max: Vec3 { x: i64::MIN, y: i64::MIN, z: i64::MIN },
        }
    }

    /// The box spanned by two corner points given in any order.
    pub fn from_points(a: Point3, b: Point3) -> (r: AABB)
        ensures
            r == union_s(AABB { min: a, max: a }, AABB { min: b, max: b }),
            box_wf(r),
            contains_point_s(r, a),
            contains_point_s(r, b),
    {
        AABB {
            min: Vec3 {
                x: crate::fixed::fx_min(a.x, b.x),
                y: crate::fixed::fx_min(a.y, b.y),
                z: crate::fixed::fx_min(a.z, b.z),
            },
            max: Vec3 {
                x: crate::fixed::fx_max(a.x, b.x),
                y: crate::fixed::fx_max(a.y, b.y),
                z: crate::fixed::fx_max(a.z, b.z),
            },
        }
    }

    /// The union of two boxes.
    pub fn from_boxes(box0: &AABB, box1: &AABB) -> (r: AABB)
        ensures
            r == union_s(*box0, *box1),
    {
        AABB {
            min: Vec3 {
                x: crate::fixed::fx_min(box0.min.x, box1.min.x),
                y: crate::fixed::fx_min(box0.min.y, box1.min.y),
                z: crate::fixed::fx_min(box0.min.z, box1.min.z),
            },
            max: Vec3 {
                x: crate::fixed::fx_max(box0.max.x, box1.max.x),
                y: crate::fixed::fx_max(box0.max.y, box1.max.y),
                z: crate::fixed::fx_max(box0.max.z, box1.max.z),
            },
        }
    }

    /// The slab test: narrow the query interval by the entry and exit
    /// parameters of each axis slab in turn; the ray misses exactly when
    /// the narrowed interval inverts.
    pub fn hit(&self, ray: &Ray, ray_t: Interval) -> (r: bool)
        ensures
            r == aabb_hit_s(*self, *ray, ray_t),
    {
        let mut lo: i64 = ray_t.min;
        let mut hi: i64 = ray_t.max;
        let mut ax: usize = 0;
        while ax < 3
            invariant
                0 <= ax <= 3,
                lo as int == slab_after(*self, *ray, ray_t.min as int, ray_t.max as int, ax as int).0,
                hi as int == slab_after(*self, *ray, ray_t.min as int, ray_t.max as int, ax as int).1,
                ax > 0 ==> lo <= hi,
            decreases 3 - ax,
        {
            let d = ray.direction.axis(ax);
            let t0 = fx_div(fx_sub(self.min.axis(ax), ray.origin.axis(ax)), d);
            let t1 = fx_div(fx_sub(self.max.axis(ax), ray.origin.axis(ax)), d);
            let u0 = if d < 0 { t1 } else { t0 };
            let u1 = if d < 0 { t0 } else { t1 };
            if u0 > lo {
                lo = u0;
            }
            if u1 < hi {
                hi = u1;
            }
            if hi < lo {
                proof {
                    lemma_slab_monotone(
                        *self, *ray, ray_t.min as int, ray_t.max as int, ax as int + 1, 3);
                }
                return false;
            }
            ax = ax + 1;
        }
        true
    }
}

/// The union contains every point contained by either argument.
pub proof fn lemma_union_contains(a: AABB, b: AABB, p: Vec3)
    requires
        contains_point_s(a, p) || contains_point_s(b, p),
    ensures
        contains_point_s(union_s(a, b), p),
{
}

/// The union is the smallest such box given only corner data: any box
/// that contains every point of both nonempty arguments contains the
/// union's corners too.
pub proof fn lemma_union_smallest(a: AABB, b: AABB, c: AABB)
    requires
        box_wf(a),
        box_wf(b),
        forall|p: Vec3| contains_point_s(a, p) ==> contains_point_s(c, p),
        forall|p: Vec3| contains_point_s(b, p) ==> contains_point_s(c, p),
    ensures
        contains_box_s(c, union_s(a, b)),
{
    assert(contains_point_s(a, a.min));
    assert(contains_point_s(a, a.max));
    assert(contains_point_s(b, b.min));
    assert(contains_point_s(b, b.max));
}

/// A wider box never turns a slab-test hit into a miss: each of its
/// entry parameters is no later and each exit no earlier.
pub proof fn lemma_hit_monotone_in_box(inner: AABB, outer: AABB, r: Ray, ray_t: Interval)
    requires
        contains_box_s(outer, inner),
        aabb_hit_s(inner, r, ray_t),
    ensures
        aabb_hit_s(outer, r, ray_t),
{
    lemma_slab_wider(inner, outer, r, ray_t.min as int, ray_t.max as int,
        ray_t.min as int, ray_t.max as int, 3);
}

/// Slab narrowing for a containing box keeps an interval at least as wide
/// as narrowing for the contained box, from starting intervals that are
/// ordered the same way.
proof fn lemma_slab_wider(inner: AABB, outer: AABB, r: Ray, li: int, hi_i: int, lo: int, ho: int, n: int)
    requires
        contains_box_s(outer, inner),
        0 <= n <= 3,
        lo <= li,
        ho >= hi_i,
    ensures
        slab_after(outer, r, lo, ho, n).0 <= slab_after(inner, r, li, hi_i, n).0,
        slab_after(outer, r, lo, ho, n).1 >= slab_after(inner, r, li, hi_i, n).1,
    decreases n,
{
    if n > 0 {
        lemma_slab_wider(inner, outer, r, li, hi_i, lo, ho, n - 1);
        let ax = n - 1;
        let d = axis_s(r.direction, ax);
        let oi = axis_s(r.origin, ax);
        crate::fixed::lemma_fx_div_mono(
            fx_sub_s(axis_s(outer.min, ax), oi), fx_sub_s(axis_s(inner.min, ax), oi), d);
        crate::fixed::lemma_fx_div_mono(
            fx_sub_s(axis_s(inner.max, ax), oi), fx_sub_s(axis_s(outer.max, ax), oi), d);
    }
}

/// One axis of the general center-ray fact: when the ray stands strictly
/// inside the slab at parameter five, the slab's entry parameter falls
/// short of five and its exit parameter reaches it, whichever way the
/// direction points.
proof fn lemma_slab_axis_brackets(bmin: int, bmax: int, o: int, d: int)
    requires
        -0x1000_0000_0000 <= bmin <= 0x1000_0000_0000,
        -0x1000_0000_0000 <= bmax <= 0x1000_0000_0000,
        -0x1000_0000_0000 <= o <= 0x1000_0000_0000,
        -0x1000_0000_0000 <= d <= 0x1000_0000_0000,
        d != 0,
        bmin < o + 5 * d,
        o + 5 * d < bmax,
    ensures
        d > 0 ==> fx_div_s(fx_sub_s(bmin, o), d) < 5 * FX_ONE as int
            && fx_div_s(fx_sub_s(bmax, o), d) >= 5 * FX_ONE as int,
        d < 0 ==> fx_div_s(fx_sub_s(bmax, o), d) < 5 * FX_ONE as int
            && fx_div_s(fx_sub_s(bmin, o), d) >= 5 * FX_ONE as int,
{
    let s = FX_ONE as int;
    assert(fx_sub_s(bmin, o) == bmin - o);
    assert(fx_sub_s(bmax, o) == bmax - o);
    if d > 0 {
        assert((bmin - o) * s < (5 * s) * d) by (nonlinear_arith)
            requires
                bmin - o <= 5 * d - 1,
                d >= 1,
                s == 65536,
        ;
        crate::fixed::lemma_div_below((bmin - o) * s, d, 5 * s);
        assert((bmax - o) * s >= (5 * s) * d) by (nonlinear_arith)
            requires
                bmax - o >= 5 * d + 1,
                d >= 1,
                s == 65536,
        ;
        crate::fixed::lemma_div_at_least((bmax - o) * s, d, 5 * s);
    } else {
        let e = -d;
        assert(-((bmax - o) * s) < (5 * s) * e) by (nonlinear_arith)
            requires
                bmax - o >= 5 * d + 1,
                e == -d,
                e >= 1,
                s == 65536,
        ;
        crate::fixed::lemma_div_below(-((bmax - o) * s), e, 5 * s);
        assert(-((bmin - o) * s) >= (5 * s) * e) by (nonlinear_arith)
            requires
                bmin - o <= 5 * d - 1,
                e == -d,
                e >= 1,
                s == 65536,
        ;
        crate::fixed::lemma_div_at_least(-((bmin - o) * s), e, 5 * s);
    }
}

/// The running interval of a ray standing strictly inside the box at
/// parameter five, with no degenerate direction component, brackets
/// five after every axis.
proof fn lemma_center_hit_any_steps(b: AABB, r: Ray, ray_t: Interval, n: int)
    requires
        0 <= n <= 3,
        forall|k: int| 0 <= k < 3 ==> -0x1000_0000_0000 <= #[trigger] axis_s(b.min, k) <= 0x1000_0000_0000,
        forall|k: int| 0 <= k < 3 ==> -0x1000_0000_0000 <= #[trigger] axis_s(b.max, k) <= 0x1000_0000_0000,
        forall|k: int| 0 <= k < 3 ==> -0x1000_0000_0000 <= #[trigger] axis_s(r.origin, k) <= 0x1000_0000_0000,
        forall|k: int| 0 <= k < 3 ==> -0x1000_0000_0000 <= #[trigger] axis_s(r.direction, k) <= 0x1000_0000_0000,
        forall|k: int| 0 <= k < 3 ==> #[trigger] axis_s(r.direction, k) != 0,
        forall|k: int| 0 <= k < 3 ==> axis_s(b.min, k)
            < #[trigger] axis_s(r.origin, k) + 5 * axis_s(r.direction, k)
            && axis_s(r.origin, k) + 5 * axis_s(r.direction, k) < axis_s(b.max, k),
        crate::interval::contains_s(ray_t, 5 * FX_ONE as int),
    ensures
        slab_after(b, r, ray_t.min as int, ray_t.max as int, n).0 <= 5 * FX_ONE as int,
        slab_after(b, r, ray_t.min as int, ray_t.max as int, n).1 >= 5 * FX_ONE as int,
    decreases n,
{
    if n > 0 {
        lemma_center_hit_any_steps(b, r, ray_t, n - 1);
        let j = n - 1;
        lemma_slab_axis_brackets(
            axis_s(b.min, j), axis_s(b.max, j), axis_s(r.origin, j), axis_s(r.direction, j));
    }
}

/// A ray that stands strictly inside the box at parameter five, with no
/// axis-degenerate direction component, narrows any query interval
/// containing five to one still containing five; in particular the slab
/// test reports the hit. This is the general form of the center-ray
/// fact, for directions with all components nonzero; the axis-aligned
/// form below covers rays sent straight down one axis.
pub proof fn lemma_slab_center_hit_any(b: AABB, r: Ray, ray_t: Interval)
    requires
        forall|k: int| 0 <= k < 3 ==> -0x1000_0000_0000 <= #[trigger] axis_s(b.min, k) <= 0x1000_0000_0000,
        forall|k: int| 0 <= k < 3 ==> -0x1000_0000_0000 <= #[trigger] axis_s(b.max, k) <= 0x1000_0000_0000,
        forall|k: int| 0 <= k < 3 ==> -0x1000_0000_0000 <= #[trigger] axis_s(r.origin, k) <= 0x1000_0000_0000,
        forall|k: int| 0 <= k < 3 ==> -0x1000_0000_0000 <= #[trigger] axis_s(r.direction, k) <= 0x1000_0000_0000,
        forall|k: int| 0 <= k < 3 ==> #[trigger] axis_s(r.direction, k) != 0,
        forall|k: int| 0 <= k < 3 ==> axis_s(b.min, k)
            < #[trigger] axis_s(crate::ray::ray_at_s(r, 5 * FX_ONE as int), k)
            && axis_s(crate::ray::ray_at_s(r, 5 * FX_ONE as int), k) < axis_s(b.max, k),
        crate::interval::contains_s(ray_t, 5 * FX_ONE as int),
    ensures
        slab_after(b, r, ray_t.min as int, ray_t.max as int, 3).0 <= 5 * FX_ONE as int,
        slab_after(b, r, ray_t.min as int, ray_t.max as int, 3).1 >= 5 * FX_ONE as int,
        aabb_hit_s(b, r, ray_t),
{
    let s = FX_ONE as int;
    // the point at parameter five is exact: each component is the origin
    // plus five direction steps
    assert forall|k: int| 0 <= k < 3
        implies #[trigger] axis_s(crate::ray::ray_at_s(r, 5 * s), k)
            == axis_s(r.origin, k) + 5 * axis_s(r.direction, k) by {
        let dk = axis_s(r.direction, k);
        assert(dk * (5 * s) == (5 * dk) * s) by (nonlinear_arith);
        crate::fixed::lemma_div_exact(dk * (5 * s), s, 5 * dk);
        assert(fx_mul_s(dk, 5 * s) == 5 * dk);
    }
    assert forall|k: int| 0 <= k < 3
        implies axis_s(b.min, k) < axis_s(r.origin, k) + 5 * axis_s(r.direction, k)
            && axis_s(r.origin, k) + 5 * axis_s(r.direction, k) < axis_s(b.max, k) by {
        assert(axis_s(crate::ray::ray_at_s(r, 5 * s), k)
            == axis_s(r.origin, k) + 5 * axis_s(r.direction, k));
        assert(axis_s(b.min, k) < axis_s(crate::ray::ray_at_s(r, 5 * s), k));
        assert(axis_s(crate::ray::ray_at_s(r, 5 * s), k) < axis_s(b.max, k));
    }
    lemma_center_hit_any_steps(b, r, ray_t, 3);
}

/// A ray sent down an axis from five units before a point of a box, with
/// the origin strictly inside the other axes' slabs, narrows the query
/// interval `[0, 10]` to one containing `t = 5`; in particular the slab
/// test reports the hit.
pub proof fn lemma_slab_center_hit(b: AABB, o: Vec3, ax: int, c: int, r: Ray)
    requires
        0 <= ax < 3,
        // coordinates small enough that the axis arithmetic is exact
        -0x1000_0000_0000 <= axis_s(b.min, ax) <= 0x1000_0000_0000,
        -0x1000_0000_0000 <= axis_s(b.max, ax) <= 0x1000_0000_0000,
        -0x1000_0000_0000 <= c <= 0x1000_0000_0000,
        axis_s(b.min, ax) <= c <= axis_s(b.max, ax),
        axis_s(o, ax) == c - 5 * FX_ONE as int,
        forall|j: int| 0 <= j < 3 && j != ax ==>
            axis_s(b.min, j) < #[trigger] axis_s(o, j) < axis_s(b.max, j),
        r.origin == o,
        axis_s(r.direction, ax) == FX_ONE as int,
        forall|j: int| 0 <= j < 3 && j != ax ==> #[trigger] axis_s(r.direction, j) == 0,
    ensures
        slab_after(b, r, 0, 10 * FX_ONE as int, 3).0 <= 5 * FX_ONE as int,
        slab_after(b, r, 0, 10 * FX_ONE as int, 3).1 >= 5 * FX_ONE as int,
        aabb_hit_s(b, r, (Interval { min: 0, max: (10 * FX_ONE as int) as i64 })),
{
    lemma_center_hit_steps(b, o, ax, c, r, 3);
}

/// The running interval of the centered axis ray always brackets `5`.
proof fn lemma_center_hit_steps(b: AABB, o: Vec3, ax: int, c: int, r: Ray, n: int)
    requires
        0 <= n <= 3,
        0 <= ax < 3,
        -0x1000_0000_0000 <= axis_s(b.min, ax) <= 0x1000_0000_0000,
        -0x1000_0000_0000 <= axis_s(b.max, ax) <= 0x1000_0000_0000,
        -0x1000_0000_0000 <= c <= 0x1000_0000_0000,
        axis_s(b.min, ax) <= c <= axis_s(b.max, ax),
        axis_s(o, ax) == c - 5 * FX_ONE as int,
        forall|j: int| 0 <= j < 3 && j != ax ==>
            axis_s(b.min, j) < #[trigger] axis_s(o, j) < axis_s(b.max, j),
        r.origin == o,
        axis_s(r.direction, ax) == FX_ONE as int,
        forall|j: int| 0 <= j < 3 && j != ax ==> #[trigger] axis_s(r.direction, j) == 0,
    ensures
        slab_after(b, r, 0, 10 * FX_ONE as int, n).0 <= 5 * FX_ONE as int,
        slab_after(b, r, 0, 10 * FX_ONE as int, n).1 >= 5 * FX_ONE as int,
    decreases n,
{
    let s = FX_ONE as int;
    if n > 0 {
        lemma_center_hit_steps(b, o, ax, c, r, n - 1);
        let prev = slab_after(b, r, 0, 10 * s, n - 1);
        let j = n - 1;
        if j == ax {
            let lo_num = fx_sub_s(axis_s(b.min, ax), axis_s(o, ax));
            let hi_num = fx_sub_s(axis_s(b.max, ax), axis_s(o, ax));
            assert(lo_num == axis_s(b.min, ax) - c + 5 * s);
            assert(hi_num == axis_s(b.max, ax) - c + 5 * s);
            crate::fixed::lemma_fx_unit(lo_num);
            crate::fixed::lemma_fx_unit(hi_num);
            assert(fx_div_s(lo_num, s) == sat64(lo_num));
            assert(fx_div_s(hi_num, s) == sat64(hi_num));
        } else {
            // zero direction component: the origin is strictly inside, so
            // the entry parameter saturates low and the exit high
            assert(axis_s(r.direction, j) == 0);
            assert(fx_sub_s(axis_s(b.min, j), axis_s(o, j)) < 0);
            assert(fx_sub_s(axis_s(b.max, j), axis_s(o, j)) > 0);
        }
    }
}

} // verus!

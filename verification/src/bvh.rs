//! The bounding-volume hierarchy: a binary tree of boxes over the
//! primitives, built once by recursive median split along a randomly
//! drawn axis, then queried by every ray.

use vstd::prelude::*;

verus! {

use crate::sphere::{Sphere, sphere_hit_t_s, sphere_hit_record_s, sphere_box_s, lemma_sphere_interval_shrink};
use crate::ray::Ray;
use crate::interval::Interval;
use crate::hittable::HitRecord;
use crate::aabb::{AABB, aabb_hit_s, contains_box_s, union_s};
use crate::vec3::axis_s;
use crate::rng::RandomSource;

/// Anything a ray can intersect: a sphere primitive or an interior node.
pub enum Hittable {
    Sphere(Sphere),
    Node(Box<BVHNode>),
}

/// An interior node: two children and the precomputed box spanning both.
/// A node built from a single object holds that object as both children.
pub struct BVHNode {
    pub left: Hittable,
    pub right: Hittable,
    pub bbox: AABB,
}

/// Why a scene cannot be indexed.
#[derive(Clone, Copy, PartialEq, Eq, Structural, Debug)]
pub enum SceneError {
    EmptyScene,
}

/// The box a subtree advertises.
pub open spec fn box_of_s(h: Hittable) -> AABB {
    match h {
        Hittable::Sphere(s) => sphere_box_s(s),
        Hittable::Node(n) => n.bbox,
    }
}

/// Every node's cached box is exactly the union of its children's
/// boxes (and so contains each of them).
pub open spec fn bvh_wf(h: Hittable) -> bool
    decreases h,
{
    match h {
        Hittable::Sphere(_) => true,
        Hittable::Node(n) => {
            &&& bvh_wf(n.left)
            &&& bvh_wf(n.right)
            &&& n.bbox == union_s(box_of_s(n.left), box_of_s(n.right))
            &&& contains_box_s(n.bbox, box_of_s(n.left))
            &&& contains_box_s(n.bbox, box_of_s(n.right))
        },
    }
}

/// Whether the sphere stands somewhere under this subtree.
pub open spec fn subtree_contains(h: Hittable, s: Sphere) -> bool
    decreases h,
{
    match h {
        Hittable::Sphere(x) => x == s,
        Hittable::Node(n) => subtree_contains(n.left, s) || subtree_contains(n.right, s),
    }
}

/// The parameter and sphere of the nearest accepted intersection under
/// the subtree: the node's box filters the query; the left child is
/// queried first, and the right child only over parameters closer than
/// the left child's hit, so a right hit is always the closer one.
pub open spec fn bvh_hit_s(h: Hittable, r: Ray, ray_t: Interval) -> Option<(int, Sphere)>
    decreases h,
{
    match h {
        Hittable::Sphere(s) => match sphere_hit_t_s(s, r, ray_t) {
            Some(t) => Some((t, s)),
            None => None,
        },
        Hittable::Node(n) => {
            if !aabb_hit_s(n.bbox, r, ray_t) {
                None
            } else {
                let lt = bvh_hit_s(n.left, r, ray_t);
                let ub = if lt is Some {
                    (lt->0).0
                } else {
                    ray_t.max as int
                };
                let rt = bvh_hit_s(n.right, r, Interval { min: ray_t.min, max: ub as i64 });
                if rt is Some {
                    rt
                } else {
                    lt
                }
            }
        },
    }
}

/// The sort key of the median split: the box minimum along the axis.
pub open spec fn box_key_s(s: Sphere, ax: int) -> int {
    axis_s(sphere_box_s(s).min, ax)
}

/// The box minimum of a sphere along an axis.
fn box_key(s: &Sphere, ax: usize) -> (r: i64)
    requires
        ax < 3,
    ensures
        r as int == box_key_s(*s, ax as int),
{
    let b = s.bounding_box();
    b.min.axis(ax)
}

/// Selection sort by box minimum along the axis: the result is the same
/// collection of objects, ordered by key.
fn sort_by_axis(objects: Vec<Sphere>, ax: usize) -> (r: Vec<Sphere>)
    requires
        ax < 3,
    ensures
        r@.to_multiset() == objects@.to_multiset(),
        r@.len() == objects@.len(),
        forall|i: int, j: int| 0 <= i < j < r@.len()
            ==> box_key_s(#[trigger] r@[i], ax as int) <= box_key_s(#[trigger] r@[j], ax as int),
{
    broadcast use vstd::seq_lib::group_to_multiset_ensures;

    let mut work = objects;
    let mut out: Vec<Sphere> = Vec::new();
    while work.len() > 0
        invariant
            ax < 3,
            out@.to_multiset().add(work@.to_multiset()) == objects@.to_multiset(),
            out@.len() + work@.len() == objects@.len(),
            forall|i: int, j: int| 0 <= i < j < out@.len()
                ==> box_key_s(#[trigger] out@[i], ax as int) <= box_key_s(#[trigger] out@[j], ax as int),
            forall|i: int, j: int| 0 <= i < out@.len() && 0 <= j < work@.len()
                ==> box_key_s(#[trigger] out@[i], ax as int) <= box_key_s(#[trigger] work@[j], ax as int),
        decreases work@.len(),
    {
        let mut min_i: usize = 0;
        let mut k: usize = 1;
        while k < work.len()
            invariant
                ax < 3,
                work@.len() > 0,
                min_i < k <= work@.len(),
                forall|j: int| 0 <= j < k
                    ==> box_key_s(work@[min_i as int], ax as int) <= box_key_s(#[trigger] work@[j], ax as int),
            decreases work@.len() - k,
        {
            if box_key(&work[k], ax) < box_key(&work[min_i], ax) {
                min_i = k;
            }
            k = k + 1;
        }
        let ghost wpre = work@;
        let ghost opre = out@;
        let picked = work.remove(min_i);
        out.push(picked);
        proof {
            wpre.to_multiset_ensures();
            opre.to_multiset_ensures();
            assert(wpre[min_i as int] == picked);
            assert(wpre.contains(picked));
            assert(work@ == wpre.remove(min_i as int));
            assert(wpre.remove(min_i as int).to_multiset()
                =~= wpre.to_multiset().remove(wpre[min_i as int]));
            assert(work@.to_multiset() =~= wpre.to_multiset().remove(picked));
            assert(out@ == opre.push(picked));
            assert(opre.push(picked).to_multiset() =~= opre.to_multiset().insert(picked));
            assert(out@.to_multiset() =~= opre.to_multiset().insert(picked));
            assert(wpre.to_multiset().count(picked) > 0);
            assert(out@.to_multiset().add(work@.to_multiset())
                =~= opre.to_multiset().add(wpre.to_multiset()));
            // the survivors are the other entries, so the picked minimum
            // still bounds every one of them
            assert forall|j: int| 0 <= j < work@.len()
                implies box_key_s(picked, ax as int) <= box_key_s(#[trigger] work@[j], ax as int) by {
                if j < min_i as int {
                    assert(work@[j] == wpre[j]);
                } else {
                    assert(work@[j] == wpre[j + 1]);
                }
            }
        }
    }
    out
}

/// Well-formedness of a node taken on its own: both children are
/// well-formed and the cached box is exactly the union of theirs.
pub open spec fn node_wf(n: BVHNode) -> bool {
    &&& bvh_wf(n.left)
    &&& bvh_wf(n.right)
    &&& n.bbox == union_s(box_of_s(n.left), box_of_s(n.right))
    &&& contains_box_s(n.bbox, box_of_s(n.left))
    &&& contains_box_s(n.bbox, box_of_s(n.right))
}

/// Whether the sphere stands somewhere under the node.
pub open spec fn node_contains_s(n: BVHNode, s: Sphere) -> bool {
    subtree_contains(n.left, s) || subtree_contains(n.right, s)
}

/// The node's intersection answer: its box filters the query, the left
/// child is queried first, and the right child only over parameters
/// closer than the left child's hit.
pub open spec fn node_hit_s(n: BVHNode, r: Ray, ray_t: Interval) -> Option<(int, Sphere)> {
    if !aabb_hit_s(n.bbox, r, ray_t) {
        None
    } else {
        let lt = bvh_hit_s(n.left, r, ray_t);
        let ub = if lt is Some {
            (lt->0).0
        } else {
            ray_t.max as int
        };
        let rt = bvh_hit_s(n.right, r, Interval { min: ray_t.min, max: ub as i64 });
        if rt is Some {
            rt
        } else {
            lt
        }
    }
}

impl Hittable {
    /// The nearest intersection under this subtree; on a hit the record
    /// is that of the winning sphere, otherwise it is untouched.
    pub fn hit(&self, ray: &Ray, ray_t: Interval, rec: &mut HitRecord) -> (r: bool)
        ensures
            r == bvh_hit_s(*self, *ray, ray_t) is Some,
            r ==> *final(rec) == sphere_hit_record_s(
                (bvh_hit_s(*self, *ray, ray_t)->0).1,
                *ray,
                (bvh_hit_s(*self, *ray, ray_t)->0).0,
            ),
            !r ==> *final(rec) == *old(rec),
        decreases self,
    {
        match self {
            Hittable::Sphere(s) => s.hit(ray, ray_t, rec),
            Hittable::Node(n) => n.hit(ray, ray_t, rec),
        }
    }

    /// The box this subtree advertises.
    pub fn bounding_box(&self) -> (r: AABB)
        ensures
            r == box_of_s(*self),
    {
        match self {
            Hittable::Sphere(s) => s.bounding_box(),
            Hittable::Node(n) => n.bbox,
        }
    }
}

impl BVHNode {
    /// Index a scene: an empty one is refused with a distinct error, a
    /// nonempty one yields a well-formed tree holding exactly the given
    /// objects.
    pub fn new(objects: Vec<Sphere>, rng: &mut RandomSource) -> (r: Result<BVHNode, SceneError>)
        ensures
            (r is Ok) == (objects@.len() > 0),
            r is Err ==> r->Err_0 == SceneError::EmptyScene,
            r is Ok ==> node_wf(r->Ok_0),
            r is Ok ==> forall|s: Sphere| #[trigger] node_contains_s(r->Ok_0, s) <==> objects@.contains(s),
            r is Ok && objects@.len() == 1 ==> r->Ok_0.left == Hittable::Sphere(objects@[0])
                && r->Ok_0.right == Hittable::Sphere(objects@[0])
                && r->Ok_0.bbox == sphere_box_s(objects@[0]),
    {
        if objects.len() == 0 {
            Err(SceneError::EmptyScene)
        } else {
            Ok(Self::build(objects, rng))
        }
    }

    /// Recursive median split: one object makes a degenerate node with
    /// that object as both children; two are sorted onto the two sides;
    /// more are sorted along a randomly drawn axis and split at the
    /// middle.
    #[verifier::rlimit(100)]
    fn build(objects: Vec<Sphere>, rng: &mut RandomSource) -> (r: BVHNode)
        requires
            objects@.len() >= 1,
        ensures
            node_wf(r),
            forall|s: Sphere| #[trigger] node_contains_s(r, s) <==> objects@.contains(s),
            objects@.len() == 1 ==> r.left == Hittable::Sphere(objects@[0])
                && r.right == Hittable::Sphere(objects@[0])
                && r.bbox == sphere_box_s(objects@[0]),
        decreases objects@.len(),
    {
        let axis_draw = rng.next_below(3);
        let axis = axis_draw as usize;
        if objects.len() == 1 {
            let s0 = objects[0];
            let bbox = s0.bounding_box();
            let node = BVHNode { left: Hittable::Sphere(s0), right: Hittable::Sphere(s0), bbox };
            proof {
                assert(objects@[0] == s0);
                assert(bbox == union_s(sphere_box_s(s0), sphere_box_s(s0)));
                assert forall|s: Sphere| #[trigger] node_contains_s(node, s) <==> objects@.contains(s) by {
                    if node_contains_s(node, s) {
                        assert(objects@[0] == s);
                    }
                    if objects@.contains(s) {
                        let i = choose|i: int| 0 <= i < objects@.len() && objects@[i] == s;
                        assert(i == 0);
                    }
                }
            }
            node
        } else if objects.len() == 2 {
            let sorted = sort_by_axis(objects, axis);
            let a = sorted[0];
            let b = sorted[1];
            let box_a = a.bounding_box();
            let box_b = b.bounding_box();
            let bbox = AABB::from_boxes(&box_a, &box_b);
            let node = BVHNode { left: Hittable::Sphere(a), right: Hittable::Sphere(b), bbox };
            proof {
                sorted@.to_multiset_ensures();
                objects@.to_multiset_ensures();
                assert forall|s: Sphere| #[trigger] node_contains_s(node, s) <==> objects@.contains(s) by {
                    assert(sorted@.to_multiset().count(s) == objects@.to_multiset().count(s));
                    assert(sorted@.contains(s) <==> objects@.contains(s));
                    if node_contains_s(node, s) {
                        if s == a {
                            assert(sorted@[0] == s);
                        } else {
                            assert(sorted@[1] == s);
                        }
                        assert(sorted@.contains(s));
                    }
                    if sorted@.contains(s) {
                        let i = choose|i: int| 0 <= i < sorted@.len() && sorted@[i] == s;
                        assert(i == 0 || i == 1);
                    }
                }
            }
            node
        } else {
            let sorted = sort_by_axis(objects, axis);
            let mid = sorted.len() / 2;
            let total = sorted.len();
            let mut left_objs: Vec<Sphere> = Vec::new();
            let mut i: usize = 0;
            while i < mid
                invariant
                    0 <= i <= mid,
                    mid < sorted@.len(),
                    left_objs@ == sorted@.subrange(0, i as int),
                decreases mid - i,
            {
                left_objs.push(sorted[i]);
                proof {
                    assert(left_objs@ =~= sorted@.subrange(0, i as int + 1));
                }
                i = i + 1;
            }
            let mut right_objs: Vec<Sphere> = Vec::new();
            let mut j: usize = mid;
            while j < total
                invariant
                    mid <= j <= total,
                    total == sorted@.len(),
                    right_objs@ == sorted@.subrange(mid as int, j as int),
                decreases total - j,
            {
                right_objs.push(sorted[j]);
                proof {
                    assert(right_objs@ =~= sorted@.subrange(mid as int, j as int + 1));
                }
                j = j + 1;
            }
            let left_node = Self::build(left_objs, rng);
            let right_node = Self::build(right_objs, rng);
            let ghost gl = left_node;
            let ghost gr = right_node;
            let bbox = AABB::from_boxes(&left_node.bbox, &right_node.bbox);
            let node = BVHNode {
                left: Hittable::Node(Box::new(left_node)),
                right: Hittable::Node(Box::new(right_node)),
                bbox,
            };
            proof {
                sorted@.to_multiset_ensures();
                objects@.to_multiset_ensures();
                let ls = sorted@.subrange(0, mid as int);
                let rs = sorted@.subrange(mid as int, total as int);
                assert forall|s: Sphere| #[trigger] node_contains_s(node, s) <==> objects@.contains(s) by {
                    assert(subtree_contains(node.left, s) == node_contains_s(gl, s));
                    assert(subtree_contains(node.right, s) == node_contains_s(gr, s));
                    assert(sorted@.to_multiset().count(s) == objects@.to_multiset().count(s));
                    assert(sorted@.contains(s) <==> objects@.contains(s));
                    if ls.contains(s) {
                        let i2 = choose|i2: int| 0 <= i2 < ls.len() && ls[i2] == s;
                        assert(sorted@[i2] == s);
                    }
                    if rs.contains(s) {
                        let i2 = choose|i2: int| 0 <= i2 < rs.len() && rs[i2] == s;
                        assert(sorted@[mid as int + i2] == s);
                    }
                    if sorted@.contains(s) {
                        let i2 = choose|i2: int| 0 <= i2 < sorted@.len() && sorted@[i2] == s;
                        if i2 < mid as int {
                            assert(ls[i2] == s);
                        } else {
                            assert(rs[i2 - mid as int] == s);
                        }
                    }
                }
            }
            node
        }
    }

    /// The nearest intersection under this node; on a hit the record is
    /// that of the winning sphere, otherwise it is untouched.
    pub fn hit(&self, ray: &Ray, ray_t: Interval, rec: &mut HitRecord) -> (r: bool)
        ensures
            r == node_hit_s(*self, *ray, ray_t) is Some,
            r ==> *final(rec) == sphere_hit_record_s(
                (node_hit_s(*self, *ray, ray_t)->0).1,
                *ray,
                (node_hit_s(*self, *ray, ray_t)->0).0,
            ),
            !r ==> *final(rec) == *old(rec),
        decreases self,
    {
        if !self.bbox.hit(ray, ray_t) {
            return false;
        }

        let hit_left = self.left.hit(ray, ray_t, rec);
        let right_ub = if hit_left {
            rec.t
        } else {
            ray_t.max
        };
        let hit_right = self.right.hit(ray, Interval::from_range(ray_t.min, right_ub), rec);

        hit_left || hit_right
    }

    /// The cached box spanning both children.
    pub fn bounding_box(&self) -> (r: AABB)
        ensures
            r == self.bbox,
    {
        self.bbox
    }
}

/// Every material index under the node is a valid index of the arena.
pub open spec fn node_mats_ok(n: BVHNode, len: int) -> bool {
    forall|s: Sphere| #[trigger] node_contains_s(n, s) ==> 0 <= s.mat < len
}

/// A reported winner of a node really stands under the node.
pub proof fn lemma_node_winner_in_tree(n: BVHNode, r: Ray, ray_t: Interval)
    requires
        node_hit_s(n, r, ray_t) is Some,
    ensures
        node_contains_s(n, (node_hit_s(n, r, ray_t)->0).1),
{
    let lt = bvh_hit_s(n.left, r, ray_t);
    let ub = if lt is Some {
        (lt->0).0
    } else {
        ray_t.max as int
    };
    let small = Interval { min: ray_t.min, max: ub as i64 };
    let rt = bvh_hit_s(n.right, r, small);
    if rt is Some {
        lemma_bvh_hit_sound(n.right, r, small);
    } else {
        lemma_bvh_hit_sound(n.left, r, ray_t);
    }
}

/// In a well-formed tree every subtree's box contains the box of every
/// sphere under it.
proof fn lemma_subtree_box(h: Hittable, s: Sphere)
    requires
        bvh_wf(h),
        subtree_contains(h, s),
    ensures
        contains_box_s(box_of_s(h), sphere_box_s(s)),
    decreases h,
{
    match h {
        Hittable::Sphere(_) => {
        },
        Hittable::Node(n) => {
            if subtree_contains(n.left, s) {
                lemma_subtree_box(n.left, s);
            } else {
                lemma_subtree_box(n.right, s);
            }
        },
    }
}

/// The numeric hypothesis of the traversal equivalence: whenever a
/// sphere of the tree is struck within some interval, the slab test of
/// that sphere's own box over the same interval reports the hit. (This
/// is how the boxes are meant to behave; rounding is not proved here.)
pub open spec fn boxes_admit_s(h: Hittable, r: Ray) -> bool {
    forall|s: Sphere, i: Interval|
        #![trigger subtree_contains(h, s), sphere_hit_t_s(s, r, i)]
        subtree_contains(h, s) && sphere_hit_t_s(s, r, i) is Some
            ==> aabb_hit_s(sphere_box_s(s), r, i)
}

/// The traversal never fabricates a hit, whatever the box tests prune:
/// anything it reports is a genuine intersection of a sphere of the
/// tree, at its genuine parameter, strictly inside the query interval.
pub proof fn lemma_bvh_hit_sound(h: Hittable, r: Ray, ray_t: Interval)
    requires
        bvh_hit_s(h, r, ray_t) is Some,
    ensures
        subtree_contains(h, (bvh_hit_s(h, r, ray_t)->0).1),
        sphere_hit_t_s((bvh_hit_s(h, r, ray_t)->0).1, r, ray_t)
            == Some((bvh_hit_s(h, r, ray_t)->0).0),
        crate::interval::surrounds_s(ray_t, (bvh_hit_s(h, r, ray_t)->0).0),
    decreases h,
{
    match h {
        Hittable::Sphere(_) => {
        },
        Hittable::Node(n) => {
            let lt = bvh_hit_s(n.left, r, ray_t);
            let ub = if lt is Some {
                (lt->0).0
            } else {
                ray_t.max as int
            };
            let small = Interval { min: ray_t.min, max: ub as i64 };
            let rt = bvh_hit_s(n.right, r, small);
            if rt is Some {
                lemma_bvh_hit_sound(n.right, r, small);
                if lt is Some {
                    lemma_bvh_hit_sound(n.left, r, ray_t);
                }
                lemma_sphere_interval_shrink((rt->0).1, r, ray_t.min, small.max, ray_t.max);
            } else {
                lemma_bvh_hit_sound(n.left, r, ray_t);
            }
        },
    }
}

/// What the traversal reports is the nearest accepted intersection over
/// the subtree: sound (the winner is a real hit of a real member, inside
/// the interval) and complete (no member hits strictly closer; a miss
/// means no member hits at all) — provided the boxes admit every hit.
pub proof fn lemma_bvh_hit_nearest(h: Hittable, r: Ray, ray_t: Interval)
    requires
        bvh_wf(h),
        boxes_admit_s(h, r),
    ensures
        match bvh_hit_s(h, r, ray_t) {
            Some(ts) => {
                &&& subtree_contains(h, ts.1)
                &&& sphere_hit_t_s(ts.1, r, ray_t) == Some(ts.0)
                &&& crate::interval::surrounds_s(ray_t, ts.0)
                &&& forall|s: Sphere|
                    subtree_contains(h, s) && #[trigger] sphere_hit_t_s(s, r, ray_t) is Some
                        ==> ts.0 <= sphere_hit_t_s(s, r, ray_t)->0
            },
            None => forall|s: Sphere|
                subtree_contains(h, s) ==> #[trigger] sphere_hit_t_s(s, r, ray_t) is None,
        },
    decreases h,
{
    match h {
        Hittable::Sphere(_) => {
        },
        Hittable::Node(n) => {
            if !aabb_hit_s(n.bbox, r, ray_t) {
                assert forall|s: Sphere|
                    subtree_contains(h, s) implies #[trigger] sphere_hit_t_s(s, r, ray_t) is None by {
                    if sphere_hit_t_s(s, r, ray_t) is Some {
                        assert(aabb_hit_s(sphere_box_s(s), r, ray_t));
                        lemma_subtree_box(h, s);
                        crate::aabb::lemma_hit_monotone_in_box(sphere_box_s(s), box_of_s(h), r, ray_t);
                    }
                }
            } else {
                assert(boxes_admit_s(n.left, r)) by {
                    assert forall|s: Sphere, i: Interval|
                        #![trigger subtree_contains(n.left, s), sphere_hit_t_s(s, r, i)]
                        subtree_contains(n.left, s) && sphere_hit_t_s(s, r, i) is Some
                            implies aabb_hit_s(sphere_box_s(s), r, i) by {
                        assert(subtree_contains(h, s));
                    }
                }
                assert(boxes_admit_s(n.right, r)) by {
                    assert forall|s: Sphere, i: Interval|
                        #![trigger subtree_contains(n.right, s), sphere_hit_t_s(s, r, i)]
                        subtree_contains(n.right, s) && sphere_hit_t_s(s, r, i) is Some
                            implies aabb_hit_s(sphere_box_s(s), r, i) by {
                        assert(subtree_contains(h, s));
                    }
                }
                lemma_bvh_hit_nearest(n.left, r, ray_t);
                let lt = bvh_hit_s(n.left, r, ray_t);
                let ub = if lt is Some {
                    (lt->0).0
                } else {
                    ray_t.max as int
                };
                let small = Interval { min: ray_t.min, max: ub as i64 };
                lemma_bvh_hit_nearest(n.right, r, small);
                let rt = bvh_hit_s(n.right, r, small);
                if lt is Some {
                    assert(crate::interval::surrounds_s(ray_t, (lt->0).0));
                }
                if rt is Some {
                    // the right hit expands to the full interval unchanged
                    let t_r = (rt->0).0;
                    let s_r = (rt->0).1;
                    lemma_sphere_interval_shrink(s_r, r, ray_t.min, small.max, ray_t.max);
                    assert(sphere_hit_t_s(s_r, r, ray_t) == Some(t_r));
                    assert forall|s: Sphere|
                        subtree_contains(h, s) && #[trigger] sphere_hit_t_s(s, r, ray_t) is Some
                            implies t_r <= sphere_hit_t_s(s, r, ray_t)->0 by {
                        let tp = sphere_hit_t_s(s, r, ray_t)->0;
                        if subtree_contains(n.left, s) {
                        } else {
                            lemma_sphere_interval_shrink(s, r, ray_t.min, small.max, ray_t.max);
                        }
                    }
                } else if lt is Some {
                    let t_l = (lt->0).0;
                    assert forall|s: Sphere|
                        subtree_contains(h, s) && #[trigger] sphere_hit_t_s(s, r, ray_t) is Some
                            implies t_l <= sphere_hit_t_s(s, r, ray_t)->0 by {
                        if !subtree_contains(n.left, s) {
                            lemma_sphere_interval_shrink(s, r, ray_t.min, small.max, ray_t.max);
                        }
                    }
                } else {
                    assert forall|s: Sphere|
                        subtree_contains(h, s) implies #[trigger] sphere_hit_t_s(s, r, ray_t) is None by {
                        if !subtree_contains(n.left, s) {
                            lemma_sphere_interval_shrink(s, r, ray_t.min, small.max, ray_t.max);
                        }
                    }
                }
            }
        },
    }
}

/// For any primitive set and any ray whose per-sphere box tests admit
/// every hit, the hierarchy and the exhaustive scan agree: they report a
/// hit for exactly the same queries, at the same nearest parameter.
pub proof fn lemma_bvh_matches_exhaustive(h: Hittable, spheres: Seq<Sphere>, r: Ray, ray_t: Interval)
    requires
        bvh_wf(h),
        boxes_admit_s(h, r),
        forall|s: Sphere| #[trigger] subtree_contains(h, s) <==> spheres.contains(s),
    ensures
        (bvh_hit_s(h, r, ray_t) is Some)
            == (crate::hittable_list::scan_hit_s(spheres, r, ray_t) is Some),
        bvh_hit_s(h, r, ray_t) is Some
            ==> (bvh_hit_s(h, r, ray_t)->0).0
                == (crate::hittable_list::scan_hit_s(spheres, r, ray_t)->0).1,
{
    lemma_bvh_hit_nearest(h, r, ray_t);
    crate::hittable_list::lemma_scan_nearest(spheres, r, ray_t, spheres.len() as int);
    let bv = bvh_hit_s(h, r, ray_t);
    let sc = crate::hittable_list::scan_hit_s(spheres, r, ray_t);
    if bv is Some {
        let s1 = (bv->0).1;
        assert(subtree_contains(h, s1));
        assert(spheres.contains(s1));
        let j = choose|j: int| 0 <= j < spheres.len() && spheres[j] == s1;
        assert(sphere_hit_t_s(spheres[j], r, ray_t) is Some);
        assert(sc is Some);
        let i = (sc->0).0;
        assert(spheres.contains(spheres[i]));
        assert(subtree_contains(h, spheres[i]));
        assert((bv->0).0 <= (sc->0).1);
        assert((sc->0).1 <= (bv->0).0);
    } else {
        if sc is Some {
            let i = (sc->0).0;
            assert(spheres.contains(spheres[i]));
            assert(subtree_contains(h, spheres[i]));
        }
    }
}

} // verus!

//! Rays, triangle and box tests, and walks through a bounding volume hierarchy.
//!
//! A walk keeps a stack of nodes still to visit. The tests themselves need
//! floating-point arithmetic and come from the caller as two functions: where a
//! ray enters a box, and where it meets a triangle.
use vstd::prelude::*;

use crate::arithmetic;
use crate::bvh;
use crate::bvh::{Aabb, Bvh, BvhNode, Vec3};
use crate::single::Single;

verus! {

/// A ray with the stretch `(t_min, t_max)` of it that counts.
#[derive(Clone, Copy, Debug, PartialEq, Eq, Structural)]
pub struct Ray {
    pub origin: Vec3,
    pub dir: Vec3,
    pub t_min: Single,
    pub t_max: Single,
}

impl Ray {
    /// The ray cut short or stretched to `t`.
    pub open spec fn up_to(self, t: Single) -> Ray {
        Ray { origin: self.origin, dir: self.dir, t_min: self.t_min, t_max: t }
    }

    /// A ray from 0.0001 to infinity.
    pub fn new(origin: Vec3, dir: Vec3) -> (r: Ray)
        ensures
            r.origin == origin,
            r.dir == dir,
            r.t_min.bits == 0x38d1_b717,  // 0.0001
            r.t_max.bits == 0x7f80_0000,
    {
        Ray { origin, dir, t_min: Single::from_bits(0x38d1_b717), t_max: Single::infinity() }
    }
}

/// Where a ray meets a triangle.
#[derive(Clone, Copy, Debug, PartialEq, Eq, Structural)]
pub struct Intersection {
    pub t: Single,
    pub u: Single,
    pub v: Single,
    pub prim_id: u32,
    pub object_id: u32,
}

/// One triangle as the walks take it.
#[derive(Clone, Copy, Debug, PartialEq, Eq, Structural)]
pub struct ShadingTriangle {
    pub v0: Vec3,
    pub v1: Vec3,
    pub v2: Vec3,
    pub prim_id: u32,
    pub object_id: u32,
}

/// The quantities of the Moeller-Trumbore test of one ray against one triangle:
/// the determinant, the barycentric coordinates, their sum, and the distance.
#[derive(Clone, Copy, Debug, PartialEq, Eq, Structural)]
pub struct TriangleTest {
    pub a: Single,
    pub u: Single,
    pub v: Single,
    pub u_plus_v: Single,
    pub t: Single,
}

impl TriangleTest {
    /// Whether the determinant is too small for the ray to cross the plane.
    pub open spec fn parallel(self) -> bool {
        Single { bits: self.a.magnitude() as u32 }.below(Single { bits: 0x2b8c_bccc })  // 1e-12
    }

    /// Whether the plane is met inside the triangle.
    pub open spec fn inside(self) -> bool {
        let one = Single { bits: 0x3f80_0000 };
        let zero = Single { bits: 0 };
        &&& zero.at_most(self.u) && self.u.at_most(one)
        &&& !self.v.below(zero)
        &&& !one.below(self.u_plus_v)
    }
}

impl ShadingTriangle {
    /// The hit that a test stands for.
    pub open spec fn hit_by(self, ray: Ray, test: TriangleTest) -> Option<Intersection> {
        if !test.parallel() && test.inside() && !test.t.at_most(ray.t_min) && !ray.t_max.at_most(
            test.t,
        ) {
            Some(
                Intersection {
                    t: test.t,
                    u: test.u,
                    v: test.v,
                    prim_id: self.prim_id,
                    object_id: self.object_id,
                },
            )
        } else {
            None
        }
    }

    /// Where the ray meets the triangle, if it does: not parallel, inside the
    /// triangle, and strictly between the ray's ends. `quantities` works the test
    /// out.
    pub fn intersect<Q: Fn(ShadingTriangle, Ray) -> TriangleTest>(
        &self,
        ray: &Ray,
        quantities: &Q,
    ) -> (r: Option<Intersection>)
        requires
            arithmetic::steady2(*quantities),
        ensures
            r == self.hit_by(*ray, arithmetic::applied2(*quantities, *self, *ray)),
    {
        let test: TriangleTest = quantities(*self, *ray);
        let zero: Single = Single::zero();
        let one: Single = Single::one();
        if test.a.abs().lt(Single::from_bits(0x2b8c_bccc)) {  // 1e-12
            return None;
        }
        if !(zero.le(test.u) && test.u.le(one)) {
            return None;
        }
        if test.v.lt(zero) || one.lt(test.u_plus_v) {
            return None;
        }
        if test.t.le(ray.t_min) || ray.t_max.le(test.t) {
            return None;
        }
        Some(
            Intersection {
                t: test.t,
                u: test.u,
                v: test.v,
                prim_id: self.prim_id,
                object_id: self.object_id,
            },
        )
    }
}

/// The stretch of a ray inside a box, from where it meets the six planes.
pub open spec fn slab_stretch(ray: Ray, t0: Vec3, t1: Vec3) -> (Single, Single) {
    let near = t0.least(t1);
    let far = t0.greatest(t1);
    (
        near.x.greatest(near.y).greatest(near.z).greatest(ray.t_min),
        far.x.least(far.y).least(far.z).least(ray.t_max),
    )
}

/// The inverse of a number, but a large finite one for a number below 1e-20 either
/// way: 1e20 with its sign.
pub open spec fn inverted<F: Fn(Single) -> Single>(x: Single, inverse: F) -> Single {
    if (Single { bits: x.magnitude() as u32 }).below(Single { bits: 0x1e3c_e508 }) {
        if (Single { bits: 0 }).at_most(x) {
            Single { bits: 0x60ad_78ec }  // 1e+20
        } else {
            Single { bits: 0xe0ad_78ec }  // -1e+20
        }
    } else {
        arithmetic::applied(inverse, x)
    }
}

/// The inverse of a number, but a large finite one for a number below 1e-20 either
/// way: 1e20 with its sign. `inverse` divides 1 by a number.
pub fn safe_inverse<F: Fn(Single) -> Single>(x: Single, inverse: &F) -> (r: Single)
    requires
        arithmetic::steady(*inverse),
    ensures
        r == inverted(x, *inverse),
{
    if x.abs().lt(Single::from_bits(0x1e3c_e508)) {  // 1e-20
        if Single::zero().le(x) {
            Single::from_bits(0x60ad_78ec)  // 1e+20
        } else {
            Single::from_bits(0xe0ad_78ec)  // -1e+20
        }
    } else {
        inverse(x)
    }
}

/// Where a ray meets the low and the high planes of a box on each axis.
#[derive(Clone, Copy, Debug, PartialEq, Eq, Structural)]
pub struct Slabs {
    pub t0: Vec3,
    pub t1: Vec3,
}

/// The stretch of a ray inside a box, nothing where it has none.
pub open spec fn box_stretch(ray: Ray, s: Slabs) -> Option<(Single, Single)> {
    let stretch = slab_stretch(ray, s.t0, s.t1);
    if stretch.0.at_most(stretch.1) {
        Some(stretch)
    } else {
        None
    }
}

/// Slab test: the stretch of the ray inside the box, nothing where it has none.
/// `slabs` says where the ray meets the planes of the box.
pub fn ray_aabb_t<P: Fn(Ray, Aabb) -> Slabs>(ray: &Ray, aabb: &Aabb, slabs: &P) -> (r: Option<
    (Single, Single),
>)
    requires
        arithmetic::steady2(*slabs),
    ensures
        r == box_stretch(*ray, arithmetic::applied2(*slabs, *ray, *aabb)),
{
    let s: Slabs = slabs(*ray, *aabb);
    let t0: Vec3 = s.t0;
    let t1: Vec3 = s.t1;
    let near: Vec3 = t0.min(t1);
    let far: Vec3 = t0.max(t1);
    let tmin: Single = near.x.max(near.y).max(near.z).max(ray.t_min);
    let tmax: Single = far.x.min(far.y).min(far.z).min(ray.t_max);
    if tmin.le(tmax) {
        Some((tmin, tmax))
    } else {
        None
    }
}

pub const TRAVERSAL_STACK_SIZE: usize = 64;

// ---- the shape of a walk -----------------------------------------------

/// Whether a node has two children, both later in the list.
pub open spec fn inner(nodes: Seq<BvhNode>, node: int) -> bool {
    &&& 0 <= node < nodes.len()
    &&& nodes[node].prim_count == 0
    &&& node < nodes[node].left_or_start
    &&& nodes[node].left_or_start + 1 < nodes.len()
}

/// Whether slot `s` of the index list lies in a leaf at or under `node`.
pub open spec fn under(nodes: Seq<BvhNode>, node: int, s: int) -> bool
    decreases nodes.len() - node,
{
    if inner(nodes, node) {
        under(nodes, nodes[node].left_or_start as int, s) || under(
            nodes,
            nodes[node].left_or_start + 1,
            s,
        )
    } else {
        0 <= node < nodes.len() && nodes[node].left_or_start <= s < nodes[node].left_or_start
            + nodes[node].prim_count
    }
}

/// How many steps lie between `node` and the deepest leaf under it.
pub open spec fn height(nodes: Seq<BvhNode>, node: int) -> nat
    decreases nodes.len() - node,
{
    if !inner(nodes, node) {
        0
    } else {
        let l = height(nodes, nodes[node].left_or_start as int);
        let r = height(nodes, nodes[node].left_or_start + 1);
        1 + if l < r {
            r
        } else {
            l
        }
    }
}

/// How many nodes a full walk from `node` visits.
spec fn visits(nodes: Seq<BvhNode>, node: int) -> nat
    decreases nodes.len() - node,
{
    if !inner(nodes, node) {
        1
    } else {
        1 + visits(nodes, nodes[node].left_or_start as int) + visits(
            nodes,
            nodes[node].left_or_start + 1,
        )
    }
}

spec fn stack_visits(nodes: Seq<BvhNode>, stack: Seq<u32>) -> nat
    decreases stack.len(),
{
    if stack.len() == 0 {
        0
    } else {
        stack_visits(nodes, stack.drop_last()) + visits(nodes, stack.last() as int)
    }
}

/// Whether slot `s` is still to be visited: under `node` or under the stack.
spec fn awaits(nodes: Seq<BvhNode>, node: int, stack: Seq<u32>, s: int) -> bool {
    under(nodes, node, s) || exists|k: int|
        0 <= k < stack.len() && under(nodes, #[trigger] stack[k] as int, s)
}

/// Whether no push can be refused from here on.
spec fn roomy(nodes: Seq<BvhNode>, node: int, stack: Seq<u32>) -> bool {
    &&& stack.len() + height(nodes, node) <= TRAVERSAL_STACK_SIZE
    &&& forall|k: int|
        0 <= k < stack.len() ==> k + height(nodes, #[trigger] stack[k] as int)
            < TRAVERSAL_STACK_SIZE
}

// ---- what the tests must do for a walk to find what is there ------------

/// Whether the triangle in slot `s` may be reported hit by the ray up to `t`.
pub open spec fn reports<T: Fn(ShadingTriangle, Ray) -> Option<Intersection>>(
    tri_hit: T,
    bvh: Bvh,
    triangles: Seq<ShadingTriangle>,
    ray: Ray,
    s: int,
    hit: Intersection,
) -> bool {
    tri_hit.ensures((triangles[bvh.prim_indices@[s] as int], ray), Some(hit))
}

/// Whether the triangle in slot `s`, which is under the root, may be reported hit by
/// the ray.
pub open spec fn strikes<T: Fn(ShadingTriangle, Ray) -> Option<Intersection>>(
    tri_hit: T,
    bvh: Bvh,
    triangles: Seq<ShadingTriangle>,
    ray: Ray,
    s: int,
    hit: Intersection,
) -> bool {
    &&& 0 <= s < bvh.prim_indices@.len()
    &&& under(bvh.nodes@, 0, s)
    &&& reports(tri_hit, bvh, triangles, ray, s, hit)
}

/// Whether `t` is the end of the ray, or not past a hit of the ray.
pub open spec fn within<T: Fn(ShadingTriangle, Ray) -> Option<Intersection>>(
    tri_hit: T,
    bvh: Bvh,
    triangles: Seq<ShadingTriangle>,
    ray: Ray,
    t: Single,
) -> bool {
    t == ray.t_max || exists|s: int, hit: Intersection| #[trigger]
        strikes(tri_hit, bvh, triangles, ray, s, hit) && (t == hit.t || t.below(hit.t))
}

/// Whether the two tests agree with each other on a ray and its shortenings:
/// a hit lies before the end of the ray; a triangle that is hit is hit at the
/// same distance by every shorter ray that reaches it; what a shorter ray hits, the
/// ray hits; and a box is entered by every ray that reaches a hit inside it.
pub open spec fn faithful<
    S: Fn(Ray, Aabb) -> Option<Single>,
    T: Fn(ShadingTriangle, Ray) -> Option<Intersection>,
>(box_near: S, tri_hit: T, bvh: Bvh, triangles: Seq<ShadingTriangle>, ray: Ray) -> bool {
    &&& !ray.t_max.nan()
    &&& forall|s: int, t: Single, hit: Intersection|
        0 <= s < bvh.prim_indices@.len() && t.at_most(ray.t_max) && #[trigger] reports(
            tri_hit,
            bvh,
            triangles,
            ray.up_to(t),
            s,
            hit,
        ) ==> hit.t.below(t)
    &&& forall|s: int, hit: Intersection, t: Single, r: Option<Intersection>|
        0 <= s < bvh.prim_indices@.len() && #[trigger] reports(
            tri_hit,
            bvh,
            triangles,
            ray,
            s,
            hit,
        ) && t.at_most(ray.t_max) && #[trigger] tri_hit.ensures(
            (triangles[bvh.prim_indices@[s] as int], ray.up_to(t)),
            r,
        ) ==> match r {
            Some(other) => other.t.same(hit.t),
            None => !hit.t.below(t),
        }
    &&& forall|s: int, t: Single, hit: Intersection|
        0 <= s < bvh.prim_indices@.len() && t.at_most(ray.t_max) && #[trigger] reports(
            tri_hit,
            bvh,
            triangles,
            ray.up_to(t),
            s,
            hit,
        ) ==> reports(tri_hit, bvh, triangles, ray, s, hit)
    &&& boxes_hold(box_near, tri_hit, bvh, triangles, ray)
}

/// Whether a box is entered by the ray, and by each of its shortenings, that reaches a
/// hit inside the box.
pub open spec fn boxes_hold<
    S: Fn(Ray, Aabb) -> Option<Single>,
    T: Fn(ShadingTriangle, Ray) -> Option<Intersection>,
>(box_near: S, tri_hit: T, bvh: Bvh, triangles: Seq<ShadingTriangle>, ray: Ray) -> bool {
    forall|s: int, hit: Intersection, t: Single, node: int|
        0 <= s < bvh.prim_indices@.len() && #[trigger] reports(
            tri_hit,
            bvh,
            triangles,
            ray,
            s,
            hit,
        ) && t.at_most(ray.t_max) && #[trigger] under(bvh.nodes@, node, s)
            && #[trigger] box_near.ensures((ray.up_to(t), bvh.nodes@[node].bounds), None)
            ==> !hit.t.below(t)
}

/// Whether the triangle test is that of `ShadingTriangle::intersect`, on a ray and its
/// shortenings: `test` works out a triangle's numbers, which do not depend on where the
/// ray ends, and the distance of a triangle that is met is a number.
pub open spec fn own_test<T: Fn(ShadingTriangle, Ray) -> Option<Intersection>>(
    tri_hit: T,
    bvh: Bvh,
    triangles: Seq<ShadingTriangle>,
    ray: Ray,
    test: spec_fn(ShadingTriangle) -> TriangleTest,
) -> bool {
    &&& forall|s: int, t: Single, r: Option<Intersection>|
        0 <= s < bvh.prim_indices@.len() ==> (#[trigger] tri_hit.ensures(
            (triangles[bvh.prim_indices@[s] as int], ray.up_to(t)),
            r,
        ) <==> r == triangles[bvh.prim_indices@[s] as int].hit_by(
            ray.up_to(t),
            test(triangles[bvh.prim_indices@[s] as int]),
        ))
    &&& forall|s: int|
        0 <= s < bvh.prim_indices@.len() ==> {
            let numbers = test(triangles[#[trigger] bvh.prim_indices@[s] as int]);
            !numbers.parallel() && numbers.inside() ==> !numbers.t.nan()
        }
}

/// Whether the two tests agree on one ray: a triangle is not both hit and
/// missed, and no box that is missed holds a triangle that is hit.
pub open spec fn consistent<
    S: Fn(Ray, Aabb) -> Option<Single>,
    T: Fn(ShadingTriangle, Ray) -> Option<Intersection>,
>(box_near: S, tri_hit: T, bvh: Bvh, triangles: Seq<ShadingTriangle>, ray: Ray) -> bool {
    &&& forall|s: int, hit: Intersection|
        0 <= s < bvh.prim_indices@.len() && #[trigger] reports(
            tri_hit,
            bvh,
            triangles,
            ray,
            s,
            hit,
        ) ==> !tri_hit.ensures((triangles[bvh.prim_indices@[s] as int], ray), None)
    &&& forall|s: int, hit: Intersection, node: int|
        0 <= s < bvh.prim_indices@.len() && #[trigger] reports(
            tri_hit,
            bvh,
            triangles,
            ray,
            s,
            hit,
        ) && #[trigger] under(bvh.nodes@, node, s) ==> !box_near.ensures(
            (ray, bvh.nodes@[node].bounds),
            None,
        )
}

/// What a walk for the closest hit may come back with. A hit is one that a triangle
/// under the root reported, for the ray or for the ray cut short at a hit; and the ray
/// itself hits a triangle there, no nearer. Where the tests are faithful and no leaf is
/// more than 64 steps below the root, it is a hit of the ray, at least as close as every
/// hit under the root, and nothing comes back exactly where there is none.
pub open spec fn nearest<
    S: Fn(Ray, Aabb) -> Option<Single>,
    T: Fn(ShadingTriangle, Ray) -> Option<Intersection>,
>(
    box_near: S,
    tri_hit: T,
    bvh: Bvh,
    triangles: Seq<ShadingTriangle>,
    ray: Ray,
    r: Option<Intersection>,
) -> bool {
    &&& bvh.nodes@.len() == 0 ==> r is None
    &&& r matches Some(hit) ==> exists|s: int, t: Single| #[trigger]
        strikes(tri_hit, bvh, triangles, ray.up_to(t), s, hit) && within(
            tri_hit,
            bvh,
            triangles,
            ray,
            t,
        )
    &&& r matches Some(hit) ==> exists|s: int, first: Intersection| #[trigger]
        strikes(tri_hit, bvh, triangles, ray, s, first) && (hit.t == first.t || hit.t.below(
            first.t,
        ))
    &&& faithful(box_near, tri_hit, bvh, triangles, ray) && height(bvh.nodes@, 0)
        <= TRAVERSAL_STACK_SIZE ==> {
        &&& r matches Some(hit) ==> exists|s: int| #[trigger]
            strikes(tri_hit, bvh, triangles, ray, s, hit)
        &&& forall|s: int, hit: Intersection| #[trigger]
            strikes(tri_hit, bvh, triangles, ray, s, hit) ==> r is Some && r->0.t.at_most(hit.t)
        &&& r is None <==> forall|s: int, hit: Intersection|
            !#[trigger] strikes(tri_hit, bvh, triangles, ray, s, hit)
    }
}

/// What a walk for any hit may come back with. `true` means that a triangle under the
/// root reported a hit. Where the tests are consistent and no leaf is more than 64 steps
/// below the root, `false` means that nothing under the root is hit.
pub open spec fn barred<
    S: Fn(Ray, Aabb) -> Option<Single>,
    T: Fn(ShadingTriangle, Ray) -> Option<Intersection>,
>(
    box_near: S,
    tri_hit: T,
    bvh: Bvh,
    triangles: Seq<ShadingTriangle>,
    ray: Ray,
    r: bool,
) -> bool {
    &&& bvh.nodes@.len() == 0 ==> !r
    &&& r ==> exists|s: int, hit: Intersection| #[trigger]
        strikes(tri_hit, bvh, triangles, ray, s, hit)
    &&& !r && consistent(box_near, tri_hit, bvh, triangles, ray) && height(bvh.nodes@, 0)
        <= TRAVERSAL_STACK_SIZE ==> forall|s: int, hit: Intersection|
        !#[trigger] strikes(tri_hit, bvh, triangles, ray, s, hit)
}

/// The hit to keep of the closest so far and a new one.
fn closer(closest: Option<Intersection>, hit: Intersection) -> (r: bool)
    ensures
        r == match closest {
            None => true,
            Some(c) => hit.t.below(c.t),
        },
{
    match closest {
        None => true,
        Some(c) => hit.t.lt(c.t),
    }
}

/// Whether a hit is one that a walk may keep: reported by a triangle under the root for
/// the ray or for the ray cut short at a hit, where the ray hits something no nearer.
spec fn found<T: Fn(ShadingTriangle, Ray) -> Option<Intersection>>(
    tri_hit: T,
    bvh: Bvh,
    triangles: Seq<ShadingTriangle>,
    ray: Ray,
    hit: Intersection,
) -> bool {
    &&& exists|s: int, t: Single| #[trigger]
        strikes(tri_hit, bvh, triangles, ray.up_to(t), s, hit) && within(
            tri_hit,
            bvh,
            triangles,
            ray,
            t,
        )
    &&& exists|s: int, first: Intersection| #[trigger]
        strikes(tri_hit, bvh, triangles, ray, s, first) && (hit.t == first.t || hit.t.below(
            first.t,
        ))
}

/// A hit that a shortened ray reports may be kept where it is nearer than the one kept
/// so far.
proof fn keep<T: Fn(ShadingTriangle, Ray) -> Option<Intersection>>(
    tri_hit: T,
    bvh: Bvh,
    triangles: Seq<ShadingTriangle>,
    ray: Ray,
    kept: Option<Intersection>,
    s: int,
    hit: Intersection,
)
    requires
        kept matches Some(c) ==> found(tri_hit, bvh, triangles, ray, c) && hit.t.below(c.t),
        strikes(
            tri_hit,
            bvh,
            triangles,
            ray.up_to(
                match kept {
                    None => ray.t_max,
                    Some(c) => c.t,
                },
            ),
            s,
            hit,
        ),
    ensures
        found(tri_hit, bvh, triangles, ray, hit),
{
    assert(ray.up_to(ray.t_max) == ray);
    match kept {
        None => {
            assert(within(tri_hit, bvh, triangles, ray, ray.t_max));
        },
        Some(c) => {
            let (s0, first) = choose|s0: int, first: Intersection| #[trigger]
                strikes(tri_hit, bvh, triangles, ray, s0, first) && (c.t == first.t || c.t.below(
                    first.t,
                ));
            assert(within(tri_hit, bvh, triangles, ray, c.t));
            assert(hit.t.below(first.t));
        },
    }
}

/// Whether no hit of a slot is nearer than `t`.
spec fn settled<T: Fn(ShadingTriangle, Ray) -> Option<Intersection>>(
    tri_hit: T,
    bvh: Bvh,
    triangles: Seq<ShadingTriangle>,
    ray: Ray,
    s: int,
    t: Single,
) -> bool {
    forall|hit: Intersection| #[trigger]
        reports(tri_hit, bvh, triangles, ray, s, hit) ==> !hit.t.below(t)
}

/// Walks the tree for the closest hit, nearer children first.
pub fn closest_hit<
    S: Fn(Ray, Aabb) -> Option<Single>,
    T: Fn(ShadingTriangle, Ray) -> Option<Intersection>,
>(
    bvh: &Bvh,
    triangles: &Vec<ShadingTriangle>,
    ray: &Ray,
    box_near: S,
    tri_hit: T,
) -> (r: Option<Intersection>)
    requires
        bvh.wf(),
        forall|s: int|
            0 <= s < bvh.prim_indices@.len() ==> (#[trigger] bvh.prim_indices@[s])
                < triangles@.len(),
        forall|a: Ray, b: Aabb| #[trigger] box_near.requires((a, b)),
        forall|t: ShadingTriangle, a: Ray| #[trigger] tri_hit.requires((t, a)),
    ensures
        nearest(box_near, tri_hit, *bvh, triangles@, *ray, r),
{
    if bvh.nodes.len() == 0 {
        return None;
    }
    let mut stack: Vec<u32> = Vec::new();
    let mut closest: Option<Intersection> = None;
    let mut active: Ray = *ray;
    let mut node: u32 = 0;
    let ghost nodes = bvh.nodes@;
    let ghost good = faithful(box_near, tri_hit, *bvh, triangles@, *ray) && height(nodes, 0)
        <= TRAVERSAL_STACK_SIZE;
    loop
        invariant
            nodes == bvh.nodes@,
            bvh.wf(),
            node < nodes.len(),
            stack.len() <= TRAVERSAL_STACK_SIZE,
            forall|k: int| 0 <= k < stack.len() ==> (#[trigger] stack[k]) < nodes.len(),
            forall|s: int|
                0 <= s < bvh.prim_indices@.len() ==> (#[trigger] bvh.prim_indices@[s])
                    < triangles@.len(),
            forall|a: Ray, b: Aabb| #[trigger] box_near.requires((a, b)),
            forall|t: ShadingTriangle, a: Ray| #[trigger] tri_hit.requires((t, a)),
            forall|s: int| #[trigger]
                awaits(nodes, node as int, stack@, s) ==> under(nodes, 0, s),
            active == ray.up_to(active.t_max),
            active.t_max == match closest {
                None => ray.t_max,
                Some(c) => c.t,
            },
            closest matches Some(hit) ==> found(tri_hit, *bvh, triangles@, *ray, hit),
            good == (faithful(box_near, tri_hit, *bvh, triangles@, *ray) && height(nodes, 0)
                <= TRAVERSAL_STACK_SIZE),
            good ==> roomy(nodes, node as int, stack@),
            good ==> active.t_max.at_most(ray.t_max),
            good ==> forall|s: int|
                0 <= s < bvh.prim_indices@.len() && #[trigger] under(nodes, 0, s) && !awaits(
                    nodes,
                    node as int,
                    stack@,
                    s,
                ) ==> settled(tri_hit, *bvh, triangles@, *ray, s, active.t_max),
        ensures
            closest matches Some(hit) ==> found(tri_hit, *bvh, triangles@, *ray, hit),
            active.t_max == match closest {
                None => ray.t_max,
                Some(c) => c.t,
            },
            good ==> active.t_max.at_most(ray.t_max),
            good ==> forall|s: int|
                0 <= s < bvh.prim_indices@.len() && #[trigger] under(nodes, 0, s) ==> settled(
                    tri_hit,
                    *bvh,
                    triangles@,
                    *ray,
                    s,
                    active.t_max,
                ),
        decreases visits(nodes, node as int) + stack_visits(nodes, stack@),
    {
        let here: BvhNode = bvh.nodes[node as usize];
        assert(bvh::sound_node(nodes, bvh.prim_indices@.len() as int, node as int, 0));
        if here.is_leaf() {
            let slots: usize = bvh.prim_indices.len();
            let start: usize = here.left_or_start as usize;
            assert(start + here.prim_count <= slots);
            let end: usize = start + here.prim_count as usize;
            let mut slot: usize = start;
            while slot < end
                invariant
                    nodes == bvh.nodes@,
                    start <= slot <= end <= bvh.prim_indices@.len(),
                    forall|s: int|
                        0 <= s < bvh.prim_indices@.len() ==> (#[trigger] bvh.prim_indices@[s])
                            < triangles@.len(),
                    forall|t: ShadingTriangle, a: Ray| #[trigger] tri_hit.requires((t, a)),
                    active == ray.up_to(active.t_max),
                    active.t_max == match closest {
                        None => ray.t_max,
                        Some(c) => c.t,
                    },
                    closest matches Some(hit) ==> found(tri_hit, *bvh, triangles@, *ray, hit),
                    forall|s: int|
                        start <= s < end ==> #[trigger] under(nodes, node as int, s),
                    forall|s: int| #[trigger]
                        awaits(nodes, node as int, stack@, s) ==> under(nodes, 0, s),
                    good ==> faithful(box_near, tri_hit, *bvh, triangles@, *ray),
                    good ==> active.t_max.at_most(ray.t_max),
                    good ==> forall|s: int|
                        0 <= s < bvh.prim_indices@.len() && #[trigger] under(nodes, 0, s) && (
                        !awaits(nodes, node as int, stack@, s) || start <= s < slot) ==> settled(
                            tri_hit,
                            *bvh,
                            triangles@,
                            *ray,
                            s,
                            active.t_max,
                        ),
                decreases end - slot,
            {
                let tri: ShadingTriangle = triangles[bvh.prim_indices[slot] as usize];
                let ghost before = active.t_max;
                let answer: Option<Intersection> = tri_hit(tri, active);
                if let Some(hit) = answer {
                    assert(reports(
                        tri_hit,
                        *bvh,
                        triangles@,
                        ray.up_to(before),
                        slot as int,
                        hit,
                    ));
                    if closer(closest, hit) {
                        proof {
                            assert(under(nodes, node as int, slot as int));
                            assert(awaits(nodes, node as int, stack@, slot as int));
                            keep(tri_hit, *bvh, triangles@, *ray, closest, slot as int, hit);
                        }
                        active.t_max = hit.t;
                        closest = Some(hit);
                    }
                }
                proof {
                    if good {
                        assert(settled(
                            tri_hit,
                            *bvh,
                            triangles@,
                            *ray,
                            slot as int,
                            active.t_max,
                        )) by {
                            assert forall|hit: Intersection| #[trigger]
                                reports(
                                    tri_hit,
                                    *bvh,
                                    triangles@,
                                    *ray,
                                    slot as int,
                                    hit,
                                ) implies !hit.t.below(active.t_max) by {
                                assert(tri_hit.ensures(
                                    (
                                        triangles@[bvh.prim_indices@[slot as int] as int],
                                        ray.up_to(before),
                                    ),
                                    answer,
                                ));
                            }
                        }
                        assert forall|s: int|
                            0 <= s < bvh.prim_indices@.len() && #[trigger] under(nodes, 0, s) && (
                            !awaits(nodes, node as int, stack@, s) || start <= s < slot
                                + 1) implies settled(
                            tri_hit,
                            *bvh,
                            triangles@,
                            *ray,
                            s,
                            active.t_max,
                        ) by {
                            if s != slot {
                                assert(settled(tri_hit, *bvh, triangles@, *ray, s, before));
                                assert forall|hit: Intersection| #[trigger]
                                    reports(
                                        tri_hit,
                                        *bvh,
                                        triangles@,
                                        *ray,
                                        s,
                                        hit,
                                    ) implies !hit.t.below(active.t_max) by {
                                    assert(!hit.t.below(before));
                                }
                            }
                        }
                    }
                }
                slot = slot + 1;
            }
        } else {
            let left: u32 = here.left_or_start;
            let right: u32 = left + 1;
            let l_near: Option<Single> = box_near(active, bvh.nodes[left as usize].bounds);
            let r_near: Option<Single> = box_near(active, bvh.nodes[right as usize].bounds);
            let ghost old_stack = stack@;
            let ghost old_node = node as int;
            match (l_near, r_near) {
                (Some(l), Some(r)) => {
                    let near_first: bool = l.le(r);
                    let (first, second): (u32, u32) = if near_first {
                        (left, right)
                    } else {
                        (right, left)
                    };
                    if stack.len() < TRAVERSAL_STACK_SIZE {
                        stack.push(second);
                    }
                    node = first;
                    proof {
                        descend_both(nodes, old_node, old_stack, stack@, first, second);
                        if good {
                            keep_settled(
                                tri_hit,
                                *bvh,
                                triangles@,
                                *ray,
                                active.t_max,
                                old_node,
                                old_stack,
                                node as int,
                                stack@,
                            );
                        }
                    }
                    continue;
                },
                (Some(_), None) => {
                    node = left;
                    proof {
                        step_down(nodes, old_node, old_stack, left as int);
                        if good {
                            skip_child(
                                box_near,
                                tri_hit,
                                *bvh,
                                triangles@,
                                *ray,
                                active.t_max,
                                old_node,
                                old_stack,
                                left as int,
                                right as int,
                            );
                        }
                    }
                    continue;
                },
                (None, Some(_)) => {
                    node = right;
                    proof {
                        step_down(nodes, old_node, old_stack, right as int);
                        if good {
                            skip_child(
                                box_near,
                                tri_hit,
                                *bvh,
                                triangles@,
                                *ray,
                                active.t_max,
                                old_node,
                                old_stack,
                                right as int,
                                left as int,
                            );
                        }
                    }
                    continue;
                },
                (None, None) => {},
            }
        }
        // Nothing under this node is left to visit.
        proof {
            if good {
                assert forall|s: int|
                    0 <= s < bvh.prim_indices@.len() && #[trigger] under(nodes, 0, s) && !(exists|
                        k: int,
                    |
                        0 <= k < stack@.len() && under(
                            nodes,
                            #[trigger] stack@[k] as int,
                            s,
                        )) implies settled(tri_hit, *bvh, triangles@, *ray, s, active.t_max) by {
                    if under(nodes, node as int, s) && here.prim_count == 0 {
                        let left = here.left_or_start as int;
                        assert forall|hit: Intersection| #[trigger]
                            reports(
                                tri_hit,
                                *bvh,
                                triangles@,
                                *ray,
                                s,
                                hit,
                            ) implies !hit.t.below(active.t_max) by {
                            assert(active == ray.up_to(active.t_max));
                            if under(nodes, left, s) {
                                assert(box_near.ensures(
                                    (ray.up_to(active.t_max), nodes[left].bounds),
                                    None,
                                ));
                            } else {
                                assert(under(nodes, left + 1, s));
                                assert(box_near.ensures(
                                    (ray.up_to(active.t_max), nodes[left + 1].bounds),
                                    None,
                                ));
                            }
                        }
                    }
                }
            }
        }
        let ghost popped = stack@;
        match stack.pop() {
            None => {
                break;
            },
            Some(next) => {
                proof {
                    assert(popped =~= stack@.push(next));
                    step_back(nodes, node as int, stack@, next);
                    if good {
                        assert forall|s: int|
                            0 <= s < bvh.prim_indices@.len() && #[trigger] under(nodes, 0, s)
                                && !awaits(nodes, next as int, stack@, s) implies settled(
                            tri_hit,
                            *bvh,
                            triangles@,
                            *ray,
                            s,
                            active.t_max,
                        ) by {
                            if exists|k: int|
                                0 <= k < popped.len() && under(
                                    nodes,
                                    #[trigger] popped[k] as int,
                                    s,
                                ) {
                                let k = choose|k: int|
                                    0 <= k < popped.len() && under(
                                        nodes,
                                        #[trigger] popped[k] as int,
                                        s,
                                    );
                                if k < stack@.len() {
                                    assert(under(nodes, stack@[k] as int, s));
                                }
                            }
                        }
                        assert(popped[stack@.len() as int] == next);
                    }
                }
                node = next;
            },
        }
    }
    proof {
        if good {
            assert forall|s: int, hit: Intersection| #[trigger]
                strikes(tri_hit, *bvh, triangles@, *ray, s, hit) implies closest is Some
                && closest->0.t.at_most(hit.t) by {
                assert(settled(tri_hit, *bvh, triangles@, *ray, s, active.t_max));
                assert(ray.up_to(ray.t_max) == *ray);
                assert(reports(tri_hit, *bvh, triangles@, ray.up_to(ray.t_max), s, hit));
            }
            if let Some(hit) = closest {
                hits_lie_on_the_ray(box_near, tri_hit, *bvh, triangles@, *ray, hit);
            }
        }
    }
    closest
}

/// Where the tests are faithful, a hit that a walk keeps is a hit of the ray.
proof fn hits_lie_on_the_ray<
    S: Fn(Ray, Aabb) -> Option<Single>,
    T: Fn(ShadingTriangle, Ray) -> Option<Intersection>,
>(
    box_near: S,
    tri_hit: T,
    bvh: Bvh,
    triangles: Seq<ShadingTriangle>,
    ray: Ray,
    hit: Intersection,
)
    requires
        faithful(box_near, tri_hit, bvh, triangles, ray),
        found(tri_hit, bvh, triangles, ray, hit),
    ensures
        exists|s: int| #[trigger] strikes(tri_hit, bvh, triangles, ray, s, hit),
{
    assert(ray.up_to(ray.t_max) == ray);
    let (s, t) = choose|s: int, t: Single| #[trigger]
        strikes(tri_hit, bvh, triangles, ray.up_to(t), s, hit) && within(
            tri_hit,
            bvh,
            triangles,
            ray,
            t,
        );
    if t != ray.t_max {
        let (s0, first) = choose|s0: int, first: Intersection| #[trigger]
            strikes(tri_hit, bvh, triangles, ray, s0, first) && (t == first.t || t.below(first.t));
        assert(reports(tri_hit, bvh, triangles, ray.up_to(ray.t_max), s0, first));
        assert(t.at_most(ray.t_max));
    }
    assert(strikes(tri_hit, bvh, triangles, ray, s, hit));
}

/// What waits after a step down to a child waited before.
proof fn step_down(nodes: Seq<BvhNode>, node: int, stack: Seq<u32>, child: int)
    requires
        inner(nodes, node),
        child == nodes[node].left_or_start || child == nodes[node].left_or_start + 1,
    ensures
        forall|s: int| #[trigger] awaits(nodes, child, stack, s) ==> awaits(nodes, node, stack, s),
{
    assert forall|s: int| #[trigger] awaits(nodes, child, stack, s) implies awaits(
        nodes,
        node,
        stack,
        s,
    ) by {
        if under(nodes, child, s) {
            assert(under(nodes, node, s));
        }
    }
}

/// What waits after a step back to the top of the stack waited before.
proof fn step_back(nodes: Seq<BvhNode>, node: int, stack: Seq<u32>, next: u32)
    ensures
        forall|s: int| #[trigger]
            awaits(nodes, next as int, stack, s) ==> awaits(nodes, node, stack.push(next), s),
{
    let before = stack.push(next);
    assert forall|s: int| #[trigger] awaits(nodes, next as int, stack, s) implies awaits(
        nodes,
        node,
        before,
        s,
    ) by {
        if under(nodes, next as int, s) {
            assert(under(nodes, before[stack.len() as int] as int, s));
        } else {
            let k = choose|k: int|
                0 <= k < stack.len() && under(nodes, #[trigger] stack[k] as int, s);
            assert(under(nodes, before[k] as int, s));
        }
    }
}

proof fn descend_both(
    nodes: Seq<BvhNode>,
    node: int,
    old_stack: Seq<u32>,
    stack: Seq<u32>,
    first: u32,
    second: u32,
)
    requires
        0 <= node < nodes.len(),
        inner(nodes, node),
        ({
            let left = nodes[node].left_or_start as int;
            (first == left && second == left + 1) || (first == left + 1 && second == left)
        }),
        old_stack.len() < TRAVERSAL_STACK_SIZE ==> stack == old_stack.push(second),
        old_stack.len() >= TRAVERSAL_STACK_SIZE ==> stack == old_stack,
    ensures
        visits(nodes, first as int) + stack_visits(nodes, stack) < visits(nodes, node)
            + stack_visits(nodes, old_stack),
        forall|s: int| #[trigger]
            awaits(nodes, first as int, stack, s) ==> awaits(nodes, node, old_stack, s),
        roomy(nodes, node, old_stack) ==> roomy(nodes, first as int, stack) && forall|s: int|
            awaits(nodes, first as int, stack, s) <==> #[trigger] awaits(
                nodes,
                node,
                old_stack,
                s,
            ),
{
    if stack == old_stack.push(second) {
        assert(stack.drop_last() =~= old_stack);
    }
    assert forall|s: int| #[trigger] awaits(nodes, first as int, stack, s) implies awaits(
        nodes,
        node,
        old_stack,
        s,
    ) by {
        if !under(nodes, first as int, s) {
            let k = choose|k: int|
                0 <= k < stack.len() && under(nodes, #[trigger] stack[k] as int, s);
            if k < old_stack.len() {
                assert(under(nodes, old_stack[k] as int, s));
            }
        }
    }
    if roomy(nodes, node, old_stack) {
        assert(height(nodes, node) >= 1);
        assert(stack == old_stack.push(second));
        assert forall|s: int|
            awaits(nodes, first as int, stack, s) <==> #[trigger] awaits(
                nodes,
                node,
                old_stack,
                s,
            ) by {
            if awaits(nodes, first as int, stack, s) {
                if !under(nodes, first as int, s) {
                    let k = choose|k: int|
                        0 <= k < stack.len() && under(nodes, #[trigger] stack[k] as int, s);
                    if k < old_stack.len() {
                        assert(under(nodes, old_stack[k] as int, s));
                    }
                }
            }
            if awaits(nodes, node, old_stack, s) {
                if under(nodes, node, s) {
                    assert(stack[old_stack.len() as int] == second);
                } else {
                    let k = choose|k: int|
                        0 <= k < old_stack.len() && under(
                            nodes,
                            #[trigger] old_stack[k] as int,
                            s,
                        );
                    assert(stack[k] == old_stack[k]);
                }
            }
        }
    }
}

proof fn keep_settled<T: Fn(ShadingTriangle, Ray) -> Option<Intersection>>(
    tri_hit: T,
    bvh: Bvh,
    triangles: Seq<ShadingTriangle>,
    ray: Ray,
    t: Single,
    old_node: int,
    old_stack: Seq<u32>,
    node: int,
    stack: Seq<u32>,
)
    requires
        forall|s: int|
            awaits(bvh.nodes@, node, stack, s) <==> #[trigger] awaits(
                bvh.nodes@,
                old_node,
                old_stack,
                s,
            ),
        forall|s: int|
            0 <= s < bvh.prim_indices@.len() && #[trigger] under(bvh.nodes@, 0, s) && !awaits(
                bvh.nodes@,
                old_node,
                old_stack,
                s,
            ) ==> settled(tri_hit, bvh, triangles, ray, s, t),
    ensures
        forall|s: int|
            0 <= s < bvh.prim_indices@.len() && #[trigger] under(bvh.nodes@, 0, s) && !awaits(
                bvh.nodes@,
                node,
                stack,
                s,
            ) ==> settled(tri_hit, bvh, triangles, ray, s, t),
{
    assert forall|s: int|
        0 <= s < bvh.prim_indices@.len() && #[trigger] under(bvh.nodes@, 0, s) && !awaits(
            bvh.nodes@,
            node,
            stack,
            s,
        ) implies settled(tri_hit, bvh, triangles, ray, s, t) by {
        assert(!awaits(bvh.nodes@, old_node, old_stack, s));
    }
}

proof fn skip_child<
    S: Fn(Ray, Aabb) -> Option<Single>,
    T: Fn(ShadingTriangle, Ray) -> Option<Intersection>,
>(
    box_near: S,
    tri_hit: T,
    bvh: Bvh,
    triangles: Seq<ShadingTriangle>,
    ray: Ray,
    t: Single,
    node: int,
    stack: Seq<u32>,
    taken: int,
    skipped: int,
)
    requires
        0 <= node < bvh.nodes@.len(),
        inner(bvh.nodes@, node),
        ({
            let left = bvh.nodes@[node].left_or_start as int;
            (taken == left && skipped == left + 1) || (taken == left + 1 && skipped == left)
        }),
        faithful(box_near, tri_hit, bvh, triangles, ray),
        t.at_most(ray.t_max),
        box_near.ensures((ray.up_to(t), bvh.nodes@[skipped].bounds), None),
        roomy(bvh.nodes@, node, stack),
        forall|s: int|
            0 <= s < bvh.prim_indices@.len() && #[trigger] under(bvh.nodes@, 0, s) && !awaits(
                bvh.nodes@,
                node,
                stack,
                s,
            ) ==> settled(tri_hit, bvh, triangles, ray, s, t),
    ensures
        roomy(bvh.nodes@, taken, stack),
        forall|s: int|
            0 <= s < bvh.prim_indices@.len() && #[trigger] under(bvh.nodes@, 0, s) && !awaits(
                bvh.nodes@,
                taken,
                stack,
                s,
            ) ==> settled(tri_hit, bvh, triangles, ray, s, t),
{
    assert forall|s: int|
        0 <= s < bvh.prim_indices@.len() && #[trigger] under(bvh.nodes@, 0, s) && !awaits(
            bvh.nodes@,
            taken,
            stack,
            s,
        ) implies settled(tri_hit, bvh, triangles, ray, s, t) by {
        if awaits(bvh.nodes@, node, stack, s) {
            assert(under(bvh.nodes@, skipped, s));
        }
    }
}

/// Whether nothing in a slot is hit.
spec fn clear<T: Fn(ShadingTriangle, Ray) -> Option<Intersection>>(
    tri_hit: T,
    bvh: Bvh,
    triangles: Seq<ShadingTriangle>,
    ray: Ray,
    s: int,
) -> bool {
    forall|hit: Intersection| !#[trigger] reports(tri_hit, bvh, triangles, ray, s, hit)
}

/// Walks the tree until the ray meets anything.
pub fn any_hit<
    S: Fn(Ray, Aabb) -> Option<Single>,
    T: Fn(ShadingTriangle, Ray) -> Option<Intersection>,
>(bvh: &Bvh, triangles: &Vec<ShadingTriangle>, ray: &Ray, box_near: S, tri_hit: T) -> (r: bool)
    requires
        bvh.wf(),
        forall|s: int|
            0 <= s < bvh.prim_indices@.len() ==> (#[trigger] bvh.prim_indices@[s])
                < triangles@.len(),
        forall|a: Ray, b: Aabb| #[trigger] box_near.requires((a, b)),
        forall|t: ShadingTriangle, a: Ray| #[trigger] tri_hit.requires((t, a)),
    ensures
        barred(box_near, tri_hit, *bvh, triangles@, *ray, r),
{
    if bvh.nodes.len() == 0 {
        return false;
    }
    let mut stack: Vec<u32> = Vec::new();
    let mut node: u32 = 0;
    let ghost nodes = bvh.nodes@;
    let ghost good = consistent(box_near, tri_hit, *bvh, triangles@, *ray) && height(nodes, 0)
        <= TRAVERSAL_STACK_SIZE;
    loop
        invariant
            nodes == bvh.nodes@,
            bvh.wf(),
            node < nodes.len(),
            stack.len() <= TRAVERSAL_STACK_SIZE,
            forall|k: int| 0 <= k < stack.len() ==> (#[trigger] stack[k]) < nodes.len(),
            forall|s: int|
                0 <= s < bvh.prim_indices@.len() ==> (#[trigger] bvh.prim_indices@[s])
                    < triangles@.len(),
            forall|a: Ray, b: Aabb| #[trigger] box_near.requires((a, b)),
            forall|t: ShadingTriangle, a: Ray| #[trigger] tri_hit.requires((t, a)),
            forall|s: int| #[trigger]
                awaits(nodes, node as int, stack@, s) ==> under(nodes, 0, s),
            good == (consistent(box_near, tri_hit, *bvh, triangles@, *ray) && height(nodes, 0)
                <= TRAVERSAL_STACK_SIZE),
            good ==> roomy(nodes, node as int, stack@),
            good ==> forall|s: int|
                0 <= s < bvh.prim_indices@.len() && #[trigger] under(nodes, 0, s) && !awaits(
                    nodes,
                    node as int,
                    stack@,
                    s,
                ) ==> clear(tri_hit, *bvh, triangles@, *ray, s),
        ensures
            good ==> forall|s: int|
                0 <= s < bvh.prim_indices@.len() && #[trigger] under(nodes, 0, s) ==> clear(
                    tri_hit,
                    *bvh,
                    triangles@,
                    *ray,
                    s,
                ),
        decreases visits(nodes, node as int) + stack_visits(nodes, stack@),
    {
        let here: BvhNode = bvh.nodes[node as usize];
        assert(bvh::sound_node(nodes, bvh.prim_indices@.len() as int, node as int, 0));
        let ghost old_stack = stack@;
        let ghost old_node = node as int;
        if here.is_leaf() {
            let slots: usize = bvh.prim_indices.len();
            let start: usize = here.left_or_start as usize;
            assert(start + here.prim_count <= slots);
            let end: usize = start + here.prim_count as usize;
            let mut slot: usize = start;
            while slot < end
                invariant
                    nodes == bvh.nodes@,
                    bvh.nodes@.len() > 0,
                    forall|s: int|
                        start <= s < end ==> #[trigger] under(nodes, node as int, s),
                    forall|s: int| #[trigger]
                        awaits(nodes, node as int, stack@, s) ==> under(nodes, 0, s),
                    start <= slot <= end <= bvh.prim_indices@.len(),
                    forall|s: int|
                        0 <= s < bvh.prim_indices@.len() ==> (#[trigger] bvh.prim_indices@[s])
                            < triangles@.len(),
                    forall|t: ShadingTriangle, a: Ray| #[trigger] tri_hit.requires((t, a)),
                    good ==> consistent(box_near, tri_hit, *bvh, triangles@, *ray),
                    good ==> forall|s: int|
                        start <= s < slot ==> #[trigger] clear(tri_hit, *bvh, triangles@, *ray, s),
                decreases end - slot,
            {
                let tri: ShadingTriangle = triangles[bvh.prim_indices[slot] as usize];
                if let Some(hit) = tri_hit(tri, *ray) {
                    proof {
                        assert(under(nodes, node as int, slot as int));
                        assert(awaits(nodes, node as int, stack@, slot as int));
                        assert(strikes(tri_hit, *bvh, triangles@, *ray, slot as int, hit));
                    }
                    return true;
                }
                slot = slot + 1;
            }
        } else {
            let left: u32 = here.left_or_start;
            let right: u32 = left + 1;
            let l_near: Option<Single> = box_near(*ray, bvh.nodes[left as usize].bounds);
            let r_near: Option<Single> = box_near(*ray, bvh.nodes[right as usize].bounds);
            if l_near.is_some() && r_near.is_some() {
                if stack.len() < TRAVERSAL_STACK_SIZE {
                    stack.push(right);
                }
                node = left;
                proof {
                    descend_both(nodes, old_node, old_stack, stack@, left, right);
                    if good {
                        assert forall|s: int|
                            0 <= s < bvh.prim_indices@.len() && #[trigger] under(nodes, 0, s)
                                && !awaits(nodes, node as int, stack@, s) implies clear(
                            tri_hit,
                            *bvh,
                            triangles@,
                            *ray,
                            s,
                        ) by {
                            assert(!awaits(nodes, old_node, old_stack, s));
                        }
                    }
                }
                continue;
            }
            if l_near.is_some() {
                node = left;
                proof {
                    step_down(nodes, old_node, old_stack, left as int);
                    if good {
                        pass_by(
                            box_near,
                            tri_hit,
                            *bvh,
                            triangles@,
                            *ray,
                            old_node,
                            old_stack,
                            left as int,
                            right as int,
                        );
                    }
                }
                continue;
            }
            if r_near.is_some() {
                node = right;
                proof {
                    step_down(nodes, old_node, old_stack, right as int);
                    if good {
                        pass_by(
                            box_near,
                            tri_hit,
                            *bvh,
                            triangles@,
                            *ray,
                            old_node,
                            old_stack,
                            right as int,
                            left as int,
                        );
                    }
                }
                continue;
            }
        }
        // Nothing under this node is left to visit.
        proof {
            if good {
                assert forall|s: int|
                    0 <= s < bvh.prim_indices@.len() && #[trigger] under(nodes, 0, s) && !(exists|
                        k: int,
                    |
                        0 <= k < stack@.len() && under(
                            nodes,
                            #[trigger] stack@[k] as int,
                            s,
                        )) implies clear(tri_hit, *bvh, triangles@, *ray, s) by {
                    if under(nodes, node as int, s) && here.prim_count == 0 {
                        let left = here.left_or_start as int;
                        if under(nodes, left, s) {
                            assert(box_near.ensures((*ray, nodes[left].bounds), None));
                        } else {
                            assert(under(nodes, left + 1, s));
                            assert(box_near.ensures((*ray, nodes[left + 1].bounds), None));
                        }
                    }
                }
            }
        }
        match stack.pop() {
            None => {
                break;
            },
            Some(next) => {
                proof {
                    assert(old_stack =~= stack@.push(next));
                    step_back(nodes, node as int, stack@, next);
                    if good {
                        assert forall|s: int|
                            0 <= s < bvh.prim_indices@.len() && #[trigger] under(nodes, 0, s)
                                && !awaits(nodes, next as int, stack@, s) implies clear(
                            tri_hit,
                            *bvh,
                            triangles@,
                            *ray,
                            s,
                        ) by {
                            if exists|k: int|
                                0 <= k < old_stack.len() && under(
                                    nodes,
                                    #[trigger] old_stack[k] as int,
                                    s,
                                ) {
                                let k = choose|k: int|
                                    0 <= k < old_stack.len() && under(
                                        nodes,
                                        #[trigger] old_stack[k] as int,
                                        s,
                                    );
                                if k < stack@.len() {
                                    assert(under(nodes, stack@[k] as int, s));
                                }
                            }
                        }
                        assert(old_stack[stack@.len() as int] == next);
                    }
                }
                node = next;
            },
        }
    }
    proof {
        if good {
            assert forall|s: int, hit: Intersection|
                !#[trigger] strikes(tri_hit, *bvh, triangles@, *ray, s, hit) by {
                if under(bvh.nodes@, 0, s) && 0 <= s < bvh.prim_indices@.len() {
                    assert(clear(tri_hit, *bvh, triangles@, *ray, s));
                }
            }
        }
    }
    false
}

proof fn pass_by<
    S: Fn(Ray, Aabb) -> Option<Single>,
    T: Fn(ShadingTriangle, Ray) -> Option<Intersection>,
>(
    box_near: S,
    tri_hit: T,
    bvh: Bvh,
    triangles: Seq<ShadingTriangle>,
    ray: Ray,
    node: int,
    stack: Seq<u32>,
    taken: int,
    skipped: int,
)
    requires
        inner(bvh.nodes@, node),
        ({
            let left = bvh.nodes@[node].left_or_start as int;
            (taken == left && skipped == left + 1) || (taken == left + 1 && skipped == left)
        }),
        consistent(box_near, tri_hit, bvh, triangles, ray),
        box_near.ensures((ray, bvh.nodes@[skipped].bounds), None),
        roomy(bvh.nodes@, node, stack),
        forall|s: int|
            0 <= s < bvh.prim_indices@.len() && #[trigger] under(bvh.nodes@, 0, s) && !awaits(
                bvh.nodes@,
                node,
                stack,
                s,
            ) ==> clear(tri_hit, bvh, triangles, ray, s),
    ensures
        roomy(bvh.nodes@, taken, stack),
        forall|s: int|
            0 <= s < bvh.prim_indices@.len() && #[trigger] under(bvh.nodes@, 0, s) && !awaits(
                bvh.nodes@,
                taken,
                stack,
                s,
            ) ==> clear(tri_hit, bvh, triangles, ray, s),
{
    assert forall|s: int|
        0 <= s < bvh.prim_indices@.len() && #[trigger] under(bvh.nodes@, 0, s) && !awaits(
            bvh.nodes@,
            taken,
            stack,
            s,
        ) implies clear(tri_hit, bvh, triangles, ray, s) by {
        if awaits(bvh.nodes@, node, stack, s) {
            assert(under(bvh.nodes@, skipped, s));
        }
    }
}

/// A triangle that a ray meets is met by every shorter ray that reaches it, at the same
/// place, and by no other, as long as the test's numbers do not change and are numbers.
pub proof fn shorter_rays_meet_what_they_reach(
    triangle: ShadingTriangle,
    ray: Ray,
    test: TriangleTest,
    t: Single,
)
    requires
        !test.t.nan(),
        t.at_most(ray.t_max),
    ensures
        triangle.hit_by(ray, test) matches Some(hit) ==> hit.t.below(ray.t_max)
            && triangle.hit_by(ray.up_to(t), test) == if hit.t.below(t) {
            Some(hit)
        } else {
            None
        },
        triangle.hit_by(ray, test) is None ==> triangle.hit_by(ray.up_to(t), test) is None,
{
}

/// The library's own triangle test is faithful to every ray whose end is a number, where
/// boxes are entered by the rays that reach a hit inside them.
pub proof fn own_test_is_faithful<
    S: Fn(Ray, Aabb) -> Option<Single>,
    T: Fn(ShadingTriangle, Ray) -> Option<Intersection>,
>(
    box_near: S,
    tri_hit: T,
    bvh: Bvh,
    triangles: Seq<ShadingTriangle>,
    ray: Ray,
    test: spec_fn(ShadingTriangle) -> TriangleTest,
)
    requires
        !ray.t_max.nan(),
        own_test(tri_hit, bvh, triangles, ray, test),
        boxes_hold(box_near, tri_hit, bvh, triangles, ray),
    ensures
        faithful(box_near, tri_hit, bvh, triangles, ray),
{
    assert(ray.up_to(ray.t_max) == ray);
    assert forall|s: int, t: Single, hit: Intersection|
        0 <= s < bvh.prim_indices@.len() && t.at_most(ray.t_max) && #[trigger] reports(
            tri_hit,
            bvh,
            triangles,
            ray.up_to(t),
            s,
            hit,
        ) implies hit.t.below(t) && reports(tri_hit, bvh, triangles, ray, s, hit) by {
        let tri = triangles[bvh.prim_indices@[s] as int];
        assert(tri_hit.ensures((tri, ray.up_to(t)), Some(hit)));
        assert(tri.hit_by(ray, test(tri)) == Some(hit));
        assert(tri_hit.ensures((tri, ray.up_to(ray.t_max)), Some(hit)));
    }
    assert forall|s: int, hit: Intersection, t: Single, r: Option<Intersection>|
        0 <= s < bvh.prim_indices@.len() && #[trigger] reports(
            tri_hit,
            bvh,
            triangles,
            ray,
            s,
            hit,
        ) && t.at_most(ray.t_max) && #[trigger] tri_hit.ensures(
            (triangles[bvh.prim_indices@[s] as int], ray.up_to(t)),
            r,
        ) implies match r {
        Some(other) => other.t.same(hit.t),
        None => !hit.t.below(t),
    } by {
        let tri = triangles[bvh.prim_indices@[s] as int];
        assert(tri_hit.ensures((tri, ray.up_to(ray.t_max)), Some(hit)));
        assert(tri.hit_by(ray, test(tri)) == Some(hit));
        assert(tri.hit_by(ray.up_to(t), test(tri)) == r);
    }
}

/// Whether a tree lists every triangle, and has every entry of its list under the root,
/// no leaf more than 64 steps down: what `Bvh::build` gives of so deep a tree.
pub open spec fn holds_every_triangle(bvh: Bvh, count: int) -> bool {
    &&& forall|s: int|
        0 <= s < bvh.prim_indices@.len() ==> (#[trigger] bvh.prim_indices@[s]) < count && under(
            bvh.nodes@,
            0,
            s,
        )
    &&& forall|i: int| 0 <= i < count ==> #[trigger] bvh.prim_indices@.contains(i as u32)
    &&& height(bvh.nodes@, 0) <= TRAVERSAL_STACK_SIZE
}

/// A tree that was built of as many triangles, and is no more than 64 steps deep, holds
/// every one of them.
pub proof fn built_trees_hold_every_triangle<
    B: Fn(Aabb, Vec3) -> usize,
    C: Fn(Aabb, bvh::SplitCandidate) -> Single,
>(bucket_of: B, cost_of: C, prims: Seq<bvh::PrimInfo>, bvh: Bvh, count: nat)
    requires
        bvh.wf(),
        bvh::built(bucket_of, cost_of, prims, bvh),
        count <= bvh::MAX_PRIMS,
        bvh.prim_indices@.to_multiset() == Seq::new(count, |i: int| i as u32).to_multiset(),
        height(bvh.nodes@, 0) <= TRAVERSAL_STACK_SIZE,
    ensures
        holds_every_triangle(bvh, count as int),
{
    broadcast use vstd::seq_lib::group_to_multiset_ensures;

    let list = bvh.prim_indices@;
    let all = Seq::new(count, |i: int| i as u32);
    assert forall|s: int| 0 <= s < list.len() implies (#[trigger] list[s]) < count && under(
        bvh.nodes@,
        0,
        s,
    ) by {
        every_slot_is_under_the_root(bucket_of, cost_of, prims, bvh, s);
        assert(list.contains(list[s]));
        assert(list.to_multiset().count(list[s]) > 0);
        assert(all.contains(list[s]));
    }
    assert forall|i: int| 0 <= i < count implies #[trigger] list.contains(i as u32) by {
        assert(all[i] == i as u32);
        assert(all.contains(i as u32));
        assert(all.to_multiset().count(i as u32) > 0);
    }
}

/// With the library's own triangle test, a walk for the closest hit gives the hit of a
/// triangle, at least as close as that of every other, and nothing exactly where no
/// triangle is hit; and a walk for any hit tells whether one is.
pub proof fn walks_answer_for_every_triangle<
    S: Fn(Ray, Aabb) -> Option<Single>,
    T: Fn(ShadingTriangle, Ray) -> Option<Intersection>,
>(
    box_near: S,
    tri_hit: T,
    bvh: Bvh,
    triangles: Seq<ShadingTriangle>,
    ray: Ray,
    test: spec_fn(ShadingTriangle) -> TriangleTest,
    closest: Option<Intersection>,
    any: bool,
)
    requires
        nearest(box_near, tri_hit, bvh, triangles, ray, closest),
        barred(box_near, tri_hit, bvh, triangles, ray, any),
        !ray.t_max.nan(),
        own_test(tri_hit, bvh, triangles, ray, test),
        boxes_hold(box_near, tri_hit, bvh, triangles, ray),
        triangles.len() <= bvh::MAX_PRIMS,
        holds_every_triangle(bvh, triangles.len() as int),
    ensures
        closest is None <==> forall|i: int|
            0 <= i < triangles.len() ==> (#[trigger] triangles[i]).hit_by(
                ray,
                test(triangles[i]),
            ) is None,
        closest matches Some(hit) ==> exists|k: int|
            0 <= k < triangles.len() && (#[trigger] triangles[k]).hit_by(ray, test(triangles[k]))
                == Some(hit),
        closest matches Some(hit) ==> forall|i: int|
            0 <= i < triangles.len() && (#[trigger] triangles[i]).hit_by(
                ray,
                test(triangles[i]),
            ) is Some ==> hit.t.at_most(triangles[i].hit_by(ray, test(triangles[i]))->0.t),
        any == (closest is Some),
{
    assert(ray.up_to(ray.t_max) == ray);
    own_test_is_faithful(box_near, tri_hit, bvh, triangles, ray, test);
    any_hit_answers_as_closest_hit(box_near, tri_hit, bvh, triangles, ray, any, closest);
    assert forall|i: int|
        0 <= i < triangles.len() && (#[trigger] triangles[i]).hit_by(
            ray,
            test(triangles[i]),
        ) is Some implies closest is Some && closest->0.t.at_most(
        triangles[i].hit_by(ray, test(triangles[i]))->0.t,
    ) by {
        let hit = triangles[i].hit_by(ray, test(triangles[i]))->0;
        assert(bvh.prim_indices@.contains(i as u32));
        let s = choose|s: int|
            0 <= s < bvh.prim_indices@.len() && bvh.prim_indices@[s] == i as u32;
        assert(bvh.prim_indices@[s] < triangles.len());
        assert(tri_hit.ensures(
            (triangles[bvh.prim_indices@[s] as int], ray.up_to(ray.t_max)),
            Some(hit),
        ));
        assert(strikes(tri_hit, bvh, triangles, ray, s, hit));
    }
    if let Some(hit) = closest {
        let s = choose|s: int| #[trigger] strikes(tri_hit, bvh, triangles, ray, s, hit);
        let k = bvh.prim_indices@[s] as int;
        assert(tri_hit.ensures(
            (triangles[bvh.prim_indices@[s] as int], ray.up_to(ray.t_max)),
            Some(hit),
        ));
        assert(triangles[k].hit_by(ray, test(triangles[k])) == Some(hit));
    }
}

/// Where every hit of the ray lies before its end, so does the closest, and it was
/// reported for a ray that reaches no farther.
pub proof fn closest_hit_comes_before_the_end<
    S: Fn(Ray, Aabb) -> Option<Single>,
    T: Fn(ShadingTriangle, Ray) -> Option<Intersection>,
>(
    box_near: S,
    tri_hit: T,
    bvh: Bvh,
    triangles: Seq<ShadingTriangle>,
    ray: Ray,
    hit: Intersection,
)
    requires
        nearest(box_near, tri_hit, bvh, triangles, ray, Some(hit)),
        forall|s: int, first: Intersection| #[trigger]
            strikes(tri_hit, bvh, triangles, ray, s, first) ==> first.t.below(ray.t_max),
    ensures
        hit.t.below(ray.t_max),
        exists|s: int, t: Single| #[trigger]
            strikes(tri_hit, bvh, triangles, ray.up_to(t), s, hit) && (t == ray.t_max || t.at_most(
                ray.t_max,
            )),
{
    let (s, t) = choose|s: int, t: Single| #[trigger]
        strikes(tri_hit, bvh, triangles, ray.up_to(t), s, hit) && within(
            tri_hit,
            bvh,
            triangles,
            ray,
            t,
        );
    assert(strikes(tri_hit, bvh, triangles, ray.up_to(t), s, hit) && (t == ray.t_max || t.at_most(
        ray.t_max,
    )));
}

/// Tests that are faithful to a ray are consistent on it.
pub proof fn faithful_tests_are_consistent<
    S: Fn(Ray, Aabb) -> Option<Single>,
    T: Fn(ShadingTriangle, Ray) -> Option<Intersection>,
>(box_near: S, tri_hit: T, bvh: Bvh, triangles: Seq<ShadingTriangle>, ray: Ray)
    requires
        faithful(box_near, tri_hit, bvh, triangles, ray),
    ensures
        consistent(box_near, tri_hit, bvh, triangles, ray),
{
    assert(ray.up_to(ray.t_max) == ray);
    assert(ray.t_max.at_most(ray.t_max));
    assert forall|s: int, hit: Intersection|
        0 <= s < bvh.prim_indices@.len() && #[trigger] reports(
            tri_hit,
            bvh,
            triangles,
            ray,
            s,
            hit,
        ) implies hit.t.below(ray.t_max) by {
        assert(reports(tri_hit, bvh, triangles, ray.up_to(ray.t_max), s, hit));
    }
    assert forall|s: int, hit: Intersection|
        0 <= s < bvh.prim_indices@.len() && #[trigger] reports(
            tri_hit,
            bvh,
            triangles,
            ray,
            s,
            hit,
        ) implies !tri_hit.ensures((triangles[bvh.prim_indices@[s] as int], ray), None) by {
        if tri_hit.ensures((triangles[bvh.prim_indices@[s] as int], ray), None) {
            assert(tri_hit.ensures(
                (triangles[bvh.prim_indices@[s] as int], ray.up_to(ray.t_max)),
                None,
            ));
        }
    }
    assert forall|s: int, hit: Intersection, node: int|
        0 <= s < bvh.prim_indices@.len() && #[trigger] reports(
            tri_hit,
            bvh,
            triangles,
            ray,
            s,
            hit,
        ) && #[trigger] under(bvh.nodes@, node, s) implies !box_near.ensures(
        (ray, bvh.nodes@[node].bounds),
        None,
    ) by {
        if box_near.ensures((ray, bvh.nodes@[node].bounds), None) {
            assert(box_near.ensures((ray.up_to(ray.t_max), bvh.nodes@[node].bounds), None));
        }
    }
}

/// A walk for any hit answers whether a walk for the closest hit finds one, where both
/// are owed an answer; and what they find lies before the end of the ray.
pub proof fn any_hit_answers_as_closest_hit<
    S: Fn(Ray, Aabb) -> Option<Single>,
    T: Fn(ShadingTriangle, Ray) -> Option<Intersection>,
>(
    box_near: S,
    tri_hit: T,
    bvh: Bvh,
    triangles: Seq<ShadingTriangle>,
    ray: Ray,
    any: bool,
    closest: Option<Intersection>,
)
    requires
        barred(box_near, tri_hit, bvh, triangles, ray, any),
        nearest(box_near, tri_hit, bvh, triangles, ray, closest),
        faithful(box_near, tri_hit, bvh, triangles, ray),
        height(bvh.nodes@, 0) <= TRAVERSAL_STACK_SIZE,
    ensures
        any == (closest is Some),
        closest matches Some(hit) ==> hit.t.below(ray.t_max),
{
    faithful_tests_are_consistent(box_near, tri_hit, bvh, triangles, ray);
    assert(ray.up_to(ray.t_max) == ray);
    if let Some(hit) = closest {
        let s = choose|s: int| #[trigger] strikes(tri_hit, bvh, triangles, ray, s, hit);
        assert(reports(tri_hit, bvh, triangles, ray.up_to(ray.t_max), s, hit));
    }
}

/// A ray that is barred stays barred when it is made longer, where the walks are owed an
/// answer.
pub proof fn longer_rays_stay_barred<
    S: Fn(Ray, Aabb) -> Option<Single>,
    T: Fn(ShadingTriangle, Ray) -> Option<Intersection>,
>(
    box_near: S,
    tri_hit: T,
    bvh: Bvh,
    triangles: Seq<ShadingTriangle>,
    ray: Ray,
    t: Single,
    any: bool,
)
    requires
        t.at_most(ray.t_max),
        barred(box_near, tri_hit, bvh, triangles, ray.up_to(t), true),
        barred(box_near, tri_hit, bvh, triangles, ray, any),
        faithful(box_near, tri_hit, bvh, triangles, ray),
        height(bvh.nodes@, 0) <= TRAVERSAL_STACK_SIZE,
    ensures
        any,
{
    faithful_tests_are_consistent(box_near, tri_hit, bvh, triangles, ray);
    let (s, hit) = choose|s: int, hit: Intersection| #[trigger]
        strikes(tri_hit, bvh, triangles, ray.up_to(t), s, hit);
    assert(strikes(tri_hit, bvh, triangles, ray, s, hit));
}

/// In a tree that was built, every slot of the index list is under the root.
pub proof fn every_slot_is_under_the_root<
    B: Fn(Aabb, Vec3) -> usize,
    C: Fn(Aabb, bvh::SplitCandidate) -> Single,
>(bucket_of: B, cost_of: C, prims: Seq<bvh::PrimInfo>, bvh: Bvh, s: int)
    requires
        bvh.wf(),
        bvh::built(bucket_of, cost_of, prims, bvh),
        0 <= s < bvh.prim_indices@.len(),
    ensures
        under(bvh.nodes@, 0, s),
{
    let leaves = choose|leaves: Seq<bvh::PrimInfo>| #[trigger]
        bvh::tree_of(
            bucket_of,
            cost_of,
            bvh.nodes@,
            0,
            1,
            bvh.nodes@.len() as int,
            0,
            prims,
            leaves,
        ) && bvh.prim_indices@ == bvh::indices_of(leaves);
    assert(bvh::tree_of(
        bucket_of,
        cost_of,
        bvh.nodes@,
        0,
        1,
        bvh.nodes@.len() as int,
        0,
        prims,
        leaves,
    ));
    slot_under(bucket_of, cost_of, bvh, 0, 1, bvh.nodes@.len() as int, 0, prims, leaves, s);
}

proof fn slot_under<
    B: Fn(Aabb, Vec3) -> usize,
    C: Fn(Aabb, bvh::SplitCandidate) -> Single,
>(
    bucket_of: B,
    cost_of: C,
    bvh: Bvh,
    node: int,
    lo: int,
    hi: int,
    start: int,
    run: Seq<bvh::PrimInfo>,
    leaves: Seq<bvh::PrimInfo>,
    s: int,
)
    requires
        bvh.wf(),
        bvh::tree_of(bucket_of, cost_of, bvh.nodes@, node, lo, hi, start, run, leaves),
        start <= s < start + run.len(),
    ensures
        under(bvh.nodes@, node, s),
    decreases run.len(),
{
    let nodes = bvh.nodes@;
    assert(bvh::sound_node(nodes, bvh.prim_indices@.len() as int, node, 0));
    if nodes[node].prim_count == 0 {
        let (order, mid): (Seq<bvh::PrimInfo>, int) = choose|order: Seq<bvh::PrimInfo>, mid: int|
            #![trigger order.take(mid)]
            {
                &&& 0 < mid < run.len()
                &&& order.len() == run.len()
                &&& bvh::tree_of(
                    bucket_of,
                    cost_of,
                    nodes,
                    lo,
                    lo + 2,
                    bvh::seam(nodes, lo, hi),
                    start,
                    order.take(mid),
                    leaves.take(mid),
                )
                &&& bvh::tree_of(
                    bucket_of,
                    cost_of,
                    nodes,
                    lo + 1,
                    bvh::seam(nodes, lo, hi),
                    hi,
                    start + mid,
                    order.skip(mid),
                    leaves.skip(mid),
                )
            };
        let m = bvh::seam(nodes, lo, hi);
        if s < start + mid {
            slot_under(
                bucket_of,
                cost_of,
                bvh,
                lo,
                lo + 2,
                m,
                start,
                order.take(mid),
                leaves.take(mid),
                s,
            );
        } else {
            slot_under(
                bucket_of,
                cost_of,
                bvh,
                lo + 1,
                m,
                hi,
                start + mid,
                order.skip(mid),
                leaves.skip(mid),
                s,
            );
        }
    }
}

/// A distance lies on the stretch of a ray inside a box exactly where it lies between the
/// two planes of the box on every axis, whichever comes first, and between the ray's ends;
/// a ray without such a distance has no stretch there.
pub proof fn stretches_lie_between_all_planes(ray: Ray, s: Slabs, t: Single)
    requires
        !t.nan(),
        !ray.t_min.nan() && !ray.t_max.nan(),
        !s.t0.x.nan() && !s.t0.y.nan() && !s.t0.z.nan(),
        !s.t1.x.nan() && !s.t1.y.nan() && !s.t1.z.nan(),
    ensures
        ({
            let between = |a: Single, b: Single|
                a.at_most(t) && t.at_most(b) || b.at_most(t) && t.at_most(a);
            let inside = between(s.t0.x, s.t1.x) && between(s.t0.y, s.t1.y) && between(
                s.t0.z,
                s.t1.z,
            ) && ray.t_min.at_most(t) && t.at_most(ray.t_max);
            inside <==> (box_stretch(ray, s) matches Some(stretch) && stretch.0.at_most(t)
                && t.at_most(stretch.1))
        }),
{
}

/// A number that is not too small keeps its inverse; one that is has a large one of its own
/// sign.
pub proof fn small_numbers_have_large_inverses<F: Fn(Single) -> Single>(x: Single, inverse: F)
    requires
        !x.nan(),
    ensures
        x.magnitude() >= 0x1e3c_e508 ==> inverted(x, inverse) == arithmetic::applied(inverse, x),
        x.magnitude() < 0x1e3c_e508 ==> inverted(x, inverse).magnitude() == 0x60ad_78ec,
        x.magnitude() < 0x1e3c_e508 ==> (inverted(x, inverse).negative() <==> x.below(
            Single { bits: 0 },
        )),
{
}

/// A triangle is hit exactly where the ray is not along it, crosses its plane inside of it,
/// and does so behind the ray's start and before its end. The hit is the triangle's own, at
/// the distance and the place that the test gives.
pub proof fn hits_lie_inside_and_between_the_ends(
    triangle: ShadingTriangle,
    ray: Ray,
    test: TriangleTest,
)
    requires
        !test.t.nan() && !test.v.nan() && !test.u_plus_v.nan(),
        !ray.t_min.nan() && !ray.t_max.nan(),
    ensures
        ({
            let zero = Single { bits: 0 };
            let one = Single { bits: 0x3f80_0000 };
            &&& triangle.hit_by(ray, test) is Some <==> {
                &&& test.a.nan() || test.a.magnitude() >= 0x2b8c_bccc
                &&& zero.at_most(test.u) && test.u.at_most(one)
                &&& zero.at_most(test.v)
                &&& test.u_plus_v.at_most(one)
                &&& ray.t_min.below(test.t)
                &&& test.t.below(ray.t_max)
            }
            &&& triangle.hit_by(ray, test) matches Some(hit) ==> {
                &&& hit.t == test.t && hit.u == test.u && hit.v == test.v
                &&& hit.prim_id == triangle.prim_id
                &&& hit.object_id == triangle.object_id
            }
        }),
{
}

} // verus!

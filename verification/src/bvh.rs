//! Bounding volume hierarchy over triangles or instances.
//!
//! The tree is grown top-down. Every node covers a run of primitives; it
//! becomes a leaf or its run is parted in two by a surface area heuristic over
//! twelve buckets. The heuristic's arithmetic comes from the caller, as two
//! functions: the bucket of a centroid and the cost of a split.
use vstd::prelude::*;

use crate::arithmetic;
use crate::geometry;
use crate::single::Single;

pub use crate::geometry::{Aabb, Vec3};

verus! {

pub const SAH_NUM_BUCKETS: usize = 12;

pub const MAX_LEAF_PRIMS: usize = 4;

/// Runs longer than this are always parted where a split exists.
pub const MAX_COST_LEAF_PRIMS: usize = 16;

/// The most primitives a tree can index: its nodes are addressed by `u32`.
pub const MAX_PRIMS: usize = 0x7fff_ffff;

/// Packed node.
///
/// Of an inner node `left_or_start` is the index of the left child in the node
/// list; the right child follows it. Of a leaf it is the first of `prim_count`
/// entries in the list of primitive indices. A node is a leaf iff `prim_count`
/// is not 0.
#[derive(Clone, Copy, Debug, PartialEq, Eq, Structural)]
pub struct BvhNode {
    pub bounds: Aabb,
    pub left_or_start: u32,
    pub prim_count: u32,
}

impl BvhNode {
    pub fn is_leaf(&self) -> (r: bool)
        ensures
            r == (self.prim_count > 0),
    {
        self.prim_count > 0
    }
}

/// Triangle as the builder takes it: three corners and the triangle's own index
/// in the mesh it comes from.
#[derive(Clone, Copy, Debug, PartialEq, Eq, Structural)]
pub struct BuilderTriangle {
    pub v0: Vec3,
    pub v1: Vec3,
    pub v2: Vec3,
    pub prim_id: u32,
}

impl BuilderTriangle {
    /// The smallest box around the corners.
    pub open spec fn bounding(self) -> Aabb {
        Aabb { min: self.v0, max: self.v0 }.grown(self.v1).grown(self.v2)
    }

    pub fn bounds(&self) -> (r: Aabb)
        ensures
            r == self.bounding(),
    {
        let mut b: Aabb = Aabb::point(self.v0);
        b.expand_point(self.v1);
        b.expand_point(self.v2);
        b
    }
}

/// One primitive as the builder sees it.
#[derive(Clone, Copy, Debug, PartialEq, Eq, Structural)]
pub struct PrimInfo {
    pub index: u32,
    pub bounds: Aabb,
    pub centroid: Vec3,
}

/// The two sides of a possible split: what they bound and how many they hold.
#[derive(Clone, Copy, Debug, PartialEq, Eq, Structural)]
pub struct SplitCandidate {
    pub left: Aabb,
    pub left_count: u32,
    pub right: Aabb,
    pub right_count: u32,
}

/// Bounding volume hierarchy over a set of primitives.
#[derive(Debug)]
pub struct Bvh {
    /// Node list, root at index 0.
    pub nodes: Vec<BvhNode>,
    /// Primitive indices in leaf order.
    pub prim_indices: Vec<u32>,
}

/// What becomes of a run of primitives.
pub enum Plan {
    /// The run as the leaf lists it.
    Leaf { order: Seq<PrimInfo> },
    /// The run in its new order; the first `mid` go left.
    Split { order: Seq<PrimInfo>, mid: int },
}

// ---- what a run bounds -------------------------------------------------

/// The box around the primitives of a run.
pub open spec fn total_bounds(run: Seq<PrimInfo>) -> Aabb
    decreases run.len(),
{
    if run.len() == 0 {
        geometry::nothing()
    } else {
        total_bounds(run.drop_last()).joined(run.last().bounds)
    }
}

/// The box around the centroids of a run.
pub open spec fn centroid_bounds(run: Seq<PrimInfo>) -> Aabb
    decreases run.len(),
{
    if run.len() == 0 {
        geometry::nothing()
    } else {
        centroid_bounds(run.drop_last()).grown(run.last().centroid)
    }
}

// ---- buckets and splits ------------------------------------------------

/// The bucket that a reading stands for: readings past the end count as last.
pub open spec fn bucket_key(reading: usize) -> usize {
    if reading < SAH_NUM_BUCKETS {
        reading
    } else {
        (SAH_NUM_BUCKETS - 1) as usize
    }
}

/// The buckets that readings stand for.
pub open spec fn keys_of(readings: Seq<usize>) -> Seq<usize> {
    readings.map_values(|r: usize| bucket_key(r))
}

/// How many of the keys are `bucket`.
pub open spec fn tally(keys: Seq<usize>, bucket: int) -> int
    decreases keys.len(),
{
    if keys.len() == 0 {
        0
    } else {
        tally(keys.drop_last(), bucket) + if keys.last() == bucket {
            1int
        } else {
            0int
        }
    }
}

/// The box around the primitives whose key is `bucket`.
pub open spec fn bucket_bounds(run: Seq<PrimInfo>, keys: Seq<usize>, bucket: int) -> Aabb
    decreases keys.len(),
{
    if keys.len() == 0 || run.len() == 0 {
        geometry::nothing()
    } else if keys.last() == bucket {
        bucket_bounds(run.drop_last(), keys.drop_last(), bucket).joined(run.last().bounds)
    } else {
        bucket_bounds(run.drop_last(), keys.drop_last(), bucket)
    }
}

/// How many keys lie in buckets `from..to`.
pub open spec fn group_count(keys: Seq<usize>, from: int, to: int) -> int
    decreases to - from,
{
    if to <= from {
        0
    } else {
        group_count(keys, from, to - 1) + tally(keys, to - 1)
    }
}

/// The box around buckets `from..to`.
pub open spec fn group_bounds(run: Seq<PrimInfo>, keys: Seq<usize>, from: int, to: int) -> Aabb
    decreases to - from,
{
    if to <= from {
        geometry::nothing()
    } else {
        group_bounds(run, keys, from, to - 1).joined(bucket_bounds(run, keys, to - 1))
    }
}

/// The split after bucket `i`: buckets `0..=i` go left, the rest right.
pub open spec fn candidate(run: Seq<PrimInfo>, keys: Seq<usize>, i: int) -> SplitCandidate {
    SplitCandidate {
        left: group_bounds(run, keys, 0, i + 1),
        left_count: group_count(keys, 0, i + 1) as u32,
        right: group_bounds(run, keys, i + 1, SAH_NUM_BUCKETS as int),
        right_count: group_count(keys, i + 1, SAH_NUM_BUCKETS as int) as u32,
    }
}

/// The first split of least cost among `costs`, with that cost; infinity and 0
/// where no split costs less than infinity. A split with an empty side has no
/// cost.
pub open spec fn best_split(costs: Seq<Option<Single>>) -> (Single, int)
    decreases costs.len(),
{
    if costs.len() == 0 {
        (Single { bits: 0x7f80_0000 }, 0)
    } else {
        let (least, at) = best_split(costs.drop_last());
        match costs.last() {
            Some(cost) => if cost.below(least) {
                (cost, costs.len() - 1)
            } else {
                (least, at)
            },
            None => (least, at),
        }
    }
}

/// The items with places `i` and `j` exchanged.
pub open spec fn swapped<T>(s: Seq<T>, i: int, j: int) -> Seq<T> {
    s.update(i, s[j]).update(j, s[i])
}

/// A run parted from both ends: a primitive whose key is past `split` changes
/// places with the last one not yet placed. Gives the new order and how many
/// stand on the left.
pub open spec fn parted(
    run: Seq<PrimInfo>,
    keys: Seq<usize>,
    split: int,
    left: int,
    right: int,
) -> (Seq<PrimInfo>, int)
    decreases right - left,
{
    if left >= right {
        (run, left)
    } else if keys[left] <= split {
        parted(run, keys, split, left + 1, right)
    } else {
        parted(
            swapped(run, left, right - 1),
            swapped(keys, left, right - 1),
            split,
            left,
            right - 1,
        )
    }
}

/// What becomes of a run with the given bucket keys and split costs.
pub open spec fn decide(
    run: Seq<PrimInfo>,
    keys: Seq<usize>,
    costs: Seq<Option<Single>>,
) -> Plan {
    let (least, split) = best_split(costs);
    let (order, mid) = parted(run, keys, split, 0, run.len() as int);
    if run.len() <= MAX_LEAF_PRIMS || centroid_bounds(run).vacant() {
        Plan::Leaf { order: run }
    } else if run.len() <= MAX_COST_LEAF_PRIMS && whole(run.len() as int).at_most(least) {
        Plan::Leaf { order: run }
    } else if mid == 0 || mid == run.len() {
        Plan::Leaf { order }
    } else {
        Plan::Split { order, mid }
    }
}

/// The whole number `n` as a single-precision number, for `n` under 32.
pub open spec fn whole(n: int) -> Single {
    let bits = if n <= 0 {
        0
    } else if n < 2 {
        126 * 0x80_0000 + n * 0x80_0000
    } else if n < 4 {
        127 * 0x80_0000 + n * 0x40_0000
    } else if n < 8 {
        128 * 0x80_0000 + n * 0x20_0000
    } else if n < 16 {
        129 * 0x80_0000 + n * 0x10_0000
    } else {
        130 * 0x80_0000 + n * 0x8_0000
    };
    Single { bits: bits as u32 }
}

// ---- the tree ----------------------------------------------------------

/// Whether the cost of split `i` is what `cost_of` gave for it: nothing where a
/// side is empty.
pub open spec fn priced<C: Fn(Aabb, SplitCandidate) -> Single>(
    cost_of: C,
    run: Seq<PrimInfo>,
    keys: Seq<usize>,
    costs: Seq<Option<Single>>,
    i: int,
) -> bool {
    let c = candidate(run, keys, i);
    if c.left_count == 0 || c.right_count == 0 {
        costs[i] is None
    } else {
        costs[i] is Some && cost_of.ensures((total_bounds(run), c), costs[i]->0)
    }
}

/// Whether the readings and costs are what the two functions gave for the run.
pub open spec fn readings_for<B: Fn(Aabb, Vec3) -> usize, C: Fn(Aabb, SplitCandidate) -> Single>(
    bucket_of: B,
    cost_of: C,
    run: Seq<PrimInfo>,
    readings: Seq<usize>,
    costs: Seq<Option<Single>>,
) -> bool {
    &&& readings.len() == run.len()
    &&& forall|k: int|
        0 <= k < run.len() ==> bucket_of.ensures(
            (centroid_bounds(run), run[k].centroid),
            #[trigger] readings[k],
        )
    &&& costs.len() == SAH_NUM_BUCKETS - 1
    &&& forall|i: int|
        0 <= i < SAH_NUM_BUCKETS - 1 ==> #[trigger] priced(
            cost_of,
            run,
            keys_of(readings),
            costs,
            i,
        )
}

/// Whether `plan` is what becomes of the run under the two functions.
pub open spec fn planned<B: Fn(Aabb, Vec3) -> usize, C: Fn(Aabb, SplitCandidate) -> Single>(
    bucket_of: B,
    cost_of: C,
    run: Seq<PrimInfo>,
    plan: Plan,
) -> bool {
    if run.len() <= MAX_LEAF_PRIMS || centroid_bounds(run).vacant() {
        plan == (Plan::Leaf { order: run })
    } else {
        exists|readings: Seq<usize>, costs: Seq<Option<Single>>| #[trigger]
            readings_for(bucket_of, cost_of, run, readings, costs) && plan == decide(
                run,
                keys_of(readings),
                costs,
            )
    }
}

/// Where the nodes below the right one of two siblings at `lo` begin, `hi` being
/// where they end.
pub open spec fn seam(nodes: Seq<BvhNode>, lo: int, hi: int) -> int {
    if nodes[lo + 1].prim_count > 0 {
        hi
    } else {
        nodes[lo + 1].left_or_start as int
    }
}

/// Whether the node at `node`, with the nodes `lo..hi` below it, is the tree that
/// the two functions give for the run that starts at `start`, and `leaves` is the
/// run in the order of the tree's leaves. The children stand at `lo`, all that is
/// below the left one comes next, then all that is below the right one.
pub open spec fn tree_of<B: Fn(Aabb, Vec3) -> usize, C: Fn(Aabb, SplitCandidate) -> Single>(
    bucket_of: B,
    cost_of: C,
    nodes: Seq<BvhNode>,
    node: int,
    lo: int,
    hi: int,
    start: int,
    run: Seq<PrimInfo>,
    leaves: Seq<PrimInfo>,
) -> bool
    decreases run.len(),
{
    &&& 0 <= node < nodes.len()
    &&& lo <= hi <= nodes.len()
    &&& leaves.len() == run.len()
    &&& nodes[node].bounds == total_bounds(run)
    &&& exists|plan: Plan| #[trigger]
        planned(bucket_of, cost_of, run, plan) && match plan {
            Plan::Leaf { order } => {
                &&& nodes[node].left_or_start == start
                &&& nodes[node].prim_count == run.len()
                &&& hi == lo
                &&& leaves == order
            },
            Plan::Split { order, mid } => {
                &&& nodes[node].left_or_start == lo
                &&& nodes[node].prim_count == 0
                &&& 0 < mid < run.len()
                &&& order.len() == run.len()
                &&& lo + 2 <= seam(nodes, lo, hi) <= hi
                &&& tree_of(
                    bucket_of,
                    cost_of,
                    nodes,
                    lo,
                    lo + 2,
                    seam(nodes, lo, hi),
                    start,
                    order.take(mid),
                    leaves.take(mid),
                )
                &&& tree_of(
                    bucket_of,
                    cost_of,
                    nodes,
                    lo + 1,
                    seam(nodes, lo, hi),
                    hi,
                    start + mid,
                    order.skip(mid),
                    leaves.skip(mid),
                )
            },
        }
}

/// Whether a node can be walked: a leaf stays inside the index list, an inner
/// node has two later children in `lo..nodes.len()` and its box covers theirs.
pub open spec fn sound_node(nodes: Seq<BvhNode>, prims: int, i: int, lo: int) -> bool {
    let n = nodes[i];
    &&& n.bounds.numeric()
    &&& if n.prim_count > 0 {
        n.left_or_start + n.prim_count <= prims
    } else {
        &&& lo <= n.left_or_start
        &&& i < n.left_or_start
        &&& n.left_or_start + 1 < nodes.len()
        &&& n.bounds.covers(nodes[n.left_or_start as int].bounds)
        &&& n.bounds.covers(nodes[n.left_or_start + 1].bounds)
    }
}

impl Bvh {
    /// Every node can be walked, and there are none where there are no primitives.
    pub open spec fn wf(&self) -> bool {
        &&& self.nodes@.len() <= u32::MAX
        &&& self.nodes@.len() == 0 <==> self.prim_indices@.len() == 0
        &&& forall|i: int|
            0 <= i < self.nodes@.len() ==> #[trigger] sound_node(
                self.nodes@,
                self.prim_indices@.len() as int,
                i,
                0,
            )
    }
}

// ---- steps of the builder ----------------------------------------------

/// The boxes around a run's primitives and around their centroids.
fn compute_bounds(prims: &Vec<PrimInfo>, start: usize, count: usize) -> (r: (Aabb, Aabb))
    requires
        start + count <= prims.len(),
    ensures
        r.0 == total_bounds(prims@.subrange(start as int, start + count)),
        r.1 == centroid_bounds(prims@.subrange(start as int, start + count)),
{
    let mut total: Aabb = Aabb::empty();
    let mut centroid: Aabb = Aabb::empty();
    let mut i: usize = 0;
    while i < count
        invariant
            i <= count,
            start + count <= prims.len(),
            total == total_bounds(prims@.subrange(start as int, start + i)),
            centroid == centroid_bounds(prims@.subrange(start as int, start + i)),
        decreases count - i,
    {
        total.merge(&prims[start + i].bounds);
        centroid.expand_point(prims[start + i].centroid);
        i = i + 1;
        proof {
            assert(prims@.subrange(start as int, start + i).drop_last() =~= prims@.subrange(
                start as int,
                start + i - 1,
            ));
        }
    }
    (total, centroid)
}

proof fn tally_bound(keys: Seq<usize>, bucket: int)
    ensures
        0 <= tally(keys, bucket) <= keys.len(),
    decreases keys.len(),
{
    if keys.len() > 0 {
        tally_bound(keys.drop_last(), bucket);
    }
}

/// How many of the keys are in `from..to`.
spec fn between(keys: Seq<usize>, from: int, to: int) -> int
    decreases keys.len(),
{
    if keys.len() == 0 {
        0
    } else {
        between(keys.drop_last(), from, to) + if from <= keys.last() < to {
            1int
        } else {
            0int
        }
    }
}

proof fn between_step(keys: Seq<usize>, from: int, to: int)
    requires
        from < to,
    ensures
        between(keys, from, to) == between(keys, from, to - 1) + tally(keys, to - 1),
    decreases keys.len(),
{
    if keys.len() > 0 {
        between_step(keys.drop_last(), from, to);
    }
}

proof fn between_empty(keys: Seq<usize>, from: int)
    ensures
        between(keys, from, from) == 0,
    decreases keys.len(),
{
    if keys.len() > 0 {
        between_empty(keys.drop_last(), from);
    }
}

proof fn between_bound(keys: Seq<usize>, from: int, to: int)
    ensures
        0 <= between(keys, from, to) <= keys.len(),
    decreases keys.len(),
{
    if keys.len() > 0 {
        between_bound(keys.drop_last(), from, to);
    }
}

proof fn group_is_between(keys: Seq<usize>, from: int, to: int)
    requires
        from <= to,
    ensures
        group_count(keys, from, to) == between(keys, from, to),
        0 <= group_count(keys, from, to) <= keys.len(),
    decreases to - from,
{
    between_bound(keys, from, to);
    if from < to {
        group_is_between(keys, from, to - 1);
        between_step(keys, from, to);
    } else {
        between_empty(keys, from);
    }
}

/// The splits after each bucket but the last.
pub fn split_candidates(
    prims: &Vec<PrimInfo>,
    start: usize,
    count: usize,
    keys: &Vec<usize>,
) -> (r: Vec<SplitCandidate>)
    requires
        start + count <= prims.len(),
        count <= MAX_PRIMS,
        keys.len() == count,
        forall|k: int| 0 <= k < keys.len() ==> #[trigger] keys[k] < SAH_NUM_BUCKETS,
    ensures
        r.len() == SAH_NUM_BUCKETS - 1,
        forall|i: int|
            0 <= i < r.len() ==> #[trigger] r[i] == candidate(
                prims@.subrange(start as int, start + count),
                keys@,
                i,
            ),
{
    let ghost run = prims@.subrange(start as int, start + count);
    let mut counts: Vec<u32> = Vec::new();
    let mut boxes: Vec<Aabb> = Vec::new();
    let mut b: usize = 0;
    while b < SAH_NUM_BUCKETS
        invariant
            b <= SAH_NUM_BUCKETS,
            counts.len() == b,
            boxes.len() == b,
            forall|j: int| 0 <= j < b ==> #[trigger] counts[j] == 0,
            forall|j: int| 0 <= j < b ==> #[trigger] boxes[j] == geometry::nothing(),
        decreases SAH_NUM_BUCKETS - b,
    {
        counts.push(0);
        boxes.push(Aabb::empty());
        b = b + 1;
    }
    let mut k: usize = 0;
    proof {
        assert(keys@.take(0) =~= Seq::empty());
    }
    while k < count
        invariant
            k <= count,
            count <= MAX_PRIMS,
            start + count <= prims.len(),
            keys.len() == count,
            run == prims@.subrange(start as int, start + count),
            counts.len() == SAH_NUM_BUCKETS,
            boxes.len() == SAH_NUM_BUCKETS,
            forall|j: int| 0 <= j < keys.len() ==> #[trigger] keys[j] < SAH_NUM_BUCKETS,
            forall|j: int|
                0 <= j < SAH_NUM_BUCKETS ==> #[trigger] counts[j] == tally(
                    keys@.take(k as int),
                    j,
                ),
            forall|j: int|
                0 <= j < SAH_NUM_BUCKETS ==> #[trigger] boxes[j] == bucket_bounds(
                    run.take(k as int),
                    keys@.take(k as int),
                    j,
                ),
        decreases count - k,
    {
        let key: usize = keys[k];
        let ghost seen = keys@.take(k as int);
        proof {
            tally_bound(seen, key as int);
        }
        let n: u32 = counts[key];
        counts.set(key, n + 1);
        let mut grown: Aabb = boxes[key];
        grown.merge(&prims[start + k].bounds);
        boxes.set(key, grown);
        k = k + 1;
        proof {
            assert(keys@.take(k as int).drop_last() =~= seen);
            assert(run.take(k as int).drop_last() =~= run.take(k - 1));
            assert(run.take(k as int).last() == prims@[start + k - 1]);
        }
    }
    proof {
        assert(keys@.take(k as int) =~= keys@);
        assert(run.take(k as int) =~= run);
    }
    let mut out: Vec<SplitCandidate> = Vec::new();
    let mut i: usize = 0;
    while i + 1 < SAH_NUM_BUCKETS
        invariant
            i <= SAH_NUM_BUCKETS - 1,
            out.len() == i,
            keys.len() == count,
            count <= MAX_PRIMS,
            counts.len() == SAH_NUM_BUCKETS,
            boxes.len() == SAH_NUM_BUCKETS,
            forall|j: int| 0 <= j < SAH_NUM_BUCKETS ==> #[trigger] counts[j] == tally(keys@, j),
            forall|j: int|
                0 <= j < SAH_NUM_BUCKETS ==> #[trigger] boxes[j] == bucket_bounds(run, keys@, j),
            forall|j: int| 0 <= j < i ==> #[trigger] out[j] == candidate(run, keys@, j),
        decreases SAH_NUM_BUCKETS - i,
    {
        let mut left: Aabb = Aabb::empty();
        let mut right: Aabb = Aabb::empty();
        let mut left_count: u32 = 0;
        let mut right_count: u32 = 0;
        let mut j: usize = 0;
        while j < SAH_NUM_BUCKETS
            invariant
                i < SAH_NUM_BUCKETS - 1,
                j <= SAH_NUM_BUCKETS,
                keys.len() == count,
                count <= MAX_PRIMS,
                counts.len() == SAH_NUM_BUCKETS,
                boxes.len() == SAH_NUM_BUCKETS,
                forall|q: int|
                    0 <= q < SAH_NUM_BUCKETS ==> #[trigger] counts[q] == tally(keys@, q),
                forall|q: int|
                    0 <= q < SAH_NUM_BUCKETS ==> #[trigger] boxes[q] == bucket_bounds(
                        run,
                        keys@,
                        q,
                    ),
                j <= i + 1 ==> left == group_bounds(run, keys@, 0, j as int) && left_count
                    == group_count(keys@, 0, j as int) && right == geometry::nothing()
                    && right_count == 0,
                j >= i + 1 ==> left == group_bounds(run, keys@, 0, i + 1) && left_count
                    == group_count(keys@, 0, i + 1) && right == group_bounds(
                    run,
                    keys@,
                    i + 1,
                    j as int,
                ) && right_count == group_count(keys@, i + 1, j as int),
            decreases SAH_NUM_BUCKETS - j,
        {
            assert(counts[j as int] == tally(keys@, j as int));
            assert(boxes[j as int] == bucket_bounds(run, keys@, j as int));
            if j <= i {
                proof {
                    group_is_between(keys@, 0, j + 1);
                }
                left.merge(&boxes[j]);
                left_count = left_count + counts[j];
            } else {
                proof {
                    group_is_between(keys@, i + 1, j + 1);
                }
                right.merge(&boxes[j]);
                right_count = right_count + counts[j];
            }
            j = j + 1;
        }
        out.push(SplitCandidate { left, left_count, right, right_count });
        i = i + 1;
    }
    out
}

/// The first split of least cost, with that cost.
pub fn choose_split(costs: &Vec<Option<Single>>) -> (r: (Single, usize))
    ensures
        r.0 == best_split(costs@).0,
        r.1 == best_split(costs@).1,
        costs.len() > 0 ==> r.1 < costs.len(),
{
    let mut least: Single = Single::infinity();
    let mut at: usize = 0;
    let mut i: usize = 0;
    proof {
        assert(costs@.take(0) =~= Seq::empty());
    }
    while i < costs.len()
        invariant
            i <= costs.len(),
            (least, at as int) == best_split(costs@.take(i as int)),
            at <= i,
            costs.len() > 0 ==> at < costs.len(),
        decreases costs.len() - i,
    {
        let ghost before = costs@.take(i as int);
        if let Some(cost) = costs[i] {
            if cost.lt(least) {
                least = cost;
                at = i;
            }
        }
        i = i + 1;
        proof {
            assert(costs@.take(i as int).drop_last() =~= before);
        }
    }
    proof {
        assert(costs@.take(i as int) =~= costs@);
    }
    (least, at)
}

/// Whether a run of up to sixteen primitives is left whole because no split
/// costs less than testing all of them.
pub fn leaf_is_cheaper(count: usize, least: Single) -> (r: bool)
    ensures
        r == (count <= MAX_COST_LEAF_PRIMS && whole(count as int).at_most(least)),
{
    if count > MAX_COST_LEAF_PRIMS {
        return false;
    }
    let n: u32 = count as u32;
    let bits: u32 = if n == 0 {
        0
    } else if n < 2 {
        126 * 0x80_0000 + n * 0x80_0000
    } else if n < 4 {
        127 * 0x80_0000 + n * 0x40_0000
    } else if n < 8 {
        128 * 0x80_0000 + n * 0x20_0000
    } else if n < 16 {
        129 * 0x80_0000 + n * 0x10_0000
    } else {
        130 * 0x80_0000 + n * 0x8_0000
    };
    Single::from_bits(bits).le(least)
}

proof fn swap_keeps_items<T>(s: Seq<T>, i: int, j: int)
    requires
        0 <= i < s.len(),
        0 <= j < s.len(),
    ensures
        swapped(s, i, j).to_multiset() == s.to_multiset(),
{
    broadcast use vstd::seq_lib::group_to_multiset_ensures;

    let t = swapped(s, i, j);
    if i == j {
        assert(t =~= s);
    } else {
        let (a, b) = if i < j {
            (i, j)
        } else {
            (j, i)
        };
        assert(t.remove(b).remove(a) =~= s.remove(b).remove(a));
        assert(t.remove(b)[a] == s[b]);
        assert(s.remove(b)[a] == s[a]);
        assert(t[b] == s[a]);
        let rest = s.remove(b).remove(a).to_multiset();
        assert(s.contains(s[a]) && s.contains(s[b]));
        assert(t.contains(t[b]));
        assert(s.remove(b).contains(s.remove(b)[a]));
        assert(t.remove(b).contains(t.remove(b)[a]));
        assert(s.to_multiset() =~= rest.insert(s[a]).insert(s[b]));
        assert(t.to_multiset() =~= rest.insert(s[b]).insert(s[a]));
    }
}

/// What parting does: the same items, those up to the split first.
proof fn parted_is_partition(
    run: Seq<PrimInfo>,
    keys: Seq<usize>,
    split: int,
    left: int,
    right: int,
)
    requires
        0 <= left <= right <= run.len(),
        keys.len() == run.len(),
    ensures
        left <= parted(run, keys, split, left, right).1 <= right,
        parted(run, keys, split, left, right).0.len() == run.len(),
        parted(run, keys, split, left, right).0.to_multiset() == run.to_multiset(),
    decreases right - left,
{
    if left < right {
        if keys[left] <= split {
            parted_is_partition(run, keys, split, left + 1, right);
        } else {
            swap_keeps_items(run, left, right - 1);
            parted_is_partition(
                swapped(run, left, right - 1),
                swapped(keys, left, right - 1),
                split,
                left,
                right - 1,
            );
        }
    }
}

/// Parts a run in place and says how many stand on the left.
fn partition_by_bucket(
    prims: &mut Vec<PrimInfo>,
    keys: &mut Vec<usize>,
    start: usize,
    count: usize,
    split: usize,
) -> (mid: usize)
    requires
        start + count <= old(prims).len(),
        old(keys).len() == count,
    ensures
        final(prims).len() == old(prims).len(),
        forall|i: int|
            0 <= i < start || start + count <= i < old(prims).len() ==> #[trigger] final(prims)[i]
                == old(prims)[i],
        (final(prims)@.subrange(start as int, start + count), mid as int) == parted(
            old(prims)@.subrange(start as int, start + count),
            old(keys)@,
            split as int,
            0,
            count as int,
        ),
        mid <= count,
{
    let ghost run0 = prims@.subrange(start as int, start + count);
    let ghost keys0 = keys@;
    let ghost prims0 = prims@;
    let mut left: usize = 0;
    let mut right: usize = count;
    while left < right
        invariant
            left <= right <= count,
            keys.len() == count,
            prims.len() == prims0.len(),
            start + count <= prims.len(),
            forall|i: int|
                0 <= i < start || start + count <= i < prims0.len() ==> #[trigger] prims[i]
                    == prims0[i],
            parted(
                prims@.subrange(start as int, start + count),
                keys@,
                split as int,
                left as int,
                right as int,
            ) == parted(run0, keys0, split as int, 0, count as int),
        decreases right - left,
    {
        let ghost run = prims@.subrange(start as int, start + count);
        let ghost seen = keys@;
        if keys[left] <= split {
            left = left + 1;
        } else {
            right = right - 1;
            let a: PrimInfo = prims[start + left];
            let b: PrimInfo = prims[start + right];
            prims.set(start + left, b);
            prims.set(start + right, a);
            let ka: usize = keys[left];
            let kb: usize = keys[right];
            keys.set(left, kb);
            keys.set(right, ka);
            proof {
                assert(prims@.subrange(start as int, start + count) =~= swapped(
                    run,
                    left as int,
                    right as int,
                ));
                assert(keys@ =~= swapped(seen, left as int, right as int));
            }
        }
    }
    proof {
        assert(left == right);
    }
    left
}

/// Settles what becomes of a run: `None` for a leaf, else how many go left. The
/// run is left in its new order.
fn plan_run<B: Fn(Aabb, Vec3) -> usize, C: Fn(Aabb, SplitCandidate) -> Single>(
    prims: &mut Vec<PrimInfo>,
    start: usize,
    count: usize,
    total: Aabb,
    centroids: Aabb,
    bucket_of: &B,
    cost_of: &C,
) -> (r: Option<usize>)
    requires
        start + count <= old(prims).len(),
        count <= MAX_PRIMS,
        total == total_bounds(old(prims)@.subrange(start as int, start + count)),
        centroids == centroid_bounds(old(prims)@.subrange(start as int, start + count)),
        forall|a: Aabb, v: Vec3| #[trigger] bucket_of.requires((a, v)),
        forall|a: Aabb, c: SplitCandidate| #[trigger] cost_of.requires((a, c)),
    ensures
        final(prims).len() == old(prims).len(),
        forall|i: int|
            0 <= i < start || start + count <= i < old(prims).len() ==> #[trigger] final(prims)[i]
                == old(prims)[i],
        match r {
            None => planned(
                *bucket_of,
                *cost_of,
                old(prims)@.subrange(start as int, start + count),
                Plan::Leaf { order: final(prims)@.subrange(start as int, start + count) },
            ),
            Some(mid) => 0 < mid < count && planned(
                *bucket_of,
                *cost_of,
                old(prims)@.subrange(start as int, start + count),
                Plan::Split {
                    order: final(prims)@.subrange(start as int, start + count),
                    mid: mid as int,
                },
            ),
        },
        final(prims)@.subrange(start as int, start + count).to_multiset() == old(
            prims,
        )@.subrange(start as int, start + count).to_multiset(),
{
    let ghost run = prims@.subrange(start as int, start + count);
    if count <= MAX_LEAF_PRIMS || centroids.is_empty() {
        return None;
    }
    let ghost mut readings: Seq<usize> = Seq::empty();
    let mut keys: Vec<usize> = Vec::new();
    let mut k: usize = 0;
    while k < count
        invariant
            k <= count,
            start + count <= prims.len(),
            prims@ == old(prims)@,
            run == prims@.subrange(start as int, start + count),
            centroids == centroid_bounds(run),
            forall|a: Aabb, v: Vec3| #[trigger] bucket_of.requires((a, v)),
            readings.len() == k,
            keys.len() == k,
            forall|j: int|
                0 <= j < k ==> bucket_of.ensures(
                    (centroids, run[j].centroid),
                    #[trigger] readings[j],
                ),
            forall|j: int| 0 <= j < k ==> #[trigger] keys[j] == bucket_key(readings[j]),
        decreases count - k,
    {
        let reading: usize = bucket_of(centroids, prims[start + k].centroid);
        proof {
            readings = readings.push(reading);
        }
        if reading < SAH_NUM_BUCKETS {
            keys.push(reading);
        } else {
            keys.push(SAH_NUM_BUCKETS - 1);
        }
        k = k + 1;
    }
    proof {
        assert(keys@ =~= keys_of(readings));
    }
    let candidates: Vec<SplitCandidate> = split_candidates(prims, start, count, &keys);
    let mut costs: Vec<Option<Single>> = Vec::new();
    let mut i: usize = 0;
    while i < candidates.len()
        invariant
            i <= candidates.len(),
            candidates.len() == SAH_NUM_BUCKETS - 1,
            forall|j: int|
                0 <= j < candidates.len() ==> #[trigger] candidates[j] == candidate(
                    run,
                    keys@,
                    j,
                ),
            total == total_bounds(run),
            forall|a: Aabb, c: SplitCandidate| #[trigger] cost_of.requires((a, c)),
            costs.len() == i,
            forall|j: int| 0 <= j < i ==> #[trigger] priced(*cost_of, run, keys@, costs@, j),
        decreases candidates.len() - i,
    {
        let c: SplitCandidate = candidates[i];
        let ghost before = costs@;
        if c.left_count == 0 || c.right_count == 0 {
            costs.push(None);
        } else {
            costs.push(Some(cost_of(total, c)));
        }
        i = i + 1;
        proof {
            assert forall|j: int| 0 <= j < i implies #[trigger] priced(
                *cost_of,
                run,
                keys@,
                costs@,
                j,
            ) by {
                if j < i - 1 {
                    assert(priced(*cost_of, run, keys@, before, j));
                }
            }
        }
    }
    proof {
        assert(readings_for(*bucket_of, *cost_of, run, readings, costs@));
        assert(planned(*bucket_of, *cost_of, run, decide(run, keys@, costs@)));
        parted_is_partition(run, keys@, best_split(costs@).1, 0, count as int);
    }
    let (least, split) = choose_split(&costs);
    if leaf_is_cheaper(count, least) {
        return None;
    }
    let mid: usize = partition_by_bucket(prims, &mut keys, start, count, split);
    if mid == 0 || mid == count {
        return None;
    }
    Some(mid)
}

// ---- growing the tree --------------------------------------------------

proof fn total_is_numeric(run: Seq<PrimInfo>)
    ensures
        total_bounds(run).numeric(),
    decreases run.len(),
{
    if run.len() > 0 {
        total_is_numeric(run.drop_last());
    }
}

/// The box around a run covers every primitive in it.
pub proof fn total_covers_each(run: Seq<PrimInfo>, i: int)
    requires
        0 <= i < run.len(),
    ensures
        total_bounds(run).covers(run[i].bounds),
    decreases run.len(),
{
    let before = run.drop_last();
    total_is_numeric(before);
    if i < before.len() {
        total_covers_each(before, i);
        geometry::covering_is_transitive(total_bounds(run), total_bounds(before), run[i].bounds);
    }
}

/// What covers every primitive of a run covers the box around the run.
proof fn cover_all_covers_total(b: Aabb, run: Seq<PrimInfo>)
    requires
        b.numeric(),
        forall|i: int| 0 <= i < run.len() ==> b.covers(#[trigger] run[i].bounds),
    ensures
        b.covers(total_bounds(run)),
    decreases run.len(),
{
    if run.len() > 0 {
        let before = run.drop_last();
        assert forall|i: int| 0 <= i < before.len() implies b.covers(
            #[trigger] before[i].bounds,
        ) by {
            assert(before[i] == run[i]);
        }
        cover_all_covers_total(b, before);
        assert(b.covers(run[run.len() - 1].bounds));
    }
}

/// The box around a run covers the box around any part of a reordering of it.
proof fn total_covers_part(run: Seq<PrimInfo>, order: Seq<PrimInfo>, from: int, to: int)
    requires
        order.to_multiset() == run.to_multiset(),
        0 <= from <= to <= order.len(),
    ensures
        total_bounds(run).covers(total_bounds(order.subrange(from, to))),
{
    broadcast use vstd::seq_lib::group_to_multiset_ensures;

    total_is_numeric(run);
    let part = order.subrange(from, to);
    assert forall|i: int| 0 <= i < part.len() implies total_bounds(run).covers(
        #[trigger] part[i].bounds,
    ) by {
        assert(order.contains(order[from + i]));
        assert(run.to_multiset().count(part[i]) > 0);
        assert(run.contains(part[i]));
        let k = choose|k: int| 0 <= k < run.len() && run[k] == part[i];
        total_covers_each(run, k);
    }
    cover_all_covers_total(total_bounds(run), part);
}

/// A tree stays one when other nodes change and nodes are added.
proof fn tree_frame<B: Fn(Aabb, Vec3) -> usize, C: Fn(Aabb, SplitCandidate) -> Single>(
    bucket_of: B,
    cost_of: C,
    nodes: Seq<BvhNode>,
    later: Seq<BvhNode>,
    node: int,
    lo: int,
    hi: int,
    start: int,
    run: Seq<PrimInfo>,
    leaves: Seq<PrimInfo>,
)
    requires
        tree_of(bucket_of, cost_of, nodes, node, lo, hi, start, run, leaves),
        nodes.len() <= later.len(),
        later[node] == nodes[node],
        forall|i: int| lo <= i < hi ==> #[trigger] later[i] == nodes[i],
        0 <= lo,
    ensures
        tree_of(bucket_of, cost_of, later, node, lo, hi, start, run, leaves),
    decreases run.len(),
{
    let plan = choose|plan: Plan| #[trigger]
        planned(bucket_of, cost_of, run, plan) && match plan {
            Plan::Leaf { order } => {
                &&& nodes[node].left_or_start == start
                &&& nodes[node].prim_count == run.len()
                &&& hi == lo
                &&& leaves == order
            },
            Plan::Split { order, mid } => {
                &&& nodes[node].left_or_start == lo
                &&& nodes[node].prim_count == 0
                &&& 0 < mid < run.len()
                &&& order.len() == run.len()
                &&& lo + 2 <= seam(nodes, lo, hi) <= hi
                &&& tree_of(
                    bucket_of,
                    cost_of,
                    nodes,
                    lo,
                    lo + 2,
                    seam(nodes, lo, hi),
                    start,
                    order.take(mid),
                    leaves.take(mid),
                )
                &&& tree_of(
                    bucket_of,
                    cost_of,
                    nodes,
                    lo + 1,
                    seam(nodes, lo, hi),
                    hi,
                    start + mid,
                    order.skip(mid),
                    leaves.skip(mid),
                )
            },
        };
    assert(planned(bucket_of, cost_of, run, plan));
    if let Plan::Split { order, mid } = plan {
        let m = seam(nodes, lo, hi);
        tree_frame(
            bucket_of,
            cost_of,
            nodes,
            later,
            lo,
            lo + 2,
            m,
            start,
            order.take(mid),
            leaves.take(mid),
        );
        tree_frame(
            bucket_of,
            cost_of,
            nodes,
            later,
            lo + 1,
            m,
            hi,
            start + mid,
            order.skip(mid),
            leaves.skip(mid),
        );
    }
}

fn blank_node() -> (r: BvhNode)
    ensures
        r == (BvhNode { bounds: geometry::nothing(), left_or_start: 0, prim_count: 0 }),
{
    BvhNode { bounds: Aabb::empty(), left_or_start: 0, prim_count: 0 }
}

/// Grows the tree of a run at a node that is already in the list.
#[verifier::rlimit(60)]
fn build_recursive<B: Fn(Aabb, Vec3) -> usize, C: Fn(Aabb, SplitCandidate) -> Single>(
    prims: &mut Vec<PrimInfo>,
    start: usize,
    count: usize,
    nodes: &mut Vec<BvhNode>,
    node: usize,
    bucket_of: &B,
    cost_of: &C,
)
    requires
        count > 0,
        start + count <= old(prims).len() <= MAX_PRIMS,
        node < old(nodes).len(),
        old(nodes).len() + 2 * (count - 1) <= u32::MAX,
        forall|a: Aabb, v: Vec3| #[trigger] bucket_of.requires((a, v)),
        forall|a: Aabb, c: SplitCandidate| #[trigger] cost_of.requires((a, c)),
    ensures
        final(prims).len() == old(prims).len(),
        forall|i: int|
            0 <= i < start || start + count <= i < old(prims).len() ==> #[trigger] final(prims)[i]
                == old(prims)[i],
        final(prims)@.subrange(start as int, start + count).to_multiset() == old(
            prims,
        )@.subrange(start as int, start + count).to_multiset(),
        old(nodes).len() <= final(nodes).len() <= old(nodes).len() + 2 * (count - 1),
        forall|i: int|
            0 <= i < old(nodes).len() && i != node ==> #[trigger] final(nodes)[i]
                == old(nodes)[i],
        tree_of(
            *bucket_of,
            *cost_of,
            final(nodes)@,
            node as int,
            old(nodes).len() as int,
            final(nodes).len() as int,
            start as int,
            old(prims)@.subrange(start as int, start + count),
            final(prims)@.subrange(start as int, start + count),
        ),
        forall|i: int|
            i == node || old(nodes).len() <= i < final(nodes).len() ==> #[trigger] sound_node(
                final(nodes)@,
                old(prims).len() as int,
                i,
                old(nodes).len() as int,
            ),
    decreases count,
{
    let ghost prims0 = prims@;
    let ghost nodes0 = nodes@;
    let ghost run = prims0.subrange(start as int, start + count);
    let (total, centroids) = compute_bounds(prims, start, count);
    proof {
        total_is_numeric(run);
    }
    match plan_run(prims, start, count, total, centroids, bucket_of, cost_of) {
        None => {
            nodes.set(
                node,
                BvhNode { bounds: total, left_or_start: start as u32, prim_count: count as u32 },
            );
            proof {
                let order = prims@.subrange(start as int, start + count);
                assert(planned(*bucket_of, *cost_of, run, Plan::Leaf { order }));
                assert(tree_of(
                    *bucket_of,
                    *cost_of,
                    nodes@,
                    node as int,
                    nodes0.len() as int,
                    nodes0.len() as int,
                    start as int,
                    run,
                    order,
                ));
            }
        },
        Some(mid) => {
            let ghost order = prims@.subrange(start as int, start + count);
            let left: usize = nodes.len();
            nodes.push(blank_node());
            nodes.push(blank_node());
            nodes.set(
                node,
                BvhNode { bounds: total, left_or_start: left as u32, prim_count: 0 },
            );
            let ghost nodes1 = nodes@;
            proof {
                assert(order.take(mid as int) =~= prims@.subrange(start as int, start + mid));
                assert(order.skip(mid as int) =~= prims@.subrange(start + mid, start + count));
                total_covers_part(run, order, 0, mid as int);
                total_covers_part(run, order, mid as int, count as int);
                assert(order.subrange(0, mid as int) =~= order.take(mid as int));
                assert(order.subrange(mid as int, count as int) =~= order.skip(mid as int));
            }
            let ghost prims1 = prims@;
            build_recursive(prims, start, mid, nodes, left, bucket_of, cost_of);
            let ghost prims2 = prims@;
            let ghost nodes2 = nodes@;
            proof {
                assert(prims2.subrange(start + mid, start + count) =~= order.skip(mid as int));
            }
            build_recursive(prims, start + mid, count - mid, nodes, left + 1, bucket_of, cost_of);
            proof {
                let leaves = prims@.subrange(start as int, start + count);
                assert(leaves.take(mid as int) =~= prims2.subrange(start as int, start + mid));
                assert(leaves.skip(mid as int) =~= prims@.subrange(start + mid, start + count));
                tree_frame(
                    *bucket_of,
                    *cost_of,
                    nodes2,
                    nodes@,
                    left as int,
                    left + 2,
                    nodes2.len() as int,
                    start as int,
                    order.take(mid as int),
                    leaves.take(mid as int),
                );
                assert(nodes@[node as int] == nodes1[node as int]);
                assert(planned(*bucket_of, *cost_of, run, Plan::Split { order, mid: mid as int }));
                joined_items(leaves, order, mid as int);
                assert forall|i: int|
                    i == node || nodes0.len() <= i < nodes@.len() implies #[trigger] sound_node(
                    nodes@,
                    prims0.len() as int,
                    i,
                    nodes0.len() as int,
                ) by {
                    if i == node {
                    } else if i == left || left + 2 <= i < nodes2.len() {
                        assert(sound_node(nodes2, prims0.len() as int, i, left + 2));
                    } else {
                        assert(sound_node(nodes@, prims0.len() as int, i, nodes2.len() as int));
                    }
                }
            }
        },
    }
}

proof fn joined_items(a: Seq<PrimInfo>, b: Seq<PrimInfo>, mid: int)
    requires
        0 <= mid <= a.len(),
        a.len() == b.len(),
        a.take(mid).to_multiset() == b.take(mid).to_multiset(),
        a.skip(mid).to_multiset() == b.skip(mid).to_multiset(),
    ensures
        a.to_multiset() == b.to_multiset(),
{
    vstd::seq_lib::lemma_multiset_commutative(a.take(mid), a.skip(mid));
    vstd::seq_lib::lemma_multiset_commutative(b.take(mid), b.skip(mid));
    assert(a =~= a.take(mid) + a.skip(mid));
    assert(b =~= b.take(mid) + b.skip(mid));
}

/// Whether `bvh` is the tree that the two functions give for `prims`.
pub open spec fn built<B: Fn(Aabb, Vec3) -> usize, C: Fn(Aabb, SplitCandidate) -> Single>(
    bucket_of: B,
    cost_of: C,
    prims: Seq<PrimInfo>,
    bvh: Bvh,
) -> bool {
    if prims.len() == 0 {
        bvh.nodes@.len() == 0 && bvh.prim_indices@.len() == 0
    } else {
        exists|leaves: Seq<PrimInfo>| #[trigger]
            tree_of(bucket_of, cost_of, bvh.nodes@, 0, 1, bvh.nodes@.len() as int, 0, prims, leaves)
                && bvh.prim_indices@ == indices_of(leaves)
    }
}

/// The indices of primitives, in order.
pub open spec fn indices_of(prims: Seq<PrimInfo>) -> Seq<u32> {
    prims.map_values(|p: PrimInfo| p.index)
}

/// Whether `prims` are the triangles, numbered from 0, with the centroids that
/// `centroid_of` gave.
pub open spec fn triangle_prims<M: Fn(BuilderTriangle) -> Vec3>(
    centroid_of: M,
    triangles: Seq<BuilderTriangle>,
    prims: Seq<PrimInfo>,
) -> bool {
    &&& prims.len() == triangles.len()
    &&& forall|i: int|
        0 <= i < prims.len() ==> (#[trigger] prims[i]).index == i && prims[i].bounds
            == triangles[i].bounding() && centroid_of.ensures((triangles[i],), prims[i].centroid)
}

/// Whether `prims` are the boxes under their given ids, with the centroids that
/// `centroid_of` gave.
pub open spec fn box_prims<M: Fn(Aabb) -> Vec3>(
    centroid_of: M,
    items: Seq<(u32, Aabb)>,
    prims: Seq<PrimInfo>,
) -> bool {
    &&& prims.len() == items.len()
    &&& forall|i: int|
        0 <= i < prims.len() ==> (#[trigger] prims[i]).index == items[i].0 && prims[i].bounds
            == items[i].1 && centroid_of.ensures((items[i].1,), prims[i].centroid)
}

proof fn reorder_keeps_indices(a: Seq<PrimInfo>, b: Seq<PrimInfo>)
    requires
        a.to_multiset() == b.to_multiset(),
    ensures
        indices_of(a).to_multiset() == indices_of(b).to_multiset(),
    decreases a.len(),
{
    broadcast use vstd::seq_lib::group_to_multiset_ensures;

    assert(a.len() == a.to_multiset().len());
    assert(b.len() == b.to_multiset().len());
    if a.len() == 0 {
        assert(indices_of(a) =~= indices_of(b));
    } else {
        let x = a.last();
        assert(a.contains(x));
        assert(b.to_multiset().count(x) > 0);
        assert(b.contains(x));
        let j = choose|j: int| 0 <= j < b.len() && b[j] == x;
        let a1 = a.drop_last();
        let b1 = b.remove(j);
        assert(a1 =~= a.remove(a.len() - 1));
        reorder_keeps_indices(a1, b1);
        assert(indices_of(a) =~= indices_of(a1).push(x.index));
        assert(indices_of(b).remove(j) =~= indices_of(b1));
        assert(indices_of(b).contains(indices_of(b)[j]));
        assert(indices_of(b).to_multiset() =~= indices_of(b1).to_multiset().insert(x.index));
    }
}

impl Bvh {
    /// The tree without nodes.
    pub fn empty() -> (r: Bvh)
        ensures
            r.nodes@.len() == 0,
            r.prim_indices@.len() == 0,
            r.wf(),
    {
        Bvh { nodes: Vec::new(), prim_indices: Vec::new() }
    }

    /// Builds the tree of a list of primitives.
    fn from_prims<B: Fn(Aabb, Vec3) -> usize, C: Fn(Aabb, SplitCandidate) -> Single>(
        prims: Vec<PrimInfo>,
        bucket_of: &B,
        cost_of: &C,
    ) -> (r: Bvh)
        requires
            prims.len() <= MAX_PRIMS,
            forall|a: Aabb, v: Vec3| #[trigger] bucket_of.requires((a, v)),
            forall|a: Aabb, c: SplitCandidate| #[trigger] cost_of.requires((a, c)),
        ensures
            r.wf(),
            built(*bucket_of, *cost_of, prims@, r),
            r.prim_indices@.to_multiset() == indices_of(prims@).to_multiset(),
    {
        let ghost given = prims@;
        if prims.len() == 0 {
            let r: Bvh = Bvh::empty();
            proof {
                assert(r.prim_indices@ =~= indices_of(given));
            }
            return r;
        }
        let mut prims = prims;
        let count: usize = prims.len();
        let mut nodes: Vec<BvhNode> = Vec::new();
        nodes.push(blank_node());
        build_recursive(&mut prims, 0, count, &mut nodes, 0, bucket_of, cost_of);
        proof {
            assert(given.subrange(0, count as int) =~= given);
            assert(prims@.subrange(0, count as int) =~= prims@);
            reorder_keeps_indices(prims@, given);
        }
        let mut prim_indices: Vec<u32> = Vec::new();
        let mut i: usize = 0;
        while i < prims.len()
            invariant
                i <= prims.len(),
                prim_indices@ == indices_of(prims@.take(i as int)),
            decreases prims.len() - i,
        {
            prim_indices.push(prims[i].index);
            i = i + 1;
            proof {
                assert(prims@.take(i as int) =~= prims@.take(i - 1).push(prims@[i - 1]));
                assert(prim_indices@ =~= indices_of(prims@.take(i as int)));
            }
        }
        let r = Bvh { nodes, prim_indices };
        proof {
            assert(prims@.take(i as int) =~= prims@);
            let n = r.nodes@.len() as int;
            assert(tree_of(*bucket_of, *cost_of, r.nodes@, 0, 1, n, 0, given, prims@));
            assert forall|j: int| 0 <= j < r.nodes@.len() implies #[trigger] sound_node(
                r.nodes@,
                r.prim_indices@.len() as int,
                j,
                0,
            ) by {
                assert(sound_node(r.nodes@, count as int, j, 1));
            }
        }
        r
    }

    /// Builds the tree of a list of triangles.
    pub fn build<
        M: Fn(BuilderTriangle) -> Vec3,
        B: Fn(Aabb, Vec3) -> usize,
        C: Fn(Aabb, SplitCandidate) -> Single,
    >(
        triangles: &Vec<BuilderTriangle>,
        centroid_of: M,
        bucket_of: B,
        cost_of: C,
    ) -> (r: Bvh)
        requires
            triangles.len() <= MAX_PRIMS,
            forall|t: BuilderTriangle| #[trigger] centroid_of.requires((t,)),
            forall|a: Aabb, v: Vec3| #[trigger] bucket_of.requires((a, v)),
            forall|a: Aabb, c: SplitCandidate| #[trigger] cost_of.requires((a, c)),
        ensures
            r.wf(),
            exists|prims: Seq<PrimInfo>| #[trigger]
                triangle_prims(centroid_of, triangles@, prims) && built(
                    bucket_of,
                    cost_of,
                    prims,
                    r,
                ),
            r.prim_indices@.to_multiset() == Seq::new(
                triangles@.len(),
                |i: int| i as u32,
            ).to_multiset(),
    {
        let mut prims: Vec<PrimInfo> = Vec::new();
        let mut i: usize = 0;
        while i < triangles.len()
            invariant
                i <= triangles.len() <= MAX_PRIMS,
                forall|t: BuilderTriangle| #[trigger] centroid_of.requires((t,)),
                triangle_prims(centroid_of, triangles@.take(i as int), prims@),
            decreases triangles.len() - i,
        {
            let t: BuilderTriangle = triangles[i];
            let centroid: Vec3 = centroid_of(t);
            prims.push(PrimInfo { index: i as u32, bounds: t.bounds(), centroid });
            i = i + 1;
        }
        proof {
            assert(triangles@.take(i as int) =~= triangles@);
            assert(triangle_prims(centroid_of, triangles@, prims@));
            assert(indices_of(prims@) =~= Seq::new(triangles@.len(), |i: int| i as u32));
        }
        Bvh::from_prims(prims, &bucket_of, &cost_of)
    }

    /// Builds a tree over instance boxes, each with its id.
    pub fn build_from_aabbs<
        M: Fn(Aabb) -> Vec3,
        B: Fn(Aabb, Vec3) -> usize,
        C: Fn(Aabb, SplitCandidate) -> Single,
    >(items: &Vec<(u32, Aabb)>, centroid_of: M, bucket_of: B, cost_of: C) -> (r: Bvh)
        requires
            items.len() <= MAX_PRIMS,
            forall|b: Aabb| #[trigger] centroid_of.requires((b,)),
            forall|a: Aabb, v: Vec3| #[trigger] bucket_of.requires((a, v)),
            forall|a: Aabb, c: SplitCandidate| #[trigger] cost_of.requires((a, c)),
        ensures
            r.wf(),
            exists|prims: Seq<PrimInfo>| #[trigger]
                box_prims(centroid_of, items@, prims) && built(bucket_of, cost_of, prims, r),
            r.prim_indices@.to_multiset() == items@.map_values(
                |p: (u32, Aabb)| p.0,
            ).to_multiset(),
    {
        let mut prims: Vec<PrimInfo> = Vec::new();
        let mut i: usize = 0;
        while i < items.len()
            invariant
                i <= items.len() <= MAX_PRIMS,
                forall|b: Aabb| #[trigger] centroid_of.requires((b,)),
                box_prims(centroid_of, items@.take(i as int), prims@),
            decreases items.len() - i,
        {
            let (index, bounds) = items[i];
            let centroid: Vec3 = centroid_of(bounds);
            prims.push(PrimInfo { index, bounds, centroid });
            i = i + 1;
        }
        proof {
            assert(items@.take(i as int) =~= items@);
            assert(box_prims(centroid_of, items@, prims@));
            assert(indices_of(prims@) =~= items@.map_values(|p: (u32, Aabb)| p.0));
        }
        Bvh::from_prims(prims, &bucket_of, &cost_of)
    }

    /// The box around everything in the tree.
    pub fn root_bounds(&self) -> (r: Aabb)
        ensures
            r == if self.nodes@.len() == 0 {
                geometry::nothing()
            } else {
                self.nodes@[0].bounds
            },
    {
        if self.nodes.len() == 0 {
            Aabb::empty()
        } else {
            self.nodes[0].bounds
        }
    }

    pub fn node_count(&self) -> (r: usize)
        ensures
            r == self.nodes@.len(),
    {
        self.nodes.len()
    }

    pub fn leaf_count(&self) -> (r: usize)
        ensures
            r == leaves_among(self.nodes@),
    {
        let mut n: usize = 0;
        let mut i: usize = 0;
        while i < self.nodes.len()
            invariant
                i <= self.nodes.len(),
                n == leaves_among(self.nodes@.take(i as int)),
                n <= i,
            decreases self.nodes.len() - i,
        {
            if self.nodes[i].is_leaf() {
                n = n + 1;
            }
            i = i + 1;
            proof {
                assert(self.nodes@.take(i as int).drop_last() =~= self.nodes@.take(i - 1));
            }
        }
        proof {
            assert(self.nodes@.take(i as int) =~= self.nodes@);
        }
        n
    }

    /// The cost of the tree by the surface area heuristic, relative to the surface
    /// of the root; 0 for a tree without nodes. A leaf counts with its primitives, an
    /// inner node with a constant.
    pub fn sah_cost<
        A: Fn(Aabb) -> Single,
        L: Fn(Single, Single, u32) -> Single,
        I: Fn(Single, Single) -> Single,
        Q: Fn(Single, Single) -> Single,
    >(&self, numbers: &CostArithmetic<A, L, I, Q>) -> (r: Single)
        requires
            arithmetic::steady(numbers.area),
            arithmetic::steady3(numbers.add_leaf),
            arithmetic::steady2(numbers.add_inner),
            arithmetic::steady2(numbers.over),
        ensures
            r == if self.nodes@.len() == 0 {
                Single { bits: 0 }
            } else {
                arithmetic::applied2(
                    numbers.over,
                    summed_cost(*numbers, self.nodes@),
                    geometry::surface(numbers.area, self.nodes@[0].bounds).greatest(
                        Single { bits: 0x1e3c_e508 },  // 1e-20
                    ),
                )
            },
            r == tree_cost(*numbers, self.nodes@),
    {
        if self.nodes.len() == 0 {
            return Single::zero();
        }
        let add_leaf = &numbers.add_leaf;
        let add_inner = &numbers.add_inner;
        let over = &numbers.over;
        let root: Single = self.nodes[0].bounds.surface_area(&numbers.area).max(
            Single::from_bits(0x1e3c_e508),  // 1e-20
        );
        let mut sum: Single = Single::zero();
        let mut i: usize = 0;
        proof {
            assert(self.nodes@.take(0) =~= Seq::empty());
        }
        while i < self.nodes.len()
            invariant
                i <= self.nodes@.len(),
                arithmetic::steady(numbers.area),
                arithmetic::steady3(numbers.add_leaf),
                arithmetic::steady2(numbers.add_inner),
                *add_leaf == numbers.add_leaf,
                *add_inner == numbers.add_inner,
                sum == summed_cost(*numbers, self.nodes@.take(i as int)),
            decreases self.nodes@.len() - i,
        {
            let node: BvhNode = self.nodes[i];
            let surface: Single = node.bounds.surface_area(&numbers.area);
            sum = if node.is_leaf() {
                add_leaf(sum, surface, node.prim_count)
            } else {
                add_inner(sum, surface)
            };
            i = i + 1;
            proof {
                assert(self.nodes@.take(i as int).drop_last() =~= self.nodes@.take(i - 1));
            }
        }
        proof {
            assert(self.nodes@.take(i as int) =~= self.nodes@);
        }
        over(sum, root)
    }
}

/// How the cost of a tree is worked out.
pub struct CostArithmetic<A, L, I, Q> {
    /// The surface of a box whose lows are below its highs.
    pub area: A,
    /// A sum with a leaf of a surface and a number of primitives.
    pub add_leaf: L,
    /// A sum with an inner node of a surface.
    pub add_inner: I,
    pub over: Q,
}

/// The costs of nodes, added up from 0.
pub open spec fn summed_cost<
    A: Fn(Aabb) -> Single,
    L: Fn(Single, Single, u32) -> Single,
    I: Fn(Single, Single) -> Single,
    Q: Fn(Single, Single) -> Single,
>(numbers: CostArithmetic<A, L, I, Q>, nodes: Seq<BvhNode>) -> Single
    decreases nodes.len(),
{
    if nodes.len() == 0 {
        Single { bits: 0 }
    } else {
        let before = summed_cost(numbers, nodes.drop_last());
        let surface = geometry::surface(numbers.area, nodes.last().bounds);
        if nodes.last().prim_count > 0 {
            arithmetic::applied3(numbers.add_leaf, before, surface, nodes.last().prim_count)
        } else {
            arithmetic::applied2(numbers.add_inner, before, surface)
        }
    }
}

/// How many of the nodes are leaves.
pub open spec fn leaves_among(nodes: Seq<BvhNode>) -> nat
    decreases nodes.len(),
{
    if nodes.len() == 0 {
        0
    } else {
        leaves_among(nodes.drop_last()) + if nodes.last().prim_count > 0 {
            1nat
        } else {
            0nat
        }
    }
}

impl Default for Bvh {
    fn default() -> (r: Bvh)
        ensures
            r.nodes@.len() == 0,
            r.prim_indices@.len() == 0,
    {
        Bvh::empty()
    }
}

/// The root's box covers every primitive of the tree.
pub proof fn root_covers_every_primitive<
    B: Fn(Aabb, Vec3) -> usize,
    C: Fn(Aabb, SplitCandidate) -> Single,
>(bucket_of: B, cost_of: C, prims: Seq<PrimInfo>, bvh: Bvh, i: int)
    requires
        built(bucket_of, cost_of, prims, bvh),
        0 <= i < prims.len(),
    ensures
        bvh.nodes@.len() > 0,
        bvh.nodes@[0].bounds.covers(prims[i].bounds),
{
    let leaves = choose|leaves: Seq<PrimInfo>| #[trigger]
        tree_of(bucket_of, cost_of, bvh.nodes@, 0, 1, bvh.nodes@.len() as int, 0, prims, leaves)
            && bvh.prim_indices@ == indices_of(leaves);
    let n = bvh.nodes@.len() as int;
    assert(tree_of(bucket_of, cost_of, bvh.nodes@, 0, 1, n, 0, prims, leaves));
    total_covers_each(prims, i);
}

/// The box of an inner node covers the boxes of both its children.
pub proof fn parent_covers_children(bvh: Bvh, node: int)
    requires
        bvh.wf(),
        0 <= node < bvh.nodes@.len(),
        bvh.nodes@[node].prim_count == 0,
    ensures
        node < bvh.nodes@[node].left_or_start,
        bvh.nodes@[node].left_or_start + 1 < bvh.nodes@.len(),
        bvh.nodes@[node].bounds.covers(
            bvh.nodes@[bvh.nodes@[node].left_or_start as int].bounds,
        ),
        bvh.nodes@[node].bounds.covers(
            bvh.nodes@[bvh.nodes@[node].left_or_start + 1].bounds,
        ),
{
    assert(sound_node(bvh.nodes@, bvh.prim_indices@.len() as int, node, 0));
}

/// Up to four primitives make a tree of one leaf.
pub proof fn few_primitives_make_one_leaf<
    B: Fn(Aabb, Vec3) -> usize,
    C: Fn(Aabb, SplitCandidate) -> Single,
>(bucket_of: B, cost_of: C, prims: Seq<PrimInfo>, bvh: Bvh)
    requires
        built(bucket_of, cost_of, prims, bvh),
        0 < prims.len() <= MAX_LEAF_PRIMS,
    ensures
        bvh.nodes@.len() == 1,
        bvh.nodes@[0].prim_count == prims.len(),
        bvh.nodes@[0].left_or_start == 0,
        bvh.nodes@[0].bounds == total_bounds(prims),
        bvh.prim_indices@ == indices_of(prims),
{
    let leaves = choose|leaves: Seq<PrimInfo>| #[trigger]
        tree_of(bucket_of, cost_of, bvh.nodes@, 0, 1, bvh.nodes@.len() as int, 0, prims, leaves)
            && bvh.prim_indices@ == indices_of(leaves);
    let n = bvh.nodes@.len() as int;
    assert(tree_of(bucket_of, cost_of, bvh.nodes@, 0, 1, n, 0, prims, leaves));
}

/// The box of a triangle holds its three corners and is the smallest that does.
pub proof fn triangles_fill_their_box(t: BuilderTriangle, c: Aabb)
    ensures
        t.bounding().covers(Aabb { min: t.v0, max: t.v0 }),
        t.bounding().covers(Aabb { min: t.v1, max: t.v1 }),
        t.bounding().covers(Aabb { min: t.v2, max: t.v2 }),
        c.covers(Aabb { min: t.v0, max: t.v0 }) && c.covers(Aabb { min: t.v1, max: t.v1 })
            && c.covers(Aabb { min: t.v2, max: t.v2 }) ==> c.covers(t.bounding()),
{
}

/// The box around a run is the smallest: whatever covers each primitive covers it.
pub proof fn boxes_around_runs_are_smallest(run: Seq<PrimInfo>, c: Aabb)
    requires
        c.numeric(),
        forall|i: int| 0 <= i < run.len() ==> c.covers(#[trigger] run[i].bounds),
    ensures
        c.covers(total_bounds(run)),
{
    cover_all_covers_total(c, run);
}

/// A split leaves no primitive out and counts none twice: those whose bucket is not past the
/// split go left, the others right. The box of each side covers its own primitives, and is
/// the smallest that does.
pub proof fn splits_part_the_run(run: Seq<PrimInfo>, keys: Seq<usize>, i: int, c: Aabb)
    requires
        keys.len() == run.len() <= u32::MAX,
        0 <= i < SAH_NUM_BUCKETS - 1,
        forall|k: int| 0 <= k < keys.len() ==> (#[trigger] keys[k]) < SAH_NUM_BUCKETS,
        c.numeric(),
    ensures
        candidate(run, keys, i).left_count + candidate(run, keys, i).right_count == run.len(),
        forall|k: int|
            0 <= k < run.len() ==> if keys[k] <= i {
                candidate(run, keys, i).left.covers((#[trigger] run[k]).bounds)
            } else {
                candidate(run, keys, i).right.covers(run[k].bounds)
            },
        (forall|k: int|
            0 <= k < run.len() && keys[k] <= i ==> c.covers((#[trigger] run[k]).bounds))
            ==> c.covers(candidate(run, keys, i).left),
        (forall|k: int|
            0 <= k < run.len() && keys[k] > i ==> c.covers((#[trigger] run[k]).bounds))
            ==> c.covers(candidate(run, keys, i).right),
        (forall|k: int| 0 <= k < keys.len() ==> (#[trigger] keys[k]) <= i) ==> candidate(
            run,
            keys,
            i,
        ).right_count == 0,
        (forall|k: int| 0 <= k < keys.len() ==> (#[trigger] keys[k]) > i) ==> candidate(
            run,
            keys,
            i,
        ).left_count == 0,
{
    let end = SAH_NUM_BUCKETS as int;
    group_is_between(keys, 0, i + 1);
    group_is_between(keys, i + 1, end);
    sides_make_the_whole(keys, i + 1, end);
    assert forall|k: int| 0 <= k < run.len() implies if keys[k] <= i {
        candidate(run, keys, i).left.covers((#[trigger] run[k]).bounds)
    } else {
        candidate(run, keys, i).right.covers(run[k].bounds)
    } by {
        if keys[k] <= i {
            groups_cover_their_own(run, keys, 0, i + 1, k);
        } else {
            assert(keys[k] < SAH_NUM_BUCKETS);
            groups_cover_their_own(run, keys, i + 1, end, k);
        }
    }
    if forall|k: int| 0 <= k < run.len() && keys[k] <= i ==> c.covers((#[trigger] run[k]).bounds) {
        groups_are_smallest(run, keys, 0, i + 1, c);
    }
    if forall|k: int| 0 <= k < run.len() && keys[k] > i ==> c.covers((#[trigger] run[k]).bounds) {
        groups_are_smallest(run, keys, i + 1, end, c);
    }
    if forall|k: int| 0 <= k < keys.len() ==> (#[trigger] keys[k]) <= i {
        none_between(keys, i + 1, end);
    }
    if forall|k: int| 0 <= k < keys.len() ==> (#[trigger] keys[k]) > i {
        none_between(keys, 0, i + 1);
    }
}

proof fn none_between(keys: Seq<usize>, from: int, to: int)
    requires
        forall|k: int| 0 <= k < keys.len() ==> !(from <= #[trigger] keys[k] < to),
    ensures
        between(keys, from, to) == 0,
    decreases keys.len(),
{
    if keys.len() > 0 {
        let fewer = keys.drop_last();
        assert forall|k: int| 0 <= k < fewer.len() implies !(from <= #[trigger] fewer[k] < to) by {
            assert(fewer[k] == keys[k]);
        }
        none_between(fewer, from, to);
        assert(keys.last() == keys[keys.len() - 1]);
    }
}

proof fn sides_make_the_whole(keys: Seq<usize>, mid: int, end: int)
    requires
        0 <= mid <= end,
        forall|k: int| 0 <= k < keys.len() ==> (#[trigger] keys[k]) < end,
    ensures
        between(keys, 0, mid) + between(keys, mid, end) == keys.len(),
    decreases keys.len(),
{
    if keys.len() > 0 {
        let fewer = keys.drop_last();
        assert forall|k: int| 0 <= k < fewer.len() implies (#[trigger] fewer[k]) < end by {
            assert(fewer[k] == keys[k]);
        }
        sides_make_the_whole(fewer, mid, end);
        assert(keys.last() == keys[keys.len() - 1]);
    }
}

proof fn buckets_are_numeric(run: Seq<PrimInfo>, keys: Seq<usize>, bucket: int)
    ensures
        bucket_bounds(run, keys, bucket).numeric(),
    decreases keys.len(),
{
    if keys.len() > 0 && run.len() > 0 {
        buckets_are_numeric(run.drop_last(), keys.drop_last(), bucket);
    }
}

proof fn groups_are_numeric(run: Seq<PrimInfo>, keys: Seq<usize>, from: int, to: int)
    ensures
        group_bounds(run, keys, from, to).numeric(),
    decreases to - from,
{
    if to > from {
        groups_are_numeric(run, keys, from, to - 1);
        buckets_are_numeric(run, keys, to - 1);
    }
}

proof fn buckets_cover_their_own(run: Seq<PrimInfo>, keys: Seq<usize>, k: int)
    requires
        keys.len() == run.len(),
        0 <= k < run.len(),
    ensures
        bucket_bounds(run, keys, keys[k] as int).covers(run[k].bounds),
    decreases keys.len(),
{
    let bucket = keys[k] as int;
    if k < keys.len() - 1 {
        buckets_cover_their_own(run.drop_last(), keys.drop_last(), k);
        buckets_are_numeric(run.drop_last(), keys.drop_last(), bucket);
        geometry::covering_is_transitive(
            bucket_bounds(run, keys, bucket),
            bucket_bounds(run.drop_last(), keys.drop_last(), bucket),
            run[k].bounds,
        );
    }
}

proof fn groups_cover_their_own(run: Seq<PrimInfo>, keys: Seq<usize>, from: int, to: int, k: int)
    requires
        keys.len() == run.len(),
        0 <= k < run.len(),
        from <= keys[k] < to,
    ensures
        group_bounds(run, keys, from, to).covers(run[k].bounds),
    decreases to - from,
{
    let before = group_bounds(run, keys, from, to - 1);
    let last = bucket_bounds(run, keys, to - 1);
    groups_are_numeric(run, keys, from, to - 1);
    buckets_are_numeric(run, keys, to - 1);
    geometry::union_covers_both(before, last);
    if keys[k] == to - 1 {
        buckets_cover_their_own(run, keys, k);
        geometry::covering_is_transitive(before.joined(last), last, run[k].bounds);
    } else {
        groups_cover_their_own(run, keys, from, to - 1, k);
        geometry::covering_is_transitive(before.joined(last), before, run[k].bounds);
    }
}

proof fn buckets_are_smallest(run: Seq<PrimInfo>, keys: Seq<usize>, bucket: int, c: Aabb)
    requires
        keys.len() == run.len(),
        c.numeric(),
        forall|k: int|
            0 <= k < run.len() && keys[k] == bucket ==> c.covers((#[trigger] run[k]).bounds),
    ensures
        c.covers(bucket_bounds(run, keys, bucket)),
    decreases keys.len(),
{
    if keys.len() > 0 {
        let fewer = run.drop_last();
        let others = keys.drop_last();
        assert forall|k: int| 0 <= k < fewer.len() && others[k] == bucket implies c.covers(
            (#[trigger] fewer[k]).bounds,
        ) by {
            assert(fewer[k] == run[k] && others[k] == keys[k]);
        }
        buckets_are_smallest(fewer, others, bucket, c);
        if keys.last() == bucket {
            assert(c.covers(run[run.len() - 1].bounds));
        }
    }
}

proof fn groups_are_smallest(run: Seq<PrimInfo>, keys: Seq<usize>, from: int, to: int, c: Aabb)
    requires
        keys.len() == run.len(),
        c.numeric(),
        forall|k: int|
            0 <= k < run.len() && from <= keys[k] < to ==> c.covers((#[trigger] run[k]).bounds),
    ensures
        c.covers(group_bounds(run, keys, from, to)),
    decreases to - from,
{
    if to > from {
        groups_are_smallest(run, keys, from, to - 1, c);
        buckets_are_smallest(run, keys, to - 1, c);
    }
}

/// The split that is chosen costs no more than any other, and is the first of its cost;
/// where none costs less than infinity, nothing is chosen.
pub proof fn the_chosen_split_costs_least(costs: Seq<Option<Single>>)
    ensures
        ({
            let (least, at) = best_split(costs);
            &&& !least.nan()
            &&& forall|i: int|
                0 <= i < costs.len() && (#[trigger] costs[i]) is Some ==> !costs[i]->0.below(least)
            &&& least.bits != 0x7f80_0000 ==> 0 <= at < costs.len() && costs[at] == Some(least)
            &&& least.bits != 0x7f80_0000 ==> forall|i: int|
                0 <= i < at && (#[trigger] costs[i]) is Some && !costs[i]->0.nan() ==> least.below(
                    costs[i]->0,
                )
            &&& least.bits == 0x7f80_0000 ==> at == 0
        }),
    decreases costs.len(),
{
    if costs.len() > 0 {
        let fewer = costs.drop_last();
        the_chosen_split_costs_least(fewer);
        let (least, at) = best_split(costs);
        assert forall|i: int| 0 <= i < costs.len() && (#[trigger] costs[i]) is Some implies
            !costs[i]->0.below(least) by {
            if i < fewer.len() {
                assert(fewer[i] == costs[i]);
            }
        }
        if least.bits != 0x7f80_0000 {
            assert forall|i: int|
                0 <= i < at && (#[trigger] costs[i]) is Some && !costs[i]->0.nan() implies
                least.below(costs[i]->0) by {
                assert(fewer[i] == costs[i]);
            }
        }
    }
}

/// A parted run has on its left exactly the primitives whose bucket is not past the split.
/// `low` says of a primitive whether its bucket is.
pub proof fn parted_runs_stand_on_their_sides(
    run: Seq<PrimInfo>,
    keys: Seq<usize>,
    split: int,
    low: spec_fn(PrimInfo) -> bool,
)
    requires
        keys.len() == run.len(),
        forall|k: int| 0 <= k < run.len() ==> (low(#[trigger] run[k]) <==> keys[k] <= split),
    ensures
        ({
            let (order, mid) = parted(run, keys, split, 0, run.len() as int);
            &&& order.to_multiset() == run.to_multiset()
            &&& 0 <= mid <= order.len() == run.len()
            &&& forall|k: int| 0 <= k < order.len() ==> (low(#[trigger] order[k]) <==> k < mid)
        }),
{
    parted_is_partition(run, keys, split, 0, run.len() as int);
    parting_goes_on(run, keys, split, 0, run.len() as int, low);
}

proof fn parting_goes_on(
    run: Seq<PrimInfo>,
    keys: Seq<usize>,
    split: int,
    left: int,
    right: int,
    low: spec_fn(PrimInfo) -> bool,
)
    requires
        0 <= left <= right <= run.len(),
        keys.len() == run.len(),
        forall|k: int| 0 <= k < run.len() ==> (low(#[trigger] run[k]) <==> keys[k] <= split),
        forall|k: int| 0 <= k < left ==> low(#[trigger] run[k]),
        forall|k: int| right <= k < run.len() ==> !low(#[trigger] run[k]),
    ensures
        ({
            let (order, mid) = parted(run, keys, split, left, right);
            &&& order.len() == run.len()
            &&& left <= mid <= right
            &&& forall|k: int| 0 <= k < order.len() ==> (low(#[trigger] order[k]) <==> k < mid)
        }),
    decreases right - left,
{
    if left < right {
        assert(low(run[left]) <==> keys[left] <= split);
        if keys[left] <= split {
            parting_goes_on(run, keys, split, left + 1, right, low);
        } else {
            let r = swapped(run, left, right - 1);
            let s = swapped(keys, left, right - 1);
            assert forall|k: int| 0 <= k < r.len() implies (low(#[trigger] r[k]) <==> s[k]
                <= split) by {
                if k == left {
                    assert(r[k] == run[right - 1] && s[k] == keys[right - 1]);
                } else if k == right - 1 {
                    assert(r[k] == run[left] && s[k] == keys[left]);
                } else {
                    assert(r[k] == run[k] && s[k] == keys[k]);
                }
            }
            assert forall|k: int| 0 <= k < left implies low(#[trigger] r[k]) by {
                assert(r[k] == run[k]);
            }
            assert forall|k: int| right - 1 <= k < r.len() implies !low(#[trigger] r[k]) by {
                if k == right - 1 {
                    assert(r[k] == run[left]);
                } else {
                    assert(r[k] == run[k]);
                }
            }
            parting_goes_on(r, s, split, left, right - 1, low);
        }
    }
}

/// A run becomes a leaf where it is small, where its middles have no extent, where it is not
/// large and no split costs less than going through it, or where the chosen split leaves a
/// side empty; else it is split there, with something on either side.
pub proof fn runs_are_split_where_it_pays(
    run: Seq<PrimInfo>,
    keys: Seq<usize>,
    costs: Seq<Option<Single>>,
)
    requires
        keys.len() == run.len(),
    ensures
        ({
            let (least, split) = best_split(costs);
            let (order, mid) = parted(run, keys, split, 0, run.len() as int);
            &&& run.len() <= MAX_LEAF_PRIMS ==> decide(run, keys, costs) is Leaf
            &&& centroid_bounds(run).vacant() ==> decide(run, keys, costs) is Leaf
            &&& run.len() <= MAX_COST_LEAF_PRIMS && whole(run.len() as int).at_most(least)
                ==> decide(run, keys, costs) is Leaf
            &&& decide(run, keys, costs) matches Plan::Split { order: o, mid: m } ==> o == order
                && m == mid && 0 < m < run.len()
            &&& decide(run, keys, costs) matches Plan::Leaf { order: o } ==> o.to_multiset()
                == run.to_multiset()
            &&& run.len() > MAX_COST_LEAF_PRIMS && !centroid_bounds(run).vacant() && 0 < mid
                < run.len() ==> decide(run, keys, costs) is Split
        }),
{
    let (least, split) = best_split(costs);
    parted_is_partition(run, keys, split, 0, run.len() as int);
}

/// The cost of going through a leaf is the number of its primitives: one is 1, twice as many
/// are twice as much, and more are more.
pub proof fn going_through_more_costs_more(n: int, m: int)
    requires
        0 <= n < m < 32,
    ensures
        whole(0).bits == 0,
        whole(1).bits == 0x3f80_0000,
        whole(n).below(whole(m)),
        1 <= n < 16 ==> whole(2 * n).bits == whole(n).bits + 0x80_0000,
{
}

/// The costs of a tree take in every node once: a leaf by its surface and its primitives, an
/// inner node by its surface.
pub proof fn every_node_costs_once<
    A: Fn(Aabb) -> Single,
    L: Fn(Single, Single, u32) -> Single,
    I: Fn(Single, Single) -> Single,
    Q: Fn(Single, Single) -> Single,
>(numbers: CostArithmetic<A, L, I, Q>, nodes: Seq<BvhNode>)
    ensures
        summed_cost(numbers, nodes) == nodes.fold_left(
            Single { bits: 0 },
            |sum: Single, n: BvhNode|
                if n.prim_count > 0 {
                    arithmetic::applied3(
                        numbers.add_leaf,
                        sum,
                        geometry::surface(numbers.area, n.bounds),
                        n.prim_count,
                    )
                } else {
                    arithmetic::applied2(
                        numbers.add_inner,
                        sum,
                        geometry::surface(numbers.area, n.bounds),
                    )
                },
        ),
    decreases nodes.len(),
{
    if nodes.len() > 0 {
        every_node_costs_once(numbers, nodes.drop_last());
    }
}

/// The leaves of a tree are its nodes with primitives.
pub proof fn leaves_are_nodes_with_primitives(nodes: Seq<BvhNode>)
    ensures
        leaves_among(nodes) == nodes.filter(|n: BvhNode| n.prim_count > 0).len(),
    decreases nodes.len(),
{
    reveal(Seq::filter);
    if nodes.len() > 0 {
        leaves_are_nodes_with_primitives(nodes.drop_last());
    }
}

/// Readings keep their bucket, and those past the last bucket go into it.
pub proof fn late_readings_go_into_the_last_bucket(reading: usize)
    ensures
        bucket_key(reading) < SAH_NUM_BUCKETS,
        reading < SAH_NUM_BUCKETS ==> bucket_key(reading) == reading,
        reading >= SAH_NUM_BUCKETS ==> bucket_key(reading) == SAH_NUM_BUCKETS - 1,
{
}

/// The cost of a tree, relative to the surface of its root.
pub open spec fn tree_cost<
    A: Fn(Aabb) -> Single,
    L: Fn(Single, Single, u32) -> Single,
    I: Fn(Single, Single) -> Single,
    Q: Fn(Single, Single) -> Single,
>(numbers: CostArithmetic<A, L, I, Q>, nodes: Seq<BvhNode>) -> Single {
    if nodes.len() == 0 {
        Single { bits: 0 }
    } else {
        arithmetic::applied2(
            numbers.over,
            summed_cost(numbers, nodes),
            geometry::surface(numbers.area, nodes[0].bounds).greatest(
                Single { bits: 0x1e3c_e508 },  // 1e-20
            ),
        )
    }
}

/// The cost of a tree times the surface of its root is what its nodes cost together, where
/// division is exact; a surface below 1e-20 counts as that. A tree without nodes costs
/// nothing.
pub proof fn costs_are_relative_to_the_root<
    A: Fn(Aabb) -> Single,
    L: Fn(Single, Single, u32) -> Single,
    I: Fn(Single, Single) -> Single,
    Q: Fn(Single, Single) -> Single,
>(numbers: CostArithmetic<A, L, I, Q>, nodes: Seq<BvhNode>, value: spec_fn(Single) -> int)
    requires
        nodes.len() > 0,
        ({
            let root = geometry::surface(numbers.area, nodes[0].bounds).greatest(
                Single { bits: 0x1e3c_e508 },
            );
            value(arithmetic::applied2(numbers.over, summed_cost(numbers, nodes), root)) * value(
                root,
            ) == value(summed_cost(numbers, nodes))
        }),
    ensures
        tree_cost(numbers, Seq::empty()).bits == 0,
        (Single { bits: 0x1e3c_e508 }).at_most(
            geometry::surface(numbers.area, nodes[0].bounds),
        ) ==> value(tree_cost(numbers, nodes)) * value(
            geometry::surface(numbers.area, nodes[0].bounds),
        ) == value(summed_cost(numbers, nodes)),
        geometry::surface(numbers.area, nodes[0].bounds).below(Single { bits: 0x1e3c_e508 })
            ==> value(tree_cost(numbers, nodes)) * value(Single { bits: 0x1e3c_e508 }) == value(
            summed_cost(numbers, nodes),
        ),
{
}

} // verus!

//! Points and axis-aligned boxes over single-precision coordinates.
use vstd::prelude::*;

use crate::arithmetic;
use crate::single::Single;

verus! {

/// A point or direction.
#[derive(Clone, Copy, Debug, PartialEq, Eq, Structural)]
pub struct Vec3 {
    pub x: Single,
    pub y: Single,
    pub z: Single,
}

impl Vec3 {
    /// The smaller coordinate on each axis.
    pub open spec fn least(self, other: Vec3) -> Vec3 {
        Vec3 {
            x: self.x.least(other.x),
            y: self.y.least(other.y),
            z: self.z.least(other.z),
        }
    }

    /// The larger coordinate on each axis.
    pub open spec fn greatest(self, other: Vec3) -> Vec3 {
        Vec3 {
            x: self.x.greatest(other.x),
            y: self.y.greatest(other.y),
            z: self.z.greatest(other.z),
        }
    }

    pub fn new(x: Single, y: Single, z: Single) -> (r: Vec3)
        ensures
            r == (Vec3 { x, y, z }),
    {
        Vec3 { x, y, z }
    }

    pub fn splat(v: Single) -> (r: Vec3)
        ensures
            r == (Vec3 { x: v, y: v, z: v }),
    {
        Vec3 { x: v, y: v, z: v }
    }

    pub fn min(self, other: Vec3) -> (r: Vec3)
        ensures
            r == self.least(other),
    {
        Vec3 { x: self.x.min(other.x), y: self.y.min(other.y), z: self.z.min(other.z) }
    }

    pub fn max(self, other: Vec3) -> (r: Vec3)
        ensures
            r == self.greatest(other),
    {
        Vec3 { x: self.x.max(other.x), y: self.y.max(other.y), z: self.z.max(other.z) }
    }
}

/// A texture coordinate.
#[derive(Clone, Copy, Debug, PartialEq, Eq, Structural)]
pub struct Vec2 {
    pub x: Single,
    pub y: Single,
}

/// One row of a 4x4 matrix.
#[derive(Clone, Copy, Debug, PartialEq, Eq, Structural)]
pub struct Vec4 {
    pub x: Single,
    pub y: Single,
    pub z: Single,
    pub w: Single,
}

/// A 4x4 row-major matrix.
#[derive(Clone, Copy, Debug, PartialEq, Eq, Structural)]
pub struct Mat4 {
    pub row0: Vec4,
    pub row1: Vec4,
    pub row2: Vec4,
    pub row3: Vec4,
}

/// Axis-aligned bounding box.
#[derive(Clone, Copy, Debug, PartialEq, Eq, Structural)]
pub struct Aabb {
    pub min: Vec3,
    pub max: Vec3,
}

/// Three zeros: the origin, or no light.
pub open spec fn zeros() -> Vec3 {
    Vec3 { x: Single { bits: 0 }, y: Single { bits: 0 }, z: Single { bits: 0 } }
}

/// The box that holds nothing: every point lies outside it on every axis.
pub open spec fn nothing() -> Aabb {
    let up = Single { bits: 0x7f80_0000 };
    let down = Single { bits: 0xff80_0000 };
    Aabb { min: Vec3 { x: up, y: up, z: up }, max: Vec3 { x: down, y: down, z: down } }
}

/// Whether `low` is no greater than `v`; a NaN asks for nothing.
pub open spec fn reaches_down(low: Single, v: Single) -> bool {
    v.nan() || low.at_most(v)
}

/// Whether `high` is no less than `v`; a NaN asks for nothing.
pub open spec fn reaches_up(high: Single, v: Single) -> bool {
    v.nan() || v.at_most(high)
}

impl Aabb {
    /// The box stretched to hold a point.
    pub open spec fn grown(self, p: Vec3) -> Aabb {
        Aabb { min: self.min.least(p), max: self.max.greatest(p) }
    }

    /// The smallest box around two boxes.
    pub open spec fn joined(self, other: Aabb) -> Aabb {
        Aabb { min: self.min.least(other.min), max: self.max.greatest(other.max) }
    }

    /// Whether the box is inside out on some axis.
    pub open spec fn vacant(self) -> bool {
        ||| self.max.x.below(self.min.x)
        ||| self.max.y.below(self.min.y)
        ||| self.max.z.below(self.min.z)
    }

    /// Whether no coordinate is NaN.
    pub open spec fn numeric(self) -> bool {
        &&& !self.min.x.nan() && !self.min.y.nan() && !self.min.z.nan()
        &&& !self.max.x.nan() && !self.max.y.nan() && !self.max.z.nan()
    }

    /// Whether the box reaches at least as far as `other` in all six directions.
    pub open spec fn covers(self, other: Aabb) -> bool {
        &&& reaches_down(self.min.x, other.min.x)
        &&& reaches_down(self.min.y, other.min.y)
        &&& reaches_down(self.min.z, other.min.z)
        &&& reaches_up(self.max.x, other.max.x)
        &&& reaches_up(self.max.y, other.max.y)
        &&& reaches_up(self.max.z, other.max.z)
    }

    /// The box that holds nothing: lows at infinity, highs at minus infinity, so
    /// that the first point or box it takes in sets all of them.
    pub fn empty() -> (r: Aabb)
        ensures
            r == nothing(),
    {
        Aabb {
            min: Vec3::splat(Single::infinity()),
            max: Vec3::splat(Single::negative_infinity()),
        }
    }

    pub fn point(p: Vec3) -> (r: Aabb)
        ensures
            r == (Aabb { min: p, max: p }),
    {
        Aabb { min: p, max: p }
    }

    pub fn from_points(points: &Vec<Vec3>) -> (r: Aabb)
        ensures
            r == around(points@),
    {
        let mut b: Aabb = Aabb::empty();
        let mut i: usize = 0;
        while i < points.len()
            invariant
                i <= points.len(),
                b == around(points@.take(i as int)),
            decreases points.len() - i,
        {
            b.expand_point(points[i]);
            i = i + 1;
            proof {
                assert(points@.take(i as int).drop_last() =~= points@.take(i - 1));
            }
        }
        proof {
            assert(points@.take(i as int) =~= points@);
        }
        b
    }

    pub fn expand_point(&mut self, p: Vec3)
        ensures
            *final(self) == old(self).grown(p),
    {
        self.min = self.min.min(p);
        self.max = self.max.max(p);
    }

    pub fn merge(&mut self, other: &Aabb)
        ensures
            *final(self) == old(self).joined(*other),
    {
        self.min = self.min.min(other.min);
        self.max = self.max.max(other.max);
    }

    pub fn union(a: &Aabb, b: &Aabb) -> (r: Aabb)
        ensures
            r == a.joined(*b),
    {
        Aabb { min: a.min.min(b.min), max: a.max.max(b.max) }
    }

    pub fn is_empty(&self) -> (r: bool)
        ensures
            r == self.vacant(),
    {
        self.max.x.lt(self.min.x) || self.max.y.lt(self.min.y) || self.max.z.lt(self.min.z)
    }

    /// The surface of the box, 0 for one that holds nothing. `area` is the surface of
    /// a box whose lows are below its highs.
    pub fn surface_area<A: Fn(Aabb) -> Single>(&self, area: &A) -> (r: Single)
        requires
            arithmetic::steady(*area),
        ensures
            r == surface(*area, *self),
    {
        if self.is_empty() {
            Single::zero()
        } else {
            area(*self)
        }
    }

    /// The box around the eight corners of this one, moved by `place`. A box that
    /// holds nothing stays as it is.
    pub fn transformed<P: Fn(Vec3) -> Vec3>(&self, place: &P) -> (r: Aabb)
        requires
            arithmetic::steady(*place),
        ensures
            r == if self.vacant() {
                *self
            } else {
                around(corners(*self).map_values(|c: Vec3| arithmetic::applied(*place, c)))
            },
            r == moved_box(*place, *self),
    {
        if self.is_empty() {
            return *self;
        }
        let low: Vec3 = self.min;
        let high: Vec3 = self.max;
        let all: Vec<Vec3> = vec![
            Vec3 { x: low.x, y: low.y, z: low.z },
            Vec3 { x: high.x, y: low.y, z: low.z },
            Vec3 { x: low.x, y: high.y, z: low.z },
            Vec3 { x: high.x, y: high.y, z: low.z },
            Vec3 { x: low.x, y: low.y, z: high.z },
            Vec3 { x: high.x, y: low.y, z: high.z },
            Vec3 { x: low.x, y: high.y, z: high.z },
            Vec3 { x: high.x, y: high.y, z: high.z },
        ];
        let mut moved: Vec<Vec3> = Vec::new();
        let mut i: usize = 0;
        proof {
            assert(all@ =~= corners(*self));
        }
        while i < all.len()
            invariant
                i <= all@.len(),
                all@ == corners(*self),
                arithmetic::steady(*place),
                moved@.len() == i,
                forall|j: int|
                    0 <= j < i ==> #[trigger] moved@[j] == arithmetic::applied(*place, all@[j]),
            decreases all@.len() - i,
        {
            moved.push(place(all[i]));
            i = i + 1;
        }
        proof {
            assert(moved@ =~= corners(*self).map_values(
                |c: Vec3| arithmetic::applied(*place, c),
            ));
        }
        Aabb::from_points(&moved)
    }

    /// Index (0=x, 1=y, 2=z) of the longest axis. `minus` is the difference of two
    /// points.
    pub fn longest_axis<M: Fn(Vec3, Vec3) -> Vec3>(&self, minus: &M) -> (r: usize)
        requires
            arithmetic::steady2(*minus),
        ensures
            r == longest(arithmetic::applied2(*minus, self.max, self.min)),
    {
        let extent: Vec3 = minus(self.max, self.min);
        if extent.y.lt(extent.x) && extent.z.lt(extent.x) {
            0
        } else if extent.z.lt(extent.y) {
            1
        } else {
            2
        }
    }
}

/// The surface of a box, 0 for one that holds nothing.
pub open spec fn surface<A: Fn(Aabb) -> Single>(area: A, b: Aabb) -> Single {
    if b.vacant() {
        Single { bits: 0 }
    } else {
        arithmetic::applied(area, b)
    }
}

/// The corners of a box, x going fastest.
pub open spec fn corners(b: Aabb) -> Seq<Vec3> {
    seq![
        Vec3 { x: b.min.x, y: b.min.y, z: b.min.z },
        Vec3 { x: b.max.x, y: b.min.y, z: b.min.z },
        Vec3 { x: b.min.x, y: b.max.y, z: b.min.z },
        Vec3 { x: b.max.x, y: b.max.y, z: b.min.z },
        Vec3 { x: b.min.x, y: b.min.y, z: b.max.z },
        Vec3 { x: b.max.x, y: b.min.y, z: b.max.z },
        Vec3 { x: b.min.x, y: b.max.y, z: b.max.z },
        Vec3 { x: b.max.x, y: b.max.y, z: b.max.z },
    ]
}

/// Axis of the greatest extent; of equal extents the later axis is taken.
pub open spec fn longest(extent: Vec3) -> usize {
    if extent.y.below(extent.x) && extent.z.below(extent.x) {
        0
    } else if extent.z.below(extent.y) {
        1
    } else {
        2
    }
}

impl Default for Aabb {
    fn default() -> (r: Aabb)
        ensures
            r == nothing(),
    {
        Aabb::empty()
    }
}

/// The box around points, taken in one after the other.
pub open spec fn around(points: Seq<Vec3>) -> Aabb
    decreases points.len(),
{
    if points.len() == 0 {
        nothing()
    } else {
        around(points.drop_last()).grown(points.last())
    }
}

/// A joined box covers both of the boxes that were joined.
pub proof fn union_covers_both(a: Aabb, b: Aabb)
    ensures
        a.joined(b).covers(a),
        a.joined(b).covers(b),
{
}

/// What covers a box covers everything that the box covers, as long as the box
/// in the middle holds no NaN.
pub proof fn covering_is_transitive(a: Aabb, b: Aabb, c: Aabb)
    requires
        a.covers(b),
        b.covers(c),
        b.numeric(),
    ensures
        a.covers(c),
{
}

/// The box around points covers each of them.
pub proof fn around_covers_points(points: Seq<Vec3>, i: int)
    requires
        0 <= i < points.len(),
    ensures
        around(points).numeric(),
        around(points).covers(Aabb { min: points[i], max: points[i] }),
    decreases points.len(),
{
    let before = points.drop_last();
    around_numeric(before);
    if i < before.len() {
        around_covers_points(before, i);
        covering_is_transitive(
            around(points),
            around(before),
            Aabb { min: points[i], max: points[i] },
        );
    }
}

proof fn around_numeric(points: Seq<Vec3>)
    ensures
        around(points).numeric(),
    decreases points.len(),
{
    if points.len() > 0 {
        around_numeric(points.drop_last());
    }
}

/// A joined box is the smallest around two boxes: whatever covers both covers it.
pub proof fn unions_are_smallest(a: Aabb, b: Aabb, c: Aabb)
    requires
        c.covers(a),
        c.covers(b),
    ensures
        c.covers(a.joined(b)),
{
}

/// The box around points is the smallest: whatever covers each of them covers it, and
/// around no points it is the one that every box covers.
pub proof fn boxes_around_points_are_smallest(points: Seq<Vec3>, c: Aabb)
    requires
        c.numeric(),
        forall|i: int|
            0 <= i < points.len() ==> c.covers(
                (Aabb { min: #[trigger] points[i], max: points[i] }),
            ),
    ensures
        c.covers(around(points)),
    decreases points.len(),
{
    if points.len() > 0 {
        let before = points.drop_last();
        assert forall|i: int| 0 <= i < before.len() implies c.covers(
            (Aabb { min: #[trigger] before[i], max: before[i] }),
        ) by {
            assert(before[i] == points[i]);
        }
        boxes_around_points_are_smallest(before, c);
        assert(c.covers(Aabb { min: points[points.len() - 1], max: points[points.len() - 1] }));
    }
}

/// The longest axis of a box has an extent that no other exceeds.
pub proof fn no_axis_is_longer(extent: Vec3)
    requires
        !extent.x.nan(),
        !extent.y.nan(),
        !extent.z.nan(),
    ensures
        longest(extent) <= 2,
        longest(extent) == 0 ==> extent.y.below(extent.x) && extent.z.below(extent.x),
        longest(extent) == 1 ==> extent.x.at_most(extent.y) && extent.z.below(extent.y),
        longest(extent) == 2 ==> extent.x.at_most(extent.z) && extent.y.at_most(extent.z),
{
}

/// The corners of a box are all ways to take a low or a high on each axis, each once: bit 0
/// of the corner's number picks on x, bit 1 on y, bit 2 on z.
pub proof fn corners_are_all_lows_and_highs(b: Aabb, i: int)
    requires
        0 <= i < 8,
    ensures
        corners(b).len() == 8,
        corners(b)[i].x == if i % 2 == 1 {
            b.max.x
        } else {
            b.min.x
        },
        corners(b)[i].y == if (i / 2) % 2 == 1 {
            b.max.y
        } else {
            b.min.y
        },
        corners(b)[i].z == if i / 4 == 1 {
            b.max.z
        } else {
            b.min.z
        },
{
}

/// A box that holds nothing has no surface; any other has the one that is worked out for it.
/// A box is inside out exactly where on some axis its high is below its low.
pub proof fn surfaces_are_of_what_holds_something<A: Fn(Aabb) -> Single>(area: A, b: Aabb)
    requires
        b.numeric(),
    ensures
        b.min.x.at_most(b.max.x) && b.min.y.at_most(b.max.y) && b.min.z.at_most(b.max.z)
            ==> surface(area, b) == arithmetic::applied(area, b),
        b.max.x.below(b.min.x) || b.max.y.below(b.min.y) || b.max.z.below(b.min.z) ==> surface(
            area,
            b,
        ).bits == 0,
        nothing().vacant(),
{
}

/// The box around the corners of another, moved by `place`.
pub open spec fn moved_box<P: Fn(Vec3) -> Vec3>(place: P, b: Aabb) -> Aabb {
    if b.vacant() {
        b
    } else {
        around(corners(b).map_values(|c: Vec3| arithmetic::applied(place, c)))
    }
}

/// A moved box holds every corner where it was moved to, and is the smallest that does. A
/// box that holds nothing stays as it is.
pub proof fn moved_boxes_hold_their_corners<P: Fn(Vec3) -> Vec3>(place: P, b: Aabb, c: Aabb, i: int)
    requires
        0 <= i < 8,
    ensures
        b.vacant() ==> moved_box(place, b) == b,
        !b.vacant() ==> moved_box(place, b).covers(
            (Aabb {
                min: arithmetic::applied(place, corners(b)[i]),
                max: arithmetic::applied(place, corners(b)[i]),
            }),
        ),
        !b.vacant() && c.numeric() && (forall|k: int|
            0 <= k < 8 ==> c.covers(
                (Aabb {
                    min: arithmetic::applied(place, #[trigger] corners(b)[k]),
                    max: arithmetic::applied(place, corners(b)[k]),
                }),
            )) ==> c.covers(moved_box(place, b)),
{
    let moved = corners(b).map_values(|c: Vec3| arithmetic::applied(place, c));
    assert(moved.len() == 8);
    around_covers_points(moved, i);
    assert(moved[i] == arithmetic::applied(place, corners(b)[i]));
    if !b.vacant() && c.numeric() && (forall|k: int|
        0 <= k < 8 ==> c.covers(
            (Aabb {
                min: arithmetic::applied(place, #[trigger] corners(b)[k]),
                max: arithmetic::applied(place, corners(b)[k]),
            }),
        )) {
        assert forall|k: int| 0 <= k < moved.len() implies c.covers(
            (Aabb { min: #[trigger] moved[k], max: moved[k] }),
        ) by {
            assert(moved[k] == arithmetic::applied(place, corners(b)[k]));
        }
        boxes_around_points_are_smallest(moved, c);
    }
}

} // verus!

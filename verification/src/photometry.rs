//! What a photometric profile says: the candela toward a direction, the flux of
//! the whole table, and a table baked for sampling.
//!
//! Arithmetic on numbers is the caller's part; which samples meet, how an angle
//! is folded into the sampled range and what is summed are settled here.
use vstd::prelude::*;

use crate::arithmetic;
use crate::ies;
use crate::ies::{IesPhotometricType, IesProfile};
use crate::single::Single;

verus! {

/// Where an angle falls among sampled angles.
#[derive(Clone, Copy, Debug, PartialEq, Eq, Structural)]
pub enum AnglePlace {
    /// At or before the first sample.
    Start,
    /// At or past the last sample.
    End,
    /// Between the sample at `lower` and the next.
    Inside,
}

/// The sample below an angle, and where the angle falls.
#[derive(Clone, Copy, Debug, PartialEq, Eq, Structural)]
pub struct Bracket {
    pub lower: usize,
    pub place: AnglePlace,
}

/// The sample at or below an angle. Angles outside the samples go to the nearest
/// end.
pub fn bracket_angle(angles: &Vec<Single>, a: Single) -> (r: Bracket)
    ensures
        bracket_holds(angles@, a, r),
{
    let n: usize = angles.len();
    if n < 2 {
        return Bracket { lower: 0, place: AnglePlace::Start };
    }
    if a.le(angles[0]) {
        return Bracket { lower: 0, place: AnglePlace::Start };
    }
    if angles[n - 1].le(a) {
        return Bracket { lower: n - 2, place: AnglePlace::End };
    }
    let mut lo: usize = 0;
    let mut hi: usize = n;
    while lo < hi
        invariant
            lo <= hi <= n,
            n == angles.len(),
            lo > 0 ==> angles[lo - 1].at_most(a),
            hi < n ==> !angles[hi as int].at_most(a),
        decreases hi - lo,
    {
        let mid: usize = lo + (hi - lo) / 2;
        if angles[mid].le(a) {
            lo = mid + 1;
        } else {
            hi = mid;
        }
    }
    let upper: usize = if lo < 1 {
        1
    } else if lo > n - 1 {
        n - 1
    } else {
        lo
    };
    Bracket { lower: upper - 1, place: AnglePlace::Inside }
}

/// Four neighbouring values of a table: the first letter counts rows (horizontal
/// angles), the second columns (vertical angles).
#[derive(Clone, Copy, Debug, PartialEq, Eq, Structural)]
pub struct Corners {
    pub c00: Single,
    pub c01: Single,
    pub c10: Single,
    pub c11: Single,
}

/// The next index, held to the last one.
pub open spec fn next_within(i: int, n: int) -> int {
    if i + 1 < n {
        i + 1
    } else {
        n - 1
    }
}

/// The neighbours of a place in a table of `rows` rows of `columns` values.
pub open spec fn corners_at(
    table: Seq<Single>,
    rows: int,
    columns: int,
    row: int,
    column: int,
) -> Corners {
    let row1 = next_within(row, rows);
    let column1 = next_within(column, columns);
    Corners {
        c00: table[row * columns + column],
        c01: table[row * columns + column1],
        c10: table[row1 * columns + column],
        c11: table[row1 * columns + column1],
    }
}

/// A place inside a table has an index inside its values.
pub proof fn index_in_table(rows: int, columns: int, row: int, column: int)
    requires
        0 <= row < rows,
        0 <= column < columns,
    ensures
        0 <= row * columns + column < rows * columns,
{
    assert(0 <= row * columns + column < rows * columns) by (nonlinear_arith)
        requires
            0 <= row < rows,
            0 <= column < columns,
    ;
}

fn read_corners(
    table: &Vec<Single>,
    rows: usize,
    columns: usize,
    row: usize,
    column: usize,
) -> (r: Corners)
    requires
        rows * columns <= table.len(),
        row < rows,
        column < columns,
    ensures
        r == corners_at(table@, rows as int, columns as int, row as int, column as int),
{
    let row1: usize = if row + 1 < rows {
        row + 1
    } else {
        rows - 1
    };
    let column1: usize = if column + 1 < columns {
        column + 1
    } else {
        columns - 1
    };
    proof {
        index_in_table(rows as int, columns as int, row as int, column as int);
        index_in_table(rows as int, columns as int, row as int, column1 as int);
        index_in_table(rows as int, columns as int, row1 as int, column as int);
        index_in_table(rows as int, columns as int, row1 as int, column1 as int);
        assert(0 <= row * columns) by (nonlinear_arith);
        assert(0 <= row1 * columns) by (nonlinear_arith);
    }
    Corners {
        c00: table[row * columns + column],
        c01: table[row * columns + column1],
        c10: table[row1 * columns + column],
        c11: table[row1 * columns + column1],
    }
}

impl IesProfile {
    /// The table has a value for each pair of angles.
    pub open spec fn covered(&self) -> bool {
        self.horizontal_angles@.len() * self.vertical_angles@.len() <= self.candela@.len()
    }

    /// The four values around a direction; nothing where the table is empty.
    pub fn candela_corners(&self, vertical: Single, folded_horizontal: Single) -> (r: Option<
        (Bracket, Bracket, Corners),
    >)
        requires
            self.covered(),
        ensures
            r is None <==> self.vertical_angles@.len() == 0 || self.horizontal_angles@.len() == 0,
            r matches Some((v, h, c)) ==> bracket_holds(self.vertical_angles@, vertical, v)
                && bracket_holds(self.horizontal_angles@, folded_horizontal, h) && c == corners_at(
                self.candela@,
                self.horizontal_angles@.len() as int,
                self.vertical_angles@.len() as int,
                h.lower as int,
                v.lower as int,
            ),
    {
        if self.vertical_angles.len() == 0 || self.horizontal_angles.len() == 0 {
            return None;
        }
        let v: Bracket = bracket_angle(&self.vertical_angles, vertical);
        let h: Bracket = bracket_angle(&self.horizontal_angles, folded_horizontal);
        let c: Corners = read_corners(
            &self.candela,
            self.horizontal_angles.len(),
            self.vertical_angles.len(),
            h.lower,
            v.lower,
        );
        Some((v, h, c))
    }

}

/// Bakes a table of `horizontal_resolution` columns and `vertical_resolution`
/// rows, at least one of each, from the value of each column and row.
fn bake<F: Fn(usize, usize) -> Single>(
    horizontal_resolution: u32,
    vertical_resolution: u32,
    candela_of: F,
) -> (r: IesLookupTexture)
    requires
        at_least_one(horizontal_resolution) * at_least_one(vertical_resolution) <= usize::MAX,
        forall|x: usize, y: usize| #[trigger] candela_of.requires((x, y)),
    ensures
        r.width == at_least_one(horizontal_resolution),
        r.height == at_least_one(vertical_resolution),
        r.candela@.len() == r.width * r.height,
        forall|x: int, y: int|
            0 <= x < r.width && 0 <= y < r.height ==> candela_of.ensures(
                (x as usize, y as usize),
                #[trigger] r.candela@[y * r.width + x],
            ),
{
    let width: u32 = if horizontal_resolution < 1 {
        1
    } else {
        horizontal_resolution
    };
    let height: u32 = if vertical_resolution < 1 {
        1
    } else {
        vertical_resolution
    };
    let mut candela: Vec<Single> = Vec::new();
    let mut y: usize = 0;
    while y < height as usize
        invariant
            y <= height,
            0 < width,
            candela@.len() == y * width,
            forall|x: usize, y: usize| #[trigger] candela_of.requires((x, y)),
            forall|a: int, b: int|
                0 <= a < width && 0 <= b < y ==> candela_of.ensures(
                    (a as usize, b as usize),
                    #[trigger] candela@[b * width + a],
                ),
        decreases height - y,
    {
        let mut x: usize = 0;
        while x < width as usize
            invariant
                y < height,
                x <= width,
                0 < width,
                candela@.len() == y * width + x,
                forall|x: usize, y: usize| #[trigger] candela_of.requires((x, y)),
                forall|a: int, b: int|
                    0 <= a < width && 0 <= b < y ==> candela_of.ensures(
                        (a as usize, b as usize),
                        #[trigger] candela@[b * width + a],
                    ),
                forall|a: int|
                    0 <= a < x ==> candela_of.ensures(
                        (a as usize, y),
                        #[trigger] candela@[y * width + a],
                    ),
            decreases width - x,
        {
            let value: Single = candela_of(x, y);
            let ghost before = candela@;
            candela.push(value);
            proof {
                assert forall|a: int, b: int|
                    0 <= a < width && 0 <= b < y implies candela_of.ensures(
                    (a as usize, b as usize),
                    #[trigger] candela@[b * width + a],
                ) by {
                    index_in_table(y as int, width as int, b, a);
                    assert(candela@[b * width + a] == before[b * width + a]);
                }
                assert forall|a: int| 0 <= a < x + 1 implies candela_of.ensures(
                    (a as usize, y),
                    #[trigger] candela@[y * width + a],
                ) by {
                    assert(0 <= y * width) by (nonlinear_arith);
                    if a < x {
                        assert(candela@[y * width + a] == before[y * width + a]);
                    }
                }
            }
            x = x + 1;
        }
        proof {
            assert((y + 1) * width == y * width + width) by (nonlinear_arith);
            assert forall|a: int, b: int|
                0 <= a < width && 0 <= b < y + 1 implies candela_of.ensures(
                (a as usize, b as usize),
                #[trigger] candela@[b * width + a],
            ) by {
                if b == y {
                    assert(candela@[y * width + a] == candela@[b * width + a]);
                }
            }
        }
        y = y + 1;
    }
    proof {
        assert(height * width == width * height) by (nonlinear_arith);
    }
    IesLookupTexture { width, height, candela }
}

/// A resolution, 1 where it is 0.
pub open spec fn at_least_one(n: u32) -> u32 {
    if n < 1 {
        1
    } else {
        n
    }
}

/// Whether a bracket is the one of an angle: at an end, or between two samples of which
/// only the lower is at most the angle, or at the first sample where that cannot be
/// compared with the angle.
pub open spec fn bracket_holds(angles: Seq<Single>, a: Single, b: Bracket) -> bool {
    let n = angles.len();
    if n < 2 || a.at_most(angles[0]) {
        b == (Bracket { lower: 0, place: AnglePlace::Start })
    } else if angles[n - 1].at_most(a) {
        b == (Bracket { lower: (n - 2) as usize, place: AnglePlace::End })
    } else {
        &&& b.place == AnglePlace::Inside
        &&& b.lower + 1 < n
        &&& if angles[b.lower as int].at_most(a) {
            !angles[b.lower + 1].at_most(a)
        } else {
            b.lower == 0
        }
    }
}

// ---- folding an angle into the sampled range ---------------------------

/// 90 degrees.
pub const QUARTER_TURN: u32 = 0x42b4_0000;

/// 180 degrees.
pub const HALF_TURN: u32 = 0x4334_0000;

/// 360 degrees.
pub const FULL_TURN: u32 = 0x43b4_0000;

/// 0.001 degrees: how far a span may be from a quarter or a half turn.
pub const SPAN_TOLERANCE: u32 = 0x3a83_126f;

/// Arithmetic on angles and candela.
pub struct AngleArithmetic<M, P, W, R, B> {
    /// The difference of two numbers.
    pub minus: M,
    /// The sum of two numbers.
    pub plus: P,
    /// An angle moved by whole turns into `[0, 360)`.
    pub wrap: W,
    /// How far an angle lies on the way from a lower to an upper angle.
    pub ratio: R,
    /// The blend of four values.
    pub blend: B,
}

/// Four values, how far a direction lies across and along them, and the factor
/// on the result.
#[derive(Clone, Copy, Debug, PartialEq, Eq, Structural)]
pub struct Blend {
    pub corners: Corners,
    /// On the way from the first row to the second.
    pub across: Single,
    /// On the way from the first column to the second.
    pub along: Single,
    pub scale: Single,
}

/// Whether a span is the given one, up to the tolerance.
pub open spec fn spans<M: Fn(Single, Single) -> Single>(
    minus: M,
    span: Single,
    degrees: u32,
) -> bool {
    let apart = arithmetic::applied2(minus, span, Single { bits: degrees });
    (Single { bits: apart.magnitude() as u32 }).below(Single { bits: SPAN_TOLERANCE })
}

/// An angle above the axis, reflected: `axis2 - a` where `a` is above `axis`.
pub open spec fn reflected<M: Fn(Single, Single) -> Single>(
    minus: M,
    a: Single,
    axis: u32,
    axis2: u32,
) -> Single {
    if (Single { bits: axis }).below(a) {
        arithmetic::applied2(minus, Single { bits: axis2 }, a)
    } else {
        a
    }
}

/// A horizontal angle folded into the sampled range, by the symmetry that the
/// span of the samples stands for: a single sample is the whole turn, a quarter
/// turn is mirrored at 90 and 180 degrees, a half turn at 180 degrees, and a full turn
/// is wrapped. With any other span an angle past the samples goes to the first or the
/// last of them, whichever is nearer around the turn.
pub open spec fn folded<
    M: Fn(Single, Single) -> Single,
    P: Fn(Single, Single) -> Single,
    W: Fn(Single) -> Single,
>(minus: M, plus: P, wrap: W, angles: Seq<Single>, h: Single) -> Single {
    if angles.len() == 0 {
        h
    } else if angles.len() == 1 {
        angles[0]
    } else {
        let span = arithmetic::applied2(minus, angles.last(), angles[0]);
        let a = arithmetic::applied(wrap, arithmetic::applied2(minus, h, angles[0]));
        let b = if spans(minus, span, QUARTER_TURN) {
            reflected(minus, reflected(minus, a, HALF_TURN, FULL_TURN), QUARTER_TURN, HALF_TURN)
        } else if spans(minus, span, HALF_TURN) {
            reflected(minus, a, HALF_TURN, FULL_TURN)
        } else {
            a
        };
        if past_the_samples(minus, span, a) {
            if returns_sooner(minus, span, a) {
                angles[0]
            } else {
                angles.last()
            }
        } else {
            arithmetic::applied2(plus, b, angles[0])
        }
    }
}

/// Whether samples over a span stand for no symmetry, and an angle counted from the first
/// of them lies behind the last.
pub open spec fn past_the_samples<M: Fn(Single, Single) -> Single>(
    minus: M,
    span: Single,
    a: Single,
) -> bool {
    &&& !spans(minus, span, QUARTER_TURN)
    &&& !spans(minus, span, HALF_TURN)
    &&& !spans(minus, span, FULL_TURN)
    &&& span.below(a)
}

/// Whether it is less far from an angle on to the end of the turn than back to the last
/// sample.
pub open spec fn returns_sooner<M: Fn(Single, Single) -> Single>(
    minus: M,
    span: Single,
    a: Single,
) -> bool {
    arithmetic::applied2(minus, Single { bits: FULL_TURN }, a).below(
        arithmetic::applied2(minus, a, span),
    )
}

/// With a span that stands for no symmetry, an angle past the samples has the light of
/// the first or the last of them.
pub proof fn angles_past_the_samples_go_to_an_end<
    M: Fn(Single, Single) -> Single,
    P: Fn(Single, Single) -> Single,
    W: Fn(Single) -> Single,
>(minus: M, plus: P, wrap: W, angles: Seq<Single>, h: Single, b: Bracket)
    requires
        angles.len() >= 2,
        angles[0].below(angles.last()),
        past_the_samples(
            minus,
            arithmetic::applied2(minus, angles.last(), angles[0]),
            arithmetic::applied(wrap, arithmetic::applied2(minus, h, angles[0])),
        ),
        bracket_holds(angles, folded(minus, plus, wrap, angles, h), b),
    ensures
        b == if returns_sooner(
            minus,
            arithmetic::applied2(minus, angles.last(), angles[0]),
            arithmetic::applied(wrap, arithmetic::applied2(minus, h, angles[0])),
        ) {
            Bracket { lower: 0, place: AnglePlace::Start }
        } else {
            Bracket { lower: (angles.len() - 2) as usize, place: AnglePlace::End }
        },
{
}

/// Directions that wrap alike are folded alike: with it a table baked over a
/// whole turn ends as it begins, whatever the span of its source.
pub proof fn whole_turns_fold_away<
    M: Fn(Single, Single) -> Single,
    P: Fn(Single, Single) -> Single,
    W: Fn(Single) -> Single,
>(minus: M, plus: P, wrap: W, angles: Seq<Single>, g: Single, h: Single)
    requires
        angles.len() >= 1,
        arithmetic::applied(wrap, arithmetic::applied2(minus, g, angles[0]))
            == arithmetic::applied(wrap, arithmetic::applied2(minus, h, angles[0])),
    ensures
        folded(minus, plus, wrap, angles, g) == folded(minus, plus, wrap, angles, h),
{
}

fn reflect<M: Fn(Single, Single) -> Single>(
    minus: &M,
    a: Single,
    axis: u32,
    axis2: u32,
) -> (r: Single)
    requires
        arithmetic::steady2(*minus),
    ensures
        r == reflected(*minus, a, axis, axis2),
{
    if Single::from_bits(axis).lt(a) {
        minus(Single::from_bits(axis2), a)
    } else {
        a
    }
}

fn is_span<M: Fn(Single, Single) -> Single>(minus: &M, span: Single, degrees: u32) -> (r: bool)
    requires
        arithmetic::steady2(*minus),
    ensures
        r == spans(*minus, span, degrees),
{
    let apart: Single = minus(span, Single::from_bits(degrees));
    apart.abs().lt(Single::from_bits(SPAN_TOLERANCE))
}

/// Folds a horizontal angle into the sampled range.
pub fn fold_horizontal_for_symmetry<
    M: Fn(Single, Single) -> Single,
    P: Fn(Single, Single) -> Single,
    W: Fn(Single) -> Single,
>(minus: &M, plus: &P, wrap: &W, angles: &Vec<Single>, h: Single) -> (r: Single)
    requires
        arithmetic::steady2(*minus),
        arithmetic::steady2(*plus),
        arithmetic::steady(*wrap),
    ensures
        r == folded(*minus, *plus, *wrap, angles@, h),
{
    if angles.len() == 0 {
        return h;
    }
    let first: Single = angles[0];
    if angles.len() == 1 {
        return first;
    }
    let last: Single = angles[angles.len() - 1];
    let span: Single = minus(last, first);
    let offset: Single = minus(h, first);
    let a: Single = wrap(offset);
    let b: Single = if is_span(minus, span, QUARTER_TURN) {
        reflect(minus, reflect(minus, a, HALF_TURN, FULL_TURN), QUARTER_TURN, HALF_TURN)
    } else if is_span(minus, span, HALF_TURN) {
        reflect(minus, a, HALF_TURN, FULL_TURN)
    } else if !is_span(minus, span, FULL_TURN) && span.lt(a) {
        let onward: Single = minus(Single::from_bits(FULL_TURN), a);
        let back: Single = minus(a, span);
        return if onward.lt(back) {
            first
        } else {
            last
        };
    } else {
        a
    };
    plus(b, first)
}

// ---- candela toward a direction ----------------------------------------

/// How far an angle lies on the way from the sample at its bracket to the next:
/// 0 at the start, 1 at the end.
pub open spec fn way<R: Fn(Single, Single, Single) -> Single>(
    ratio: R,
    angles: Seq<Single>,
    a: Single,
    b: Bracket,
) -> Single {
    match b.place {
        AnglePlace::Start => Single { bits: 0 },
        AnglePlace::End => Single { bits: 0x3f80_0000 },
        AnglePlace::Inside => {
            arithmetic::applied3(ratio, a, angles[b.lower as int], angles[b.lower + 1])
        },
    }
}

fn way_along<R: Fn(Single, Single, Single) -> Single>(
    ratio: &R,
    angles: &Vec<Single>,
    a: Single,
    b: Bracket,
) -> (r: Single)
    requires
        arithmetic::steady3(*ratio),
        b.place == AnglePlace::Inside ==> b.lower + 1 < angles.len(),
    ensures
        r == way(*ratio, angles@, a, b),
{
    match b.place {
        AnglePlace::Start => Single::zero(),
        AnglePlace::End => Single::one(),
        AnglePlace::Inside => ratio(a, angles[b.lower], angles[b.lower + 1]),
    }
}

impl<
    M: Fn(Single, Single) -> Single,
    P: Fn(Single, Single) -> Single,
    W: Fn(Single) -> Single,
    R: Fn(Single, Single, Single) -> Single,
    B: Fn(Blend) -> Single,
> AngleArithmetic<M, P, W, R, B> {
    /// Each of its functions is steady.
    pub open spec fn wf(&self) -> bool {
        &&& arithmetic::steady2(self.minus)
        &&& arithmetic::steady2(self.plus)
        &&& arithmetic::steady(self.wrap)
        &&& arithmetic::steady3(self.ratio)
        &&& arithmetic::steady(self.blend)
    }

    /// The blend of the values around two brackets.
    pub open spec fn blended(
        &self,
        p: ies::IesProfileView,
        vertical: Single,
        turned: Single,
        v: Bracket,
        h: Bracket,
    ) -> Single {
        arithmetic::applied(
            self.blend,
            Blend {
                corners: corners_at(
                    p.candela,
                    p.horizontal_angles.len() as int,
                    p.vertical_angles.len() as int,
                    h.lower as int,
                    v.lower as int,
                ),
                across: way(self.ratio, p.horizontal_angles, turned, h),
                along: way(self.ratio, p.vertical_angles, vertical, v),
                scale: p.candela_multiplier,
            },
        )
    }

    /// Whether `r` is the candela of a profile toward a direction: 0 where the
    /// profile has no angles, else the blend of the four values around the
    /// direction, its horizontal angle folded.
    pub open spec fn candela_toward(
        &self,
        p: ies::IesProfileView,
        vertical: Single,
        horizontal: Single,
        r: Single,
    ) -> bool {
        if p.vertical_angles.len() == 0 || p.horizontal_angles.len() == 0 {
            r.bits == 0
        } else {
            let turned = folded(
                self.minus,
                self.plus,
                self.wrap,
                p.horizontal_angles,
                horizontal,
            );
            exists|v: Bracket, h: Bracket|
                bracket_holds(p.vertical_angles, vertical, v) && bracket_holds(
                    p.horizontal_angles,
                    turned,
                    h,
                ) && r == #[trigger] self.blended(p, vertical, turned, v, h)
        }
    }
}

/// The brackets of an angle agree where the samples rise: then the candela toward
/// a direction is one number.
pub proof fn rising_samples_have_one_bracket(angles: Seq<Single>, a: Single, b: Bracket, c: Bracket)
    requires
        bracket_holds(angles, a, b),
        bracket_holds(angles, a, c),
        forall|i: int, j: int|
            0 <= i < j < angles.len() ==> (#[trigger] angles[i]).below(#[trigger] angles[j]),
    ensures
        b == c,
{
    let n = angles.len();
    if n >= 2 && !a.at_most(angles[0]) && !angles[n - 1].at_most(a) {
        assert(angles[0].below(angles[n - 1]));
        if b.lower < c.lower {
            assert(b.lower + 1 <= c.lower);
            if b.lower + 1 < c.lower {
                assert(angles[b.lower + 1].below(angles[c.lower as int]));
            }
        } else if c.lower < b.lower {
            if c.lower + 1 < b.lower {
                assert(angles[c.lower + 1].below(angles[b.lower as int]));
            }
        }
    }
}

impl IesProfile {
    /// The candela toward a direction, angles in degrees: the vertical one from
    /// the luminaire's downward axis, the horizontal one around it. Vertical
    /// angles outside the samples go to the nearest end. Horizontal angles fold by the
    /// symmetry that the span of the samples stands for; where it stands for none, angles
    /// outside the samples go to the nearest sampled one.
    pub fn candela_at<
        M: Fn(Single, Single) -> Single,
        P: Fn(Single, Single) -> Single,
        W: Fn(Single) -> Single,
        R: Fn(Single, Single, Single) -> Single,
        B: Fn(Blend) -> Single,
    >(
        &self,
        vertical_deg: Single,
        horizontal_deg: Single,
        numbers: &AngleArithmetic<M, P, W, R, B>,
    ) -> (r: Single)
        requires
            self.covered(),
            numbers.wf(),
        ensures
            numbers.candela_toward(self@, vertical_deg, horizontal_deg, r),
    {
        let turned: Single = fold_horizontal_for_symmetry(
            &numbers.minus,
            &numbers.plus,
            &numbers.wrap,
            &self.horizontal_angles,
            horizontal_deg,
        );
        match self.candela_corners(vertical_deg, turned) {
            None => Single::zero(),
            Some((v, h, corners)) => {
                let along: Single = way_along(
                    &numbers.ratio,
                    &self.vertical_angles,
                    vertical_deg,
                    v,
                );
                let across: Single = way_along(&numbers.ratio, &self.horizontal_angles, turned, h);
                let blend = &numbers.blend;
                let r: Single = blend(
                    Blend { corners, across, along, scale: self.candela_multiplier },
                );
                proof {
                    assert(r == numbers.blended(self@, vertical_deg, turned, v, h));
                }
                r
            },
        }
    }

    /// Bakes a table of `horizontal_resolution` columns over a whole turn and
    /// `vertical_resolution` rows from straight down to straight up, at least one
    /// of each. `column_angle` and `row_angle` give the angle of a column or row
    /// out of how many there are.
    pub fn to_lookup_texture<
        M: Fn(Single, Single) -> Single,
        P: Fn(Single, Single) -> Single,
        W: Fn(Single) -> Single,
        R: Fn(Single, Single, Single) -> Single,
        B: Fn(Blend) -> Single,
        C: Fn(usize, u32) -> Single,
        D: Fn(usize, u32) -> Single,
    >(
        &self,
        horizontal_resolution: u32,
        vertical_resolution: u32,
        numbers: &AngleArithmetic<M, P, W, R, B>,
        column_angle: &C,
        row_angle: &D,
    ) -> (r: IesLookupTexture)
        requires
            self.covered(),
            numbers.wf(),
            arithmetic::steady2(*column_angle),
            arithmetic::steady2(*row_angle),
            at_least_one(horizontal_resolution) * at_least_one(vertical_resolution) <= usize::MAX,
        ensures
            r.width == at_least_one(horizontal_resolution),
            r.height == at_least_one(vertical_resolution),
            r.candela@.len() == r.width * r.height,
            forall|x: int, y: int|
                0 <= x < r.width && 0 <= y < r.height ==> numbers.candela_toward(
                    self@,
                    arithmetic::applied2(*row_angle, y as usize, r.height),
                    arithmetic::applied2(*column_angle, x as usize, r.width),
                    #[trigger] r.candela@[y * r.width + x],
                ),
    {
        let width: u32 = if horizontal_resolution < 1 {
            1
        } else {
            horizontal_resolution
        };
        let height: u32 = if vertical_resolution < 1 {
            1
        } else {
            vertical_resolution
        };
        let candela_of = |x: usize, y: usize| -> (c: Single)
            ensures
                numbers.candela_toward(
                    self@,
                    arithmetic::applied2(*row_angle, y, height),
                    arithmetic::applied2(*column_angle, x, width),
                    c,
                ),
            {
                let vertical: Single = row_angle(y, height);
                let horizontal: Single = column_angle(x, width);
                self.candela_at(vertical, horizontal, numbers)
            };
        let r: IesLookupTexture = bake(horizontal_resolution, vertical_resolution, candela_of);
        proof {
            assert forall|x: int, y: int|
                0 <= x < r.width && 0 <= y < r.height implies numbers.candela_toward(
                self@,
                arithmetic::applied2(*row_angle, y as usize, r.height),
                arithmetic::applied2(*column_angle, x as usize, r.width),
                #[trigger] r.candela@[y * r.width + x],
            ) by {
                assert(candela_of.ensures(
                    (x as usize, y as usize),
                    r.candela@[y * r.width + x],
                ));
            }
        }
        r
    }

    /// The largest candela of the profile.
    pub fn peak_candela<T: Fn(Single, Single) -> Single>(&self, times: T) -> (r: Single)
        requires
            arithmetic::steady2(times),
        ensures
            r == arithmetic::applied2(times, ies::peak(self.candela@), self.candela_multiplier),
            r == scaled_peak(times, self.candela@, self.candela_multiplier),
    {
        times(self.peak_raw(), self.candela_multiplier)
    }

    /// The flux that the file declares, in lumens: that of a lamp times the
    /// number of lamps, at least one. Nothing where the flux of a lamp is not
    /// above 0, as in absolute photometry.
    pub fn declared_lumens<T: Fn(Single, u32) -> Single>(&self, times: T) -> (r: Option<Single>)
        requires
            arithmetic::steady2(times),
        ensures
            r == if (Single { bits: 0 }).below(self.lumens_per_lamp) {
                Some(
                    arithmetic::applied2(
                        times,
                        self.lumens_per_lamp,
                        at_least_one(self.lamp_count),
                    ),
                )
            } else {
                None
            },
            r == declared_by(times, self.lumens_per_lamp, self.lamp_count),
    {
        if Single::zero().lt(self.lumens_per_lamp) {
            let lamps: u32 = if self.lamp_count < 1 {
                1
            } else {
                self.lamp_count
            };
            Some(times(self.lumens_per_lamp, lamps))
        } else {
            None
        }
    }

    /// A profile that gives `peak_cd` in every direction. `sphere` turns the
    /// candela into the flux over the whole sphere.
    pub fn test_isotropic<S: Fn(Single) -> Single>(peak_cd: Single, sphere: S) -> (r: IesProfile)
        requires
            arithmetic::steady(sphere),
        ensures
            r.source@ == "synthetic isotropic"@,
            r.lamp_count == 1,
            r.lumens_per_lamp == arithmetic::applied(sphere, peak_cd),
            r.candela_multiplier.bits == 0x3f80_0000,
            r.vertical_angles@ == tens_of_degrees(),
            r.horizontal_angles@ == seq![Single { bits: 0 }],
            r.candela@ == Seq::new(19, |i: int| peak_cd),
            r.photometric_type == IesPhotometricType::C,
            r.covered(),
    {
        let bits: Vec<u32> = vec![
            0,
            0x4120_0000,
            0x41a0_0000,
            0x41f0_0000,
            0x4220_0000,
            0x4248_0000,
            0x4270_0000,
            0x428c_0000,
            0x42a0_0000,
            0x42b4_0000,
            0x42c8_0000,
            0x42dc_0000,
            0x42f0_0000,
            0x4302_0000,
            0x430c_0000,
            0x4316_0000,
            0x4320_0000,
            0x432a_0000,
            0x4334_0000,
        ];
        let mut vertical_angles: Vec<Single> = Vec::new();
        let mut candela: Vec<Single> = Vec::new();
        let mut horizontal_angles: Vec<Single> = Vec::new();
        horizontal_angles.push(Single::zero());
        let mut i: usize = 0;
        while i < 19
            invariant
                i <= 19,
                bits@.len() == 19,
                forall|k: int|
                    0 <= k < 19 ==> #[trigger] bits@[k] == tens_of_degrees()[k].bits,
                vertical_angles@ == tens_of_degrees().take(i as int),
                candela@ == Seq::new(i as nat, |k: int| peak_cd),
            decreases 19 - i,
        {
            vertical_angles.push(Single::from_bits(bits[i]));
            candela.push(peak_cd);
            i = i + 1;
        }
        proof {
            assert(tens_of_degrees().take(19) =~= tens_of_degrees());
        }
        let lumens_per_lamp: Single = sphere(peak_cd);
        IesProfile {
            source: "synthetic isotropic".to_string(),
            lamp_count: 1,
            lumens_per_lamp,
            candela_multiplier: Single::one(),
            vertical_angles,
            horizontal_angles,
            candela,
            photometric_type: IesPhotometricType::C,
        }
    }
}

/// 0, 10, 20 and so on up to 180.
pub open spec fn tens_of_degrees() -> Seq<Single> {
    seq![
        Single { bits: 0 },
        Single { bits: 0x4120_0000 },  // 10
        Single { bits: 0x41a0_0000 },  // 20
        Single { bits: 0x41f0_0000 },  // 30
        Single { bits: 0x4220_0000 },  // 40
        Single { bits: 0x4248_0000 },  // 50
        Single { bits: 0x4270_0000 },  // 60
        Single { bits: 0x428c_0000 },  // 70
        Single { bits: 0x42a0_0000 },  // 80
        Single { bits: 0x42b4_0000 },  // 90
        Single { bits: 0x42c8_0000 },  // 100
        Single { bits: 0x42dc_0000 },  // 110
        Single { bits: 0x42f0_0000 },  // 120
        Single { bits: 0x4302_0000 },  // 130
        Single { bits: 0x430c_0000 },  // 140
        Single { bits: 0x4316_0000 },  // 150
        Single { bits: 0x4320_0000 },  // 160
        Single { bits: 0x432a_0000 },  // 170
        Single { bits: 0x4334_0000 },  // 180
    ]
}

// ---- the flux of the whole table ---------------------------------------

/// A ring between two vertical angles, and the candela at them.
#[derive(Clone, Copy, Debug, PartialEq, Eq, Structural)]
pub struct Ring {
    pub from: Single,
    pub to: Single,
    pub candela_from: Single,
    pub candela_to: Single,
}

/// A cell between two vertical and two horizontal angles, and the candela at its
/// corners.
#[derive(Clone, Copy, Debug, PartialEq, Eq, Structural)]
pub struct Cell {
    pub from: Single,
    pub to: Single,
    pub turn_from: Single,
    pub turn_to: Single,
    pub corners: Corners,
}

/// How a flux is summed.
pub struct FluxArithmetic<Z, A, C, M, S, F> {
    /// No flux.
    pub none: Z,
    /// Adds a ring that goes all the way round.
    pub add_ring: A,
    /// Adds a cell.
    pub add_cell: C,
    /// The difference of two angles.
    pub minus: M,
    /// The flux over a span as that over a whole turn.
    pub spread: S,
    /// The flux times the profile's factor, as a number.
    pub total: F,
}

/// The ring above the `i`th vertical angle.
pub open spec fn ring_at(p: ies::IesProfileView, i: int) -> Ring {
    Ring {
        from: p.vertical_angles[i],
        to: p.vertical_angles[i + 1],
        candela_from: p.candela[i],
        candela_to: p.candela[i + 1],
    }
}

/// The cell above the `i`th vertical and beside the `j`th horizontal angle.
pub open spec fn cell_at(p: ies::IesProfileView, i: int, j: int) -> Cell {
    Cell {
        from: p.vertical_angles[i],
        to: p.vertical_angles[i + 1],
        turn_from: p.horizontal_angles[j],
        turn_to: p.horizontal_angles[j + 1],
        corners: corners_at(
            p.candela,
            p.horizontal_angles.len() as int,
            p.vertical_angles.len() as int,
            j,
            i,
        ),
    }
}

impl<
    T,
    Z: Fn() -> T,
    A: Fn(T, Ring) -> T,
    C: Fn(T, Cell) -> T,
    M: Fn(Single, Single) -> Single,
    S: Fn(T, Single) -> T,
    F: Fn(T, Single) -> Single,
> FluxArithmetic<Z, A, C, M, S, F> {
    /// Each of its functions is steady.
    pub open spec fn wf(&self) -> bool {
        &&& self.none.requires(())
        &&& forall|r: T, s: T| #[trigger]
            self.none.ensures((), r) && #[trigger] self.none.ensures((), s) ==> r == s
        &&& arithmetic::steady2(self.add_ring)
        &&& arithmetic::steady2(self.add_cell)
        &&& arithmetic::steady2(self.minus)
        &&& arithmetic::steady2(self.spread)
        &&& arithmetic::steady2(self.total)
    }

    /// The sum of nothing.
    pub open spec fn nothing(&self) -> T {
        choose|r: T| self.none.ensures((), r)
    }

    /// The sum of the first `n` rings.
    pub open spec fn rings(&self, p: ies::IesProfileView, n: int) -> T
        decreases n,
    {
        if n <= 0 {
            self.nothing()
        } else {
            arithmetic::applied2(self.add_ring, self.rings(p, n - 1), ring_at(p, n - 1))
        }
    }

    /// A sum and the first `n` cells above the `i`th vertical angle.
    pub open spec fn row(&self, p: ies::IesProfileView, sum: T, i: int, n: int) -> T
        decreases n,
    {
        if n <= 0 {
            sum
        } else {
            arithmetic::applied2(self.add_cell, self.row(p, sum, i, n - 1), cell_at(p, i, n - 1))
        }
    }

    /// The sum of the cells of the first `n` rows.
    pub open spec fn cells(&self, p: ies::IesProfileView, n: int) -> T
        decreases n,
    {
        if n <= 0 {
            self.nothing()
        } else {
            self.row(p, self.cells(p, n - 1), n - 1, p.horizontal_angles.len() - 1)
        }
    }

    /// The flux of a profile: 0 where it has fewer than two vertical angles or no
    /// horizontal one. A single horizontal angle is revolved; several are summed
    /// cell by cell and, where they span anything, spread over the whole turn.
    pub open spec fn flux(&self, p: ies::IesProfileView) -> Single {
        if p.vertical_angles.len() < 2 || p.horizontal_angles.len() == 0 {
            Single { bits: 0 }
        } else if p.horizontal_angles.len() == 1 {
            arithmetic::applied2(
                self.total,
                self.rings(p, p.vertical_angles.len() - 1),
                p.candela_multiplier,
            )
        } else {
            let sum = self.cells(p, p.vertical_angles.len() - 1);
            let span = arithmetic::applied2(
                self.minus,
                p.horizontal_angles.last(),
                p.horizontal_angles[0],
            );
            let spread = if (Single { bits: 0 }).below(span) {
                arithmetic::applied2(self.spread, sum, span)
            } else {
                sum
            };
            arithmetic::applied2(self.total, spread, p.candela_multiplier)
        }
    }

    fn sum_rings(&self, p: &IesProfile) -> (r: T)
        requires
            self.wf(),
            p.covered(),
            p.vertical_angles@.len() >= 2,
            p.horizontal_angles@.len() == 1,
        ensures
            r == self.rings(p@, p.vertical_angles@.len() - 1),
    {
        let none = &self.none;
        let add_ring = &self.add_ring;
        let mut sum: T = none();
        let mut i: usize = 0;
        let last: usize = p.vertical_angles.len() - 1;
        while i < last
            invariant
                i <= last,
                last + 1 == p.vertical_angles@.len(),
                p.covered(),
                p.horizontal_angles@.len() == 1,
                arithmetic::steady2(self.add_ring),
                *add_ring == self.add_ring,
                sum == self.rings(p@, i as int),
            decreases last - i,
        {
            proof {
                assert(p.horizontal_angles@.len() * p.vertical_angles@.len()
                    == p.vertical_angles@.len()) by (nonlinear_arith)
                    requires
                        p.horizontal_angles@.len() == 1,
                ;
            }
            sum = add_ring(
                sum,
                Ring {
                    from: p.vertical_angles[i],
                    to: p.vertical_angles[i + 1],
                    candela_from: p.candela[i],
                    candela_to: p.candela[i + 1],
                },
            );
            i = i + 1;
        }
        sum
    }

    fn sum_row(&self, p: &IesProfile, start: T, i: usize) -> (r: T)
        requires
            self.wf(),
            p.covered(),
            i + 1 < p.vertical_angles@.len(),
            p.horizontal_angles@.len() >= 1,
        ensures
            r == self.row(p@, start, i as int, p.horizontal_angles@.len() - 1),
    {
        let add_cell = &self.add_cell;
        let ghost from = start;
        let mut sum: T = start;
        let mut j: usize = 0;
        let last: usize = p.horizontal_angles.len() - 1;
        while j < last
            invariant
                j <= last,
                last + 1 == p.horizontal_angles@.len(),
                i + 1 < p.vertical_angles@.len(),
                p.covered(),
                arithmetic::steady2(self.add_cell),
                *add_cell == self.add_cell,
                sum == self.row(p@, from, i as int, j as int),
            decreases last - j,
        {
            let corners: Corners = read_corners(
                &p.candela,
                p.horizontal_angles.len(),
                p.vertical_angles.len(),
                j,
                i,
            );
            sum = add_cell(
                sum,
                Cell {
                    from: p.vertical_angles[i],
                    to: p.vertical_angles[i + 1],
                    turn_from: p.horizontal_angles[j],
                    turn_to: p.horizontal_angles[j + 1],
                    corners,
                },
            );
            j = j + 1;
        }
        sum
    }
}

impl IesProfile {
    /// The flux of the profile in lumens, summed over its samples.
    pub fn integrate_lumens<
        T,
        Z: Fn() -> T,
        A: Fn(T, Ring) -> T,
        C: Fn(T, Cell) -> T,
        M: Fn(Single, Single) -> Single,
        S: Fn(T, Single) -> T,
        F: Fn(T, Single) -> Single,
    >(&self, numbers: &FluxArithmetic<Z, A, C, M, S, F>) -> (r: Single)
        requires
            self.covered(),
            numbers.wf(),
        ensures
            r == numbers.flux(self@),
    {
        let total = &numbers.total;
        if self.vertical_angles.len() < 2 || self.horizontal_angles.len() == 0 {
            return Single::zero();
        }
        if self.horizontal_angles.len() == 1 {
            return total(numbers.sum_rings(self), self.candela_multiplier);
        }
        let none = &numbers.none;
        let mut sum: T = none();
        let mut i: usize = 0;
        let last: usize = self.vertical_angles.len() - 1;
        while i < last
            invariant
                i <= last,
                last + 1 == self.vertical_angles@.len(),
                self.horizontal_angles@.len() >= 2,
                self.covered(),
                numbers.wf(),
                sum == numbers.cells(self@, i as int),
            decreases last - i,
        {
            sum = numbers.sum_row(self, sum, i);
            i = i + 1;
        }
        let minus = &numbers.minus;
        let spread = &numbers.spread;
        let span: Single = minus(
            self.horizontal_angles[self.horizontal_angles.len() - 1],
            self.horizontal_angles[0],
        );
        if Single::zero().lt(span) {
            sum = spread(sum, span);
        }
        total(sum, self.candela_multiplier)
    }
}

/// A baked table, ready for sampling.
#[derive(Debug, PartialEq)]
pub struct IesLookupTexture {
    /// Columns: steps of the horizontal angle over 0..=360 degrees.
    pub width: u32,
    /// Rows: steps of the vertical angle over 0..=180 degrees.
    pub height: u32,
    /// Values by row: `candela[y * width + x]`.
    pub candela: Vec<Single>,
}

impl IesLookupTexture {
    /// The four texels around column `x` and row `y`; a column past the last is
    /// the last. Nothing where the buffer is smaller than the table.
    pub fn texels(&self, x: usize, y: usize) -> (r: Option<Corners>)
        requires
            y < at_least_one(self.height),
        ensures
            self.candela@.len() < at_least_one(self.width) * at_least_one(self.height) ==> r
                is None,
            self.candela@.len() >= at_least_one(self.width) * at_least_one(self.height) ==> r
                == Some(
                corners_at(
                    self.candela@,
                    at_least_one(self.height) as int,
                    at_least_one(self.width) as int,
                    y as int,
                    if x < at_least_one(self.width) {
                        x as int
                    } else {
                        at_least_one(self.width) - 1
                    },
                ),
            ),
            r == self.around_texel(x as int, y as int),
    {
        let w: usize = if self.width < 1 {
            1
        } else {
            self.width as usize
        };
        let h: usize = if self.height < 1 {
            1
        } else {
            self.height as usize
        };
        proof {
            assert(w * h == h * w) by (nonlinear_arith);
        }
        match h.checked_mul(w) {
            None => None,
            Some(size) => {
                if self.candela.len() < size {
                    return None;
                }
                let column: usize = if x < w {
                    x
                } else {
                    w - 1
                };
                Some(read_corners(&self.candela, h, w, y, column))
            },
        }
    }

    /// What the table holds toward a direction: 0 where the buffer is smaller
    /// than the table, else the blend of the four texels around it. `row_of` and
    /// `column_of` place an angle among how many rows or columns there are;
    /// vertical angles are first held to 0 and 180 degrees.
    pub fn sample<
        V: Fn(Single, u32) -> Single,
        H: Fn(Single, u32) -> Single,
        O: Fn(Single, u32) -> Single,
        B: Fn(Corners, Single, Single) -> Single,
    >(
        &self,
        vertical_deg: Single,
        horizontal_deg: Single,
        row_of: V,
        column_of: H,
        offset: O,
        blend: B,
    ) -> (r: Single)
        requires
            arithmetic::steady2(row_of),
            arithmetic::steady2(column_of),
            arithmetic::steady2(offset),
            arithmetic::steady3(blend),
        ensures
            r == if self.candela@.len() < at_least_one(self.width) * at_least_one(self.height) {
                Single { bits: 0 }
            } else {
                let row = arithmetic::applied2(
                    row_of,
                    vertical_deg.clamped(Single { bits: 0 }, Single { bits: HALF_TURN }),
                    at_least_one(self.height),
                );
                let column = if at_least_one(self.width) > 1 {
                    arithmetic::applied2(column_of, horizontal_deg, at_least_one(self.width))
                } else {
                    Single { bits: 0 }
                };
                let y = texel(row, at_least_one(self.height));
                let x = texel(column, at_least_one(self.width));
                arithmetic::applied3(
                    blend,
                    corners_at(
                        self.candela@,
                        at_least_one(self.height) as int,
                        at_least_one(self.width) as int,
                        y as int,
                        x as int,
                    ),
                    arithmetic::applied2(offset, row, y),
                    arithmetic::applied2(offset, column, x),
                )
            },
            r == self.looked_up(vertical_deg, horizontal_deg, row_of, column_of, offset, blend),
    {
        let w: u32 = if self.width < 1 {
            1
        } else {
            self.width
        };
        let h: u32 = if self.height < 1 {
            1
        } else {
            self.height
        };
        let held: Single = vertical_deg.clamp(Single::zero(), Single::from_bits(HALF_TURN));
        let row: Single = row_of(held, h);
        let column: Single = if w > 1 {
            column_of(horizontal_deg, w)
        } else {
            Single::zero()
        };
        let y: u32 = texel_at(row, h);
        let x: u32 = texel_at(column, w);
        match self.texels(x as usize, y as usize) {
            None => Single::zero(),
            Some(corners) => blend(corners, offset(row, y), offset(column, x)),
        }
    }
}

/// The texel that a place falls on, held to the last.
pub open spec fn texel(place: Single, n: u32) -> u32 {
    if place.integer_part() < n {
        place.integer_part() as u32
    } else {
        (n - 1) as u32
    }
}

fn texel_at(place: Single, n: u32) -> (r: u32)
    requires
        n >= 1,
    ensures
        r == texel(place, n),
        r < n,
{
    let whole: u32 = place.to_u32();
    if whole < n {
        whole
    } else {
        n - 1
    }
}

// ---- what a profile gives, seen through its samples --------------------

/// Whether angles rise from sample to sample.
pub open spec fn rising(angles: Seq<Single>) -> bool {
    forall|i: int, j: int|
        0 <= i < j < angles.len() ==> (#[trigger] angles[i]).below(#[trigger] angles[j])
}

/// Among rising samples an angle lies in its bracket: before all, past all, or at least
/// the lower and less than the upper of two neighbours.
pub proof fn angles_lie_in_their_bracket(angles: Seq<Single>, a: Single, b: Bracket)
    requires
        rising(angles),
        2 <= angles.len() <= usize::MAX,
        !a.nan(),
        bracket_holds(angles, a, b),
    ensures
        b.lower + 1 < angles.len(),
        match b.place {
            AnglePlace::Start => b.lower == 0 && a.at_most(angles[0]),
            AnglePlace::End => b.lower + 2 == angles.len() && angles.last().at_most(a),
            AnglePlace::Inside => angles[b.lower as int].at_most(a) && a.below(
                angles[b.lower + 1],
            ),
        },
{
    assert(angles[0].below(angles[1]));
    if b.lower + 1 < angles.len() - 1 {
        assert(angles[b.lower + 1].below(angles[angles.len() - 1]));
    }
    if b.lower + 1 < angles.len() {
        assert(angles[b.lower as int].below(angles[b.lower + 1]));
    }
}

proof fn bracket_of_a_sample(angles: Seq<Single>, k: int, b: Bracket)
    requires
        rising(angles),
        0 <= k < angles.len(),
        !angles[k].nan(),
        angles.len() <= usize::MAX,
        bracket_holds(angles, angles[k], b),
    ensures
        angles.len() == 1 || k == 0 ==> b == (Bracket { lower: 0, place: AnglePlace::Start }),
        0 < k && k + 1 == angles.len() ==> b == (Bracket {
            lower: (k - 1) as usize,
            place: AnglePlace::End,
        }),
        0 < k && k + 1 < angles.len() ==> b == (Bracket {
            lower: k as usize,
            place: AnglePlace::Inside,
        }),
{
    if 0 < k {
        assert(angles[0].below(angles[k]));
        if k + 1 < angles.len() {
            assert(angles[k].below(angles[angles.len() - 1]));
            assert(angles[k].below(angles[k + 1]));
            let c = Bracket { lower: k as usize, place: AnglePlace::Inside };
            assert(bracket_holds(angles, angles[k], c));
            rising_samples_have_one_bracket(angles, angles[k], b, c);
        }
    }
}

/// Whether a blend of values of a table, at ratios that are 0 or 1, is the value that
/// they point to times the factor.
pub open spec fn keeps_corners<B: Fn(Blend) -> Single, T: Fn(Single, Single) -> Single>(
    blend: B,
    times: T,
    table: Seq<Single>,
    scale: Single,
) -> bool {
    let zero = Single { bits: 0 };
    let one = Single { bits: 0x3f80_0000 };
    forall|a: int, b: int, c: int, d: int|
        0 <= a < table.len() && 0 <= b < table.len() && 0 <= c < table.len() && 0 <= d
            < table.len() ==> {
            let corners = #[trigger] corners_of(table, a, b, c, d);
            &&& arithmetic::applied(blend, Blend { corners, across: zero, along: zero, scale })
                == arithmetic::applied2(times, table[a], scale)
            &&& arithmetic::applied(blend, Blend { corners, across: zero, along: one, scale })
                == arithmetic::applied2(times, table[b], scale)
            &&& arithmetic::applied(blend, Blend { corners, across: one, along: zero, scale })
                == arithmetic::applied2(times, table[c], scale)
            &&& arithmetic::applied(blend, Blend { corners, across: one, along: one, scale })
                == arithmetic::applied2(times, table[d], scale)
        }
}

/// Four values of a table.
pub open spec fn corners_of(table: Seq<Single>, a: int, b: int, c: int, d: int) -> Corners {
    Corners { c00: table[a], c01: table[b], c10: table[c], c11: table[d] }
}

impl<
    M: Fn(Single, Single) -> Single,
    P: Fn(Single, Single) -> Single,
    W: Fn(Single) -> Single,
    R: Fn(Single, Single, Single) -> Single,
    B: Fn(Blend) -> Single,
> AngleArithmetic<M, P, W, R, B> {
    /// Whether an angle is no way at all from a sample to itself.
    pub open spec fn starts_at(&self, angles: Seq<Single>, k: int) -> bool {
        0 < k && k + 1 < angles.len() ==> arithmetic::applied3(
            self.ratio,
            angles[k],
            angles[k],
            angles[k + 1],
        ).bits == 0
    }

    /// Toward a pair of sampled angles a profile gives the value that its table has for the
    /// pair, times the profile's factor: horizontal angles by row, vertical by column.
    pub proof fn sampled_directions_have_their_value<T: Fn(Single, Single) -> Single>(
        &self,
        times: T,
        p: ies::IesProfileView,
        i: int,
        j: int,
        horizontal: Single,
        r: Single,
    )
        requires
            0 <= i < p.horizontal_angles.len() <= usize::MAX,
            0 <= j < p.vertical_angles.len() <= usize::MAX,
            rising(p.horizontal_angles),
            rising(p.vertical_angles),
            !p.horizontal_angles[i].nan(),
            !p.vertical_angles[j].nan(),
            p.horizontal_angles.len() * p.vertical_angles.len() <= p.candela.len(),
            folded(self.minus, self.plus, self.wrap, p.horizontal_angles, horizontal)
                == p.horizontal_angles[i],
            self.starts_at(p.horizontal_angles, i),
            self.starts_at(p.vertical_angles, j),
            keeps_corners(self.blend, times, p.candela, p.candela_multiplier),
            self.candela_toward(p, p.vertical_angles[j], horizontal, r),
        ensures
            r == arithmetic::applied2(
                times,
                p.candela[i * p.vertical_angles.len() + j],
                p.candela_multiplier,
            ),
    {
        let rows = p.horizontal_angles.len() as int;
        let columns = p.vertical_angles.len() as int;
        let turned = p.horizontal_angles[i];
        let vertical = p.vertical_angles[j];
        let (v, h) = choose|v: Bracket, h: Bracket|
            bracket_holds(p.vertical_angles, vertical, v) && bracket_holds(
                p.horizontal_angles,
                turned,
                h,
            ) && r == #[trigger] self.blended(p, vertical, turned, v, h);
        bracket_of_a_sample(p.vertical_angles, j, v);
        bracket_of_a_sample(p.horizontal_angles, i, h);
        let row = h.lower as int;
        let column = v.lower as int;
        let row1 = next_within(row, rows);
        let column1 = next_within(column, columns);
        index_in_table(rows, columns, row, column);
        index_in_table(rows, columns, row, column1);
        index_in_table(rows, columns, row1, column);
        index_in_table(rows, columns, row1, column1);
        let corners = corners_of(
            p.candela,
            row * columns + column,
            row * columns + column1,
            row1 * columns + column,
            row1 * columns + column1,
        );
        assert(corners == corners_at(p.candela, rows, columns, row, column));
        let across = way(self.ratio, p.horizontal_angles, turned, h);
        let along = way(self.ratio, p.vertical_angles, vertical, v);
        assert(r == arithmetic::applied(
            self.blend,
            Blend { corners, across, along, scale: p.candela_multiplier },
        ));
        assert(across == if h.place == AnglePlace::End {
            Single { bits: 0x3f80_0000 }
        } else {
            Single { bits: 0 }
        });
        assert(along == if v.place == AnglePlace::End {
            Single { bits: 0x3f80_0000 }
        } else {
            Single { bits: 0 }
        });
    }

    /// The peak of a profile is the greatest candela of its sampled directions: none gives
    /// more, and where any value is above 0 one of them gives it.
    pub proof fn the_peak_is_the_greatest_sampled_candela<T: Fn(Single, Single) -> Single>(
        &self,
        times: T,
        p: ies::IesProfileView,
    )
        requires
            p.candela.len() == p.horizontal_angles.len() * p.vertical_angles.len(),
            forall|k: int| 0 <= k < p.candela.len() ==> !(#[trigger] p.candela[k]).nan(),
            forall|k: int|
                0 <= k < p.candela.len() && (#[trigger] p.candela[k]).at_most(ies::peak(p.candela))
                    ==> arithmetic::applied2(times, p.candela[k], p.candela_multiplier).at_most(
                    arithmetic::applied2(times, ies::peak(p.candela), p.candela_multiplier),
                ),
            exists|k: int| 0 <= k < p.candela.len() && (Single { bits: 0 }).below(
                #[trigger] p.candela[k],
            ),
        ensures
            forall|i: int, j: int|
                0 <= i < p.horizontal_angles.len() && 0 <= j < p.vertical_angles.len()
                    ==> arithmetic::applied2(
                    times,
                    #[trigger] p.candela[i * p.vertical_angles.len() + j],
                    p.candela_multiplier,
                ).at_most(arithmetic::applied2(times, ies::peak(p.candela), p.candela_multiplier)),
            exists|i: int, j: int|
                0 <= i < p.horizontal_angles.len() && 0 <= j < p.vertical_angles.len()
                    && #[trigger] p.candela[i * p.vertical_angles.len() + j] == ies::peak(
                    p.candela,
                ),
    {
        ies::the_peak_is_the_greatest_value(p.candela);
        let rows = p.horizontal_angles.len() as int;
        let columns = p.vertical_angles.len() as int;
        assert forall|i: int, j: int| 0 <= i < rows && 0 <= j < columns implies
            arithmetic::applied2(
            times,
            #[trigger] p.candela[i * columns + j],
            p.candela_multiplier,
        ).at_most(arithmetic::applied2(times, ies::peak(p.candela), p.candela_multiplier)) by {
            index_in_table(rows, columns, i, j);
        }
        let k = choose|k: int| 0 <= k < p.candela.len() && p.candela[k] == ies::peak(p.candela);
        if columns == 0 {
            assert(rows * columns == 0) by (nonlinear_arith)
                requires
                    columns == 0,
            ;
        }
        vstd::arithmetic::div_mod::lemma_fundamental_div_mod(k, columns);
        let i = k / columns;
        let j = k % columns;
        assert(0 <= i < rows) by (nonlinear_arith)
            requires
                0 <= k < rows * columns,
                k == columns * i + j,
                0 <= j < columns,
        ;
        assert(columns * i == i * columns) by (nonlinear_arith);
        assert(p.candela[i * columns + j] == ies::peak(p.candela));
    }
}

/// Samples over a half turn are mirrored at its end: an angle behind it folds as the angle
/// as far before it. One sample stands for all angles.
pub proof fn half_turns_are_mirrored<
    M: Fn(Single, Single) -> Single,
    P: Fn(Single, Single) -> Single,
    W: Fn(Single) -> Single,
>(minus: M, plus: P, wrap: W, angles: Seq<Single>, g: Single, h: Single)
    requires
        angles.len() >= 1,
        angles.len() > 1 ==> {
            let span = arithmetic::applied2(minus, angles.last(), angles[0]);
            let a = arithmetic::applied(wrap, arithmetic::applied2(minus, g, angles[0]));
            let b = arithmetic::applied(wrap, arithmetic::applied2(minus, h, angles[0]));
            &&& spans(minus, span, HALF_TURN) || spans(minus, span, QUARTER_TURN)
            &&& !(Single { bits: HALF_TURN }).below(a)
            &&& (Single { bits: HALF_TURN }).below(b)
            &&& arithmetic::applied2(minus, Single { bits: FULL_TURN }, b) == a
        },
    ensures
        folded(minus, plus, wrap, angles, g) == folded(minus, plus, wrap, angles, h),
{
}

/// Samples over a quarter turn are mirrored at its end too.
pub proof fn quarter_turns_are_mirrored<
    M: Fn(Single, Single) -> Single,
    P: Fn(Single, Single) -> Single,
    W: Fn(Single) -> Single,
>(minus: M, plus: P, wrap: W, angles: Seq<Single>, g: Single, h: Single)
    requires
        angles.len() > 1,
        ({
            let span = arithmetic::applied2(minus, angles.last(), angles[0]);
            let a = arithmetic::applied(wrap, arithmetic::applied2(minus, g, angles[0]));
            let b = arithmetic::applied(wrap, arithmetic::applied2(minus, h, angles[0]));
            &&& spans(minus, span, QUARTER_TURN)
            &&& !(Single { bits: QUARTER_TURN }).below(a)
            &&& (Single { bits: QUARTER_TURN }).below(b)
            &&& b.at_most(Single { bits: HALF_TURN })
            &&& arithmetic::applied2(minus, Single { bits: HALF_TURN }, b) == a
        }),
    ensures
        folded(minus, plus, wrap, angles, g) == folded(minus, plus, wrap, angles, h),
{
}

/// An angle among the samples stays what it is: as far past the first sample as it was.
pub proof fn sampled_angles_stay<
    M: Fn(Single, Single) -> Single,
    P: Fn(Single, Single) -> Single,
    W: Fn(Single) -> Single,
>(minus: M, plus: P, wrap: W, angles: Seq<Single>, h: Single)
    requires
        angles.len() > 1,
        ({
            let span = arithmetic::applied2(minus, angles.last(), angles[0]);
            let a = arithmetic::applied(wrap, arithmetic::applied2(minus, h, angles[0]));
            &&& !span.below(a)
            &&& spans(minus, span, HALF_TURN) ==> a.at_most(Single { bits: HALF_TURN })
            &&& spans(minus, span, QUARTER_TURN) ==> a.at_most(Single { bits: QUARTER_TURN })
        }),
    ensures
        folded(minus, plus, wrap, angles, h) == arithmetic::applied2(
            plus,
            arithmetic::applied(wrap, arithmetic::applied2(minus, h, angles[0])),
            angles[0],
        ),
{
}

impl<
    T,
    Z: Fn() -> T,
    A: Fn(T, Ring) -> T,
    C: Fn(T, Cell) -> T,
    M: Fn(Single, Single) -> Single,
    S: Fn(T, Single) -> T,
    F: Fn(T, Single) -> Single,
> FluxArithmetic<Z, A, C, M, S, F> {
    /// Where no addition rounds, the flux of a revolved profile is the sum of the rings
    /// between each vertical angle and the next, each between its own two values.
    /// `value` gives the number that a sum stands for, and `ring` what a ring adds.
    pub proof fn every_ring_counts_once(
        &self,
        p: ies::IesProfileView,
        n: int,
        value: spec_fn(T) -> int,
        ring: spec_fn(Ring) -> int,
    )
        requires
            0 <= n < p.vertical_angles.len(),
            value(self.nothing()) == 0,
            forall|i: int|
                0 <= i < n ==> value(
                    arithmetic::applied2(self.add_ring, self.rings(p, i), #[trigger] ring_at(p, i)),
                ) == value(self.rings(p, i)) + ring(ring_at(p, i)),
        ensures
            value(self.rings(p, n)) == arithmetic::added_up(
                Seq::new(
                    n as nat,
                    |i: int|
                        ring(
                            Ring {
                                from: p.vertical_angles[i],
                                to: p.vertical_angles[i + 1],
                                candela_from: p.candela[i],
                                candela_to: p.candela[i + 1],
                            },
                        ),
                ),
            ),
        decreases n,
    {
        let list = Seq::new(
            n as nat,
            |i: int|
                ring(
                    Ring {
                        from: p.vertical_angles[i],
                        to: p.vertical_angles[i + 1],
                        candela_from: p.candela[i],
                        candela_to: p.candela[i + 1],
                    },
                ),
        );
        if n > 0 {
            self.every_ring_counts_once(p, n - 1, value, ring);
            assert(list.drop_last() =~= Seq::new(
                (n - 1) as nat,
                |i: int|
                    ring(
                        Ring {
                            from: p.vertical_angles[i],
                            to: p.vertical_angles[i + 1],
                            candela_from: p.candela[i],
                            candela_to: p.candela[i + 1],
                        },
                    ),
            ));
            assert(list.last() == ring(ring_at(p, n - 1)));
        }
    }

    /// Where no addition rounds, the flux of a profile of several horizontal angles is the
    /// sum of the cells between each two neighbouring angles, each between its own four
    /// values: row by row of cells, `n` rows in all.
    pub proof fn every_cell_counts_once(
        &self,
        p: ies::IesProfileView,
        n: int,
        value: spec_fn(T) -> int,
        cell: spec_fn(Cell) -> int,
    )
        requires
            0 <= n < p.vertical_angles.len(),
            p.horizontal_angles.len() >= 1,
            value(self.nothing()) == 0,
            forall|i: int, j: int|
                0 <= i < n && 0 <= j < p.horizontal_angles.len() - 1 ==> value(
                    arithmetic::applied2(
                        self.add_cell,
                        self.row(p, self.cells(p, i), i, j),
                        #[trigger] cell_at(p, i, j),
                    ),
                ) == value(self.row(p, self.cells(p, i), i, j)) + cell(cell_at(p, i, j)),
        ensures
            value(self.cells(p, n)) == arithmetic::added_up(
                Seq::new(
                    n as nat,
                    |i: int|
                        arithmetic::added_up(
                            Seq::new(
                                (p.horizontal_angles.len() - 1) as nat,
                                |j: int| cell(cell_between(p, i, j)),
                            ),
                        ),
                ),
            ),
        decreases n,
    {
        let sums = |m: int|
            Seq::new(
                m as nat,
                |i: int|
                    arithmetic::added_up(
                        Seq::new(
                            (p.horizontal_angles.len() - 1) as nat,
                            |j: int| cell(cell_between(p, i, j)),
                        ),
                    ),
            );
        if n > 0 {
            self.every_cell_counts_once(p, n - 1, value, cell);
            self.cells_of_a_row(p, n - 1, p.horizontal_angles.len() - 1, value, cell);
            assert(sums(n).drop_last() =~= sums(n - 1));
        }
    }

    proof fn cells_of_a_row(
        &self,
        p: ies::IesProfileView,
        i: int,
        m: int,
        value: spec_fn(T) -> int,
        cell: spec_fn(Cell) -> int,
    )
        requires
            0 <= i < p.vertical_angles.len() - 1,
            0 <= m < p.horizontal_angles.len(),
            forall|j: int|
                0 <= j < m ==> value(
                    arithmetic::applied2(
                        self.add_cell,
                        self.row(p, self.cells(p, i), i, j),
                        #[trigger] cell_at(p, i, j),
                    ),
                ) == value(self.row(p, self.cells(p, i), i, j)) + cell(cell_at(p, i, j)),
        ensures
            value(self.row(p, self.cells(p, i), i, m)) == value(self.cells(p, i))
                + arithmetic::added_up(Seq::new(m as nat, |j: int| cell(cell_between(p, i, j)))),
        decreases m,
    {
        let list = Seq::new(m as nat, |j: int| cell(cell_between(p, i, j)));
        if m > 0 {
            self.cells_of_a_row(p, i, m - 1, value, cell);
            assert(list.drop_last() =~= Seq::new(
                (m - 1) as nat,
                |j: int| cell(cell_between(p, i, j)),
            ));
            let columns = p.vertical_angles.len() as int;
            assert(cell_at(p, i, m - 1) == cell_between(p, i, m - 1));
            assert(list.last() == cell(cell_at(p, i, m - 1)));
        }
    }
}

/// The cell between the `i`th vertical angle and the next, and the `j`th horizontal angle
/// and the next, with the table's value for each of the four pairs.
pub open spec fn cell_between(p: ies::IesProfileView, i: int, j: int) -> Cell {
    let columns = p.vertical_angles.len() as int;
    Cell {
        from: p.vertical_angles[i],
        to: p.vertical_angles[i + 1],
        turn_from: p.horizontal_angles[j],
        turn_to: p.horizontal_angles[j + 1],
        corners: Corners {
            c00: p.candela[j * columns + i],
            c01: p.candela[j * columns + (i + 1)],
            c10: p.candela[(j + 1) * columns + i],
            c11: p.candela[(j + 1) * columns + (i + 1)],
        },
    }
}

/// The flux of a profile takes in every sample and grows by its factor: it is that of the
/// whole range of samples, spread over a turn where they span part of one.
pub proof fn the_flux_is_scaled_once<
    T,
    Z: Fn() -> T,
    A: Fn(T, Ring) -> T,
    C: Fn(T, Cell) -> T,
    M: Fn(Single, Single) -> Single,
    S: Fn(T, Single) -> T,
    F: Fn(T, Single) -> Single,
>(numbers: FluxArithmetic<Z, A, C, M, S, F>, p: ies::IesProfileView)
    requires
        p.vertical_angles.len() >= 2,
        p.horizontal_angles.len() >= 1,
    ensures
        ({
            let last = p.vertical_angles.len() - 1;
            let span = arithmetic::applied2(
                numbers.minus,
                p.horizontal_angles[p.horizontal_angles.len() - 1],
                p.horizontal_angles[0],
            );
            let whole = if p.horizontal_angles.len() == 1 {
                numbers.rings(p, last)
            } else if (Single { bits: 0 }).below(span) {
                arithmetic::applied2(numbers.spread, numbers.cells(p, last), span)
            } else {
                numbers.cells(p, last)
            };
            numbers.flux(p) == arithmetic::applied2(numbers.total, whole, p.candela_multiplier)
        }),
{
}

// ---- what files declare and tables hold --------------------------------

/// The largest value of a table, scaled.
pub open spec fn scaled_peak<T: Fn(Single, Single) -> Single>(
    times: T,
    values: Seq<Single>,
    multiplier: Single,
) -> Single {
    arithmetic::applied2(times, ies::peak(values), multiplier)
}

/// The flux of lamps.
pub open spec fn declared_by<T: Fn(Single, u32) -> Single>(
    times: T,
    per_lamp: Single,
    lamps: u32,
) -> Option<Single> {
    if (Single { bits: 0 }).below(per_lamp) {
        Some(arithmetic::applied2(times, per_lamp, at_least_one(lamps)))
    } else {
        None
    }
}

impl IesLookupTexture {
    /// Whether the buffer holds the whole table.
    pub open spec fn whole(&self) -> bool {
        at_least_one(self.width) * at_least_one(self.height) <= self.candela@.len()
    }

    /// The four texels around a place.
    pub open spec fn around_texel(&self, x: int, y: int) -> Option<Corners> {
        if self.whole() {
            Some(
                corners_at(
                    self.candela@,
                    at_least_one(self.height) as int,
                    at_least_one(self.width) as int,
                    y,
                    if x < at_least_one(self.width) {
                        x
                    } else {
                        at_least_one(self.width) - 1
                    },
                ),
            )
        } else {
            None
        }
    }

    /// What the table holds toward a direction.
    pub open spec fn looked_up<
        V: Fn(Single, u32) -> Single,
        H: Fn(Single, u32) -> Single,
        O: Fn(Single, u32) -> Single,
        B: Fn(Corners, Single, Single) -> Single,
    >(
        &self,
        vertical_deg: Single,
        horizontal_deg: Single,
        row_of: V,
        column_of: H,
        offset: O,
        blend: B,
    ) -> Single {
        let row = arithmetic::applied2(
            row_of,
            vertical_deg.clamped(Single { bits: 0 }, Single { bits: HALF_TURN }),
            at_least_one(self.height),
        );
        let column = if at_least_one(self.width) > 1 {
            arithmetic::applied2(column_of, horizontal_deg, at_least_one(self.width))
        } else {
            Single { bits: 0 }
        };
        let y = texel(row, at_least_one(self.height));
        let x = texel(column, at_least_one(self.width));
        match self.around_texel(x as int, y as int) {
            Some(c) => arithmetic::applied3(
                blend,
                c,
                arithmetic::applied2(offset, row, y),
                arithmetic::applied2(offset, column, x),
            ),
            None => Single { bits: 0 },
        }
    }

    /// A table that is looked up right at one of its texels gives that texel: toward an
    /// angle whose row and column are whole, with a blend that gives its first corner where
    /// nothing is over.
    pub proof fn texels_are_found_at_their_place<
        V: Fn(Single, u32) -> Single,
        H: Fn(Single, u32) -> Single,
        O: Fn(Single, u32) -> Single,
        B: Fn(Corners, Single, Single) -> Single,
    >(
        &self,
        vertical_deg: Single,
        horizontal_deg: Single,
        row_of: V,
        column_of: H,
        offset: O,
        blend: B,
        x: u32,
        y: u32,
    )
        requires
            self.whole(),
            1 < self.width,
            x < self.width,
            y < self.height,
            (Single { bits: 0 }).at_most(vertical_deg),
            vertical_deg.at_most(Single { bits: HALF_TURN }),
            arithmetic::applied2(row_of, vertical_deg, self.height).integer_part() == y,
            arithmetic::applied2(column_of, horizontal_deg, self.width).integer_part() == x,
            forall|at: Single, n: u32| #[trigger]
                arithmetic::applied2(offset, at, n) == (Single { bits: 0 }),
            forall|c: Corners| #[trigger]
                arithmetic::applied3(blend, c, Single { bits: 0 }, Single { bits: 0 }) == c.c00,
        ensures
            self.looked_up(vertical_deg, horizontal_deg, row_of, column_of, offset, blend)
                == self.candela@[y * self.width + x],
    {
    }

    /// Down the rows and along the columns each offset counts for its own direction: with a
    /// blend that takes over the corner below where only the row is over, and the corner
    /// beside where only the column is.
    pub proof fn offsets_count_for_their_own_direction<
        V: Fn(Single, u32) -> Single,
        H: Fn(Single, u32) -> Single,
        O: Fn(Single, u32) -> Single,
        B: Fn(Corners, Single, Single) -> Single,
    >(
        &self,
        vertical_deg: Single,
        horizontal_deg: Single,
        row_of: V,
        column_of: H,
        offset: O,
        blend: B,
        x: u32,
        y: u32,
    )
        requires
            self.whole(),
            x + 1 < self.width,
            y + 1 < self.height,
            (Single { bits: 0 }).at_most(vertical_deg),
            vertical_deg.at_most(Single { bits: HALF_TURN }),
            arithmetic::applied2(row_of, vertical_deg, self.height).integer_part() == y,
            arithmetic::applied2(column_of, horizontal_deg, self.width).integer_part() == x,
            arithmetic::applied2(
                offset,
                arithmetic::applied2(row_of, vertical_deg, self.height),
                y,
            ) == (Single { bits: 0x3f80_0000 }),
            arithmetic::applied2(
                offset,
                arithmetic::applied2(column_of, horizontal_deg, self.width),
                x,
            ) == (Single { bits: 0 }),
            forall|c: Corners| #[trigger]
                arithmetic::applied3(blend, c, Single { bits: 0x3f80_0000 }, Single { bits: 0 })
                    == c.c10,
        ensures
            self.looked_up(vertical_deg, horizontal_deg, row_of, column_of, offset, blend)
                == self.candela@[(y + 1) * self.width + x],
    {
    }

    /// Angles past straight up and straight down count as those, a table of one column is
    /// the same all around, and one whose buffer is too small is dark.
    pub proof fn tables_end_at_their_edges<
        V: Fn(Single, u32) -> Single,
        H: Fn(Single, u32) -> Single,
        O: Fn(Single, u32) -> Single,
        B: Fn(Corners, Single, Single) -> Single,
    >(
        &self,
        v: Single,
        h: Single,
        other: Single,
        row_of: V,
        column_of: H,
        offset: O,
        blend: B,
    )
        ensures
            (Single { bits: HALF_TURN }).below(v) ==> self.looked_up(
                v,
                h,
                row_of,
                column_of,
                offset,
                blend,
            ) == self.looked_up(
                Single { bits: HALF_TURN },
                h,
                row_of,
                column_of,
                offset,
                blend,
            ),
            v.below(Single { bits: 0 }) ==> self.looked_up(v, h, row_of, column_of, offset, blend)
                == self.looked_up(Single { bits: 0 }, h, row_of, column_of, offset, blend),
            self.width <= 1 ==> self.looked_up(v, h, row_of, column_of, offset, blend)
                == self.looked_up(v, other, row_of, column_of, offset, blend),
            !self.whole() ==> self.looked_up(v, h, row_of, column_of, offset, blend).bits == 0,
    {
    }

    /// The texels around a place are those of its row and the next, and of its column and
    /// the next, as far as there are any; a column past the last counts as the last.
    pub proof fn texels_around_are_neighbours(&self, x: int, y: int)
        requires
            self.whole(),
            0 <= x < self.width,
            0 <= y < self.height,
        ensures
            ({
                let c = self.around_texel(x, y)->0;
                &&& c.c00 == self.candela@[y * self.width + x]
                &&& x + 1 < self.width ==> c.c01 == self.candela@[y * self.width + x + 1]
                &&& y + 1 < self.height ==> c.c10 == self.candela@[(y + 1) * self.width + x]
                &&& x + 1 < self.width && y + 1 < self.height ==> c.c11 == self.candela@[(y + 1)
                    * self.width + x + 1]
                &&& x + 1 == self.width ==> c.c01 == c.c00 && c.c11 == c.c10
                &&& y + 1 == self.height ==> c.c10 == c.c00 && c.c11 == c.c01
            }),
            forall|past: int|
                past >= self.width ==> #[trigger] self.around_texel(past, y) == self.around_texel(
                    self.width - 1,
                    y,
                ),
    {
    }
}

/// Where products are exact, the flux of a file is that of its lamps together, and a file
/// that says of no lamp is of one. Only a flux above 0 is one.
pub proof fn lamps_add_up<T: Fn(Single, u32) -> Single>(
    times: T,
    per_lamp: Single,
    lamps: u32,
    value: spec_fn(Single) -> int,
)
    requires
        value(arithmetic::applied2(times, per_lamp, at_least_one(lamps))) == value(per_lamp)
            * at_least_one(lamps),
    ensures
        declared_by(times, per_lamp, lamps) is Some <==> (Single { bits: 0 }).below(per_lamp),
        declared_by(times, per_lamp, lamps) matches Some(all) ==> value(all) == value(per_lamp) * (
        if lamps == 0 {
            1int
        } else {
            lamps as int
        }),
        declared_by(times, per_lamp, 0) == declared_by(times, per_lamp, 1),
{
}

/// The scaled peak is, where products are exact, as many times the multiplier as the
/// greatest value, and no value scaled like it is larger.
pub proof fn peaks_are_scaled<T: Fn(Single, Single) -> Single>(
    times: T,
    values: Seq<Single>,
    multiplier: Single,
    value: spec_fn(Single) -> int,
)
    requires
        value(arithmetic::applied2(times, ies::peak(values), multiplier)) == value(
            ies::peak(values),
        ) * value(multiplier),
    ensures
        value(scaled_peak(times, values, multiplier)) == value(ies::peak(values)) * value(
            multiplier,
        ),
{
}

/// The angles of the profile that is the same all around go from 0 to 180 degrees, ten by
/// ten.
pub proof fn tens_are_ten_apart(i: int)
    requires
        0 <= i < tens_of_degrees().len(),
    ensures
        tens_of_degrees().len() == 19,
        tens_of_degrees()[i].integer_part() == 10 * i,
        tens_of_degrees().last().bits == HALF_TURN,
        i > 0 ==> tens_of_degrees()[i - 1].below(tens_of_degrees()[i]),
{
    vstd::arithmetic::power2::lemma2_to64();
    whole_part(tens_of_degrees()[1], 130, 10);
    whole_part(tens_of_degrees()[2], 131, 20);
    whole_part(tens_of_degrees()[3], 131, 30);
    whole_part(tens_of_degrees()[4], 132, 40);
    whole_part(tens_of_degrees()[5], 132, 50);
    whole_part(tens_of_degrees()[6], 132, 60);
    whole_part(tens_of_degrees()[7], 133, 70);
    whole_part(tens_of_degrees()[8], 133, 80);
    whole_part(tens_of_degrees()[9], 133, 90);
    whole_part(tens_of_degrees()[10], 133, 100);
    whole_part(tens_of_degrees()[11], 133, 110);
    whole_part(tens_of_degrees()[12], 133, 120);
    whole_part(tens_of_degrees()[13], 134, 130);
    whole_part(tens_of_degrees()[14], 134, 140);
    whole_part(tens_of_degrees()[15], 134, 150);
    whole_part(tens_of_degrees()[16], 134, 160);
    whole_part(tens_of_degrees()[17], 134, 170);
    whole_part(tens_of_degrees()[18], 134, 180);
}

/// A number that is written with an exponent and a whole number of its last steps is that
/// whole number.
proof fn whole_part(a: Single, e: int, n: int)
    requires
        127 <= e < 150,
        a.bits == (e - 1) * 0x80_0000 + n * vstd::arithmetic::power2::pow2((150 - e) as nat),
        0x80_0000 <= n * vstd::arithmetic::power2::pow2((150 - e) as nat) < 0x100_0000,
    ensures
        a.integer_part() == n,
{
    let p = vstd::arithmetic::power2::pow2((150 - e) as nat) as int;
    let s = n * p;
    vstd::arithmetic::power2::lemma_pow2_pos((150 - e) as nat);
    assert(a.magnitude() / 0x80_0000 == e);
    assert(0x80_0000 + a.magnitude() % 0x80_0000 == s);
    assert(s / p == n) by (nonlinear_arith)
        requires
            s == n * p,
            p > 0,
    ;
}

/// A place falls on the texel of its whole part, and one past the last on the last.
pub proof fn places_fall_on_their_texel(a: Single, b: Single, n: u32)
    requires
        n >= 1,
        a.at_most(b),
    ensures
        0 <= texel(a, n) <= texel(b, n) < n,
        a.integer_part() < n ==> texel(a, n) == a.integer_part(),
        a.integer_part() >= n ==> texel(a, n) + 1 == n,
{
    a.integer_part_is_natural();
    b.integer_part_is_natural();
    crate::single::integer_parts_follow_the_order(a, b);
}

} // verus!

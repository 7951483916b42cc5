//! Environment maps: light from all around, and the tables by which bright
//! directions are found.
use vstd::prelude::*;

use crate::arithmetic;
use crate::geometry;
use crate::geometry::Vec3;
use crate::single::Single;
use crate::text;

verus! {

/// A picture of the surroundings, with the tables that it is sampled by.
#[derive(Debug)]
pub struct EnvironmentMap {
    pub width: u32,
    pub height: u32,
    /// Row by row, from the top.
    pub pixels: Vec<Vec3>,
    /// Multiplier on every sample.
    pub intensity: Single,
    /// For each row, the share of the light that is in it or above.
    pub marginal_cdf: Vec<Single>,
    /// For each pixel, the share of its row's light that is in it or to the left.
    pub conditional_cdf: Vec<Single>,
    /// For each row, the light in it.
    pub row_integrals: Vec<Single>,
    /// All the light.
    pub total_integral: Single,
}

#[derive(Debug, PartialEq)]
pub enum EnvironmentError {
    NotFound(String),
    /// The picture has no pixels.
    EmptyImage(u32, u32),
}

impl EnvironmentError {
    /// What the error says.
    pub open spec fn wording(self) -> Seq<char> {
        match self {
            EnvironmentError::NotFound(path) => "environment file not found: "@ + path@,
            EnvironmentError::EmptyImage(w, h) => "environment image has zero dimensions ("@
                + text::decimal(w as nat) + "x"@ + text::decimal(h as nat) + ")"@,
        }
    }

    /// What the error says.
    pub fn message(&self) -> (r: String)
        ensures
            r@ == self.wording(),
    {
        match self {
            EnvironmentError::NotFound(path) => text::prefixed(
                "environment file not found: ",
                path.as_str(),
            ),
            EnvironmentError::EmptyImage(w, h) => {
                let mut out: String = "environment image has zero dimensions (".to_owned();
                out.append(text::decimal_text(*w as u64).as_str());
                out.append("x");
                out.append(text::decimal_text(*h as u64).as_str());
                out.append(")");
                out
            },
        }
    }
}

/// A picture that can serve as an environment has pixels.
pub fn check_size(width: u32, height: u32) -> (r: Result<(), EnvironmentError>)
    ensures
        r is Ok <==> width > 0 && height > 0,
        r is Err ==> r->Err_0 == EnvironmentError::EmptyImage(width, height),
{
    if width == 0 || height == 0 {
        Err(EnvironmentError::EmptyImage(width, height))
    } else {
        Ok(())
    }
}

/// The arithmetic of the tables.
pub struct CdfArithmetic<C, A, Q> {
    /// The light of a pixel in a row out of a number of rows: its brightness, by the
    /// part of the sphere that it covers.
    pub cell: C,
    pub plus: A,
    pub over: Q,
}

/// The light in the first `n` pixels of a row.
pub open spec fn row_light<
    C: Fn(u32, u32, Vec3) -> Single,
    A: Fn(Single, Single) -> Single,
>(cell: C, plus: A, pixels: Seq<Vec3>, width: u32, height: u32, y: int, n: nat) -> Single
    decreases n,
{
    if n == 0 {
        Single { bits: 0 }
    } else {
        arithmetic::applied2(
            plus,
            row_light(cell, plus, pixels, width, height, y, (n - 1) as nat),
            arithmetic::applied3(cell, y as u32, height, pixels[y * width + (n - 1)]),
        )
    }
}

/// The light in the first `n` rows.
pub open spec fn light_above<A: Fn(Single, Single) -> Single>(
    plus: A,
    rows: Seq<Single>,
    n: nat,
) -> Single
    decreases n,
{
    if n == 0 {
        Single { bits: 0 }
    } else {
        arithmetic::applied2(plus, light_above(plus, rows, (n - 1) as nat), rows[n - 1])
    }
}

/// A part as a share of a whole; itself, where the whole is nothing.
pub open spec fn share<Q: Fn(Single, Single) -> Single>(
    over: Q,
    part: Single,
    whole: Single,
) -> Single {
    if (Single { bits: 0 }).below(whole) {
        arithmetic::applied2(over, part, whole)
    } else {
        part
    }
}

fn share_of<Q: Fn(Single, Single) -> Single>(over: &Q, part: Single, whole: Single) -> (r: Single)
    requires
        arithmetic::steady2(*over),
    ensures
        r == share(*over, part, whole),
{
    if Single::zero().lt(whole) {
        over(part, whole)
    } else {
        part
    }
}

impl EnvironmentMap {
    /// The tables fit the picture.
    pub open spec fn wf(&self) -> bool {
        &&& self.pixels@.len() == self.width * self.height
        &&& self.conditional_cdf@.len() == self.width * self.height
        &&& self.marginal_cdf@.len() == self.height
        &&& self.row_integrals@.len() == self.height
    }

    /// Whether the tables are those of the picture.
    pub open spec fn tabulates<
        C: Fn(u32, u32, Vec3) -> Single,
        A: Fn(Single, Single) -> Single,
        Q: Fn(Single, Single) -> Single,
    >(&self, cell: C, plus: A, over: Q) -> bool {
        let p = self.pixels@;
        let w = self.width;
        let h = self.height;
        &&& forall|y: int|
            0 <= y < h ==> #[trigger] self.row_integrals@[y] == row_light(
                cell,
                plus,
                p,
                w,
                h,
                y,
                w as nat,
            )
        &&& forall|x: int, y: int|
            0 <= x < w && 0 <= y < h ==> #[trigger] self.conditional_cdf@[y * w + x] == share(
                over,
                row_light(cell, plus, p, w, h, y, (x + 1) as nat),
                row_light(cell, plus, p, w, h, y, w as nat),
            )
        &&& self.total_integral == light_above(plus, self.row_integrals@, h as nat)
        &&& forall|y: int|
            0 <= y < h ==> #[trigger] self.marginal_cdf@[y] == share(
                over,
                light_above(plus, self.row_integrals@, (y + 1) as nat),
                self.total_integral,
            )
    }

    /// An environment from the pixels of a picture.
    pub fn from_pixels<
        C: Fn(u32, u32, Vec3) -> Single,
        A: Fn(Single, Single) -> Single,
        Q: Fn(Single, Single) -> Single,
    >(
        width: u32,
        height: u32,
        pixels: Vec<Vec3>,
        intensity: Single,
        numbers: &CdfArithmetic<C, A, Q>,
    ) -> (r: EnvironmentMap)
        requires
            pixels@.len() == width * height,
            arithmetic::steady3(numbers.cell),
            arithmetic::steady2(numbers.plus),
            arithmetic::steady2(numbers.over),
        ensures
            r.wf(),
            r.width == width,
            r.height == height,
            r.pixels == pixels,
            r.intensity == intensity,
            r.tabulates(numbers.cell, numbers.plus, numbers.over),
    {
        let total: usize = pixels.len();
        let mut conditional: Vec<Single> = Vec::new();
        let mut rows: Vec<Single> = Vec::new();
        let mut y: u32 = 0;
        proof {
            assert(0 * width == 0) by (nonlinear_arith);
        }
        while y < height
            invariant
                total == pixels@.len(),
                pixels@.len() == width * height,
                arithmetic::steady3(numbers.cell),
                arithmetic::steady2(numbers.plus),
                arithmetic::steady2(numbers.over),
                y <= height,
                conditional@.len() == y * width,
                rows@.len() == y,
                forall|b: int|
                    0 <= b < y ==> #[trigger] rows@[b] == row_light(
                        numbers.cell,
                        numbers.plus,
                        pixels@,
                        width,
                        height,
                        b,
                        width as nat,
                    ),
                forall|a: int, b: int|
                    0 <= a < width && 0 <= b < y ==> #[trigger] conditional@[b * width + a]
                        == share(
                        numbers.over,
                        row_light(
                            numbers.cell,
                            numbers.plus,
                            pixels@,
                            width,
                            height,
                            b,
                            (a + 1) as nat,
                        ),
                        row_light(
                            numbers.cell,
                            numbers.plus,
                            pixels@,
                            width,
                            height,
                            b,
                            width as nat,
                        ),
                    ),
            decreases height - y,
        {
            let sums: Vec<Single> = row_sums(&pixels, width, height, y, numbers);
            let light: Single = if width == 0 {
                Single::zero()
            } else {
                sums[width as usize - 1]
            };
            let ghost before = conditional@;
            let mut x: u32 = 0;
            while x < width
                invariant
                    arithmetic::steady2(numbers.over),
                    x <= width,
                    y < height,
                    sums@.len() == width,
                    before.len() == y * width,
                    conditional@.len() == before.len() + x,
                    forall|i: int|
                        0 <= i < before.len() ==> #[trigger] conditional@[i] == before[i],
                    forall|a: int|
                        0 <= a < x ==> #[trigger] conditional@[before.len() + a] == share(
                            numbers.over,
                            sums@[a],
                            light,
                        ),
                decreases width - x,
            {
                conditional.push(share_of(&numbers.over, sums[x as usize], light));
                x = x + 1;
            }
            rows.push(light);
            proof {
                assert((y + 1) * width == y * width + width) by (nonlinear_arith);
                assert forall|a: int, b: int| 0 <= a < width && 0 <= b < y + 1 implies
                    #[trigger] conditional@[b * width + a] == share(
                    numbers.over,
                    row_light(
                        numbers.cell,
                        numbers.plus,
                        pixels@,
                        width,
                        height,
                        b,
                        (a + 1) as nat,
                    ),
                    row_light(
                        numbers.cell,
                        numbers.plus,
                        pixels@,
                        width,
                        height,
                        b,
                        width as nat,
                    ),
                ) by {
                    if b < y {
                        row_before(width as int, a, b, y as int);
                        assert(conditional@[b * width + a] == before[b * width + a]);
                    } else {
                        assert(b * width + a == before.len() + a);
                    }
                }
            }
            y = y + 1;
        }
        let mut sums: Vec<Single> = Vec::new();
        let mut acc: Single = Single::zero();
        let mut i: usize = 0;
        while i < rows.len()
            invariant
                arithmetic::steady2(numbers.plus),
                i <= rows@.len(),
                sums@.len() == i,
                acc == light_above(numbers.plus, rows@, i as nat),
                forall|b: int|
                    0 <= b < i ==> #[trigger] sums@[b] == light_above(
                        numbers.plus,
                        rows@,
                        (b + 1) as nat,
                    ),
            decreases rows@.len() - i,
        {
            acc = (numbers.plus)(acc, rows[i]);
            sums.push(acc);
            i = i + 1;
        }
        let mut marginal: Vec<Single> = Vec::new();
        let mut k: usize = 0;
        while k < sums.len()
            invariant
                arithmetic::steady2(numbers.over),
                k <= sums@.len(),
                marginal@.len() == k,
                forall|b: int|
                    0 <= b < k ==> #[trigger] marginal@[b] == share(numbers.over, sums@[b], acc),
            decreases sums@.len() - k,
        {
            marginal.push(share_of(&numbers.over, sums[k], acc));
            k = k + 1;
        }
        proof {
            assert(height * width == width * height) by (nonlinear_arith);
        }
        EnvironmentMap {
            width,
            height,
            pixels,
            intensity,
            marginal_cdf: marginal,
            conditional_cdf: conditional,
            row_integrals: rows,
            total_integral: acc,
        }
    }

    /// The pixel at a place.
    pub open spec fn at(&self, x: int, y: int) -> Vec3 {
        self.pixels@[y * self.width + x]
    }

    fn pixel(&self, x: u32, y: u32) -> (r: Vec3)
        requires
            self.wf(),
            x < self.width,
            y < self.height,
        ensures
            r == self.at(x as int, y as int),
    {
        let total: usize = self.pixels.len();
        proof {
            row_before(self.width as int, x as int, y as int, self.height as int);
            assert(self.height * self.width == self.width * self.height) by (nonlinear_arith);
            assert(0 <= y * self.width) by (nonlinear_arith);
        }
        self.pixels[y as usize * self.width as usize + x as usize]
    }

    /// The four pixels around a point between pixels: at its upper left, upper right,
    /// lower left and lower right. `column` and `row` are those of the upper left
    /// pixel; they may lie outside. Left and right the picture goes on around; above
    /// and below it ends.
    pub fn around(&self, column: i64, row: i64) -> (r: Surrounding)
        requires
            self.wf(),
            self.width > 0,
            self.height > 0,
        ensures
            r == surrounding(*self, column as int, row as int),
    {
        let w: i64 = self.width as i64;
        let last: i64 = self.height as i64 - 1;
        let left: u32 = wrap(column, w);
        let right: u32 = if left == self.width - 1 {
            0
        } else {
            left + 1
        };
        let top: u32 = clamp_row(row, last);
        let bottom: u32 = if row < last {
            clamp_row(row + 1, last)
        } else {
            last as u32
        };
        proof {
            assert(right == (left + 1) % self.width as int) by {
                if left + 1 < self.width {
                    vstd::arithmetic::div_mod::lemma_small_mod(
                        (left + 1) as nat,
                        self.width as nat,
                    );
                } else {
                    vstd::arithmetic::div_mod::lemma_mod_self_0(self.width as int);
                }
            }
        }
        Surrounding {
            upper_left: self.pixel(left, top),
            upper_right: self.pixel(right, top),
            lower_left: self.pixel(left, bottom),
            lower_right: self.pixel(right, bottom),
        }
    }

    /// The light from a direction: the blend of the four pixels around where it
    /// falls, by the map's intensity. A map without pixels gives none.
    pub open spec fn light_from<
        P: Fn(Vec3, u32, u32) -> SkyPlace,
        B: Fn(Surrounding, SkyPlace, Single) -> Vec3,
    >(&self, dir: Vec3, place: P, blend: B) -> Vec3 {
        if self.pixels@.len() == 0 {
            geometry::zeros()
        } else {
            let p = arithmetic::applied3(place, dir, self.width, self.height);
            arithmetic::applied3(
                blend,
                surrounding(*self, p.column as int, p.row as int),
                p,
                self.intensity,
            )
        }
    }

    /// The light from a direction: the blend of the four pixels around where it
    /// falls. A map without pixels gives none.
    pub fn sample_direction<
        P: Fn(Vec3, u32, u32) -> SkyPlace,
        B: Fn(Surrounding, SkyPlace, Single) -> Vec3,
    >(&self, dir: Vec3, place: &P, blend: &B) -> (r: Vec3)
        requires
            self.wf(),
            arithmetic::steady3(*place),
            arithmetic::steady3(*blend),
        ensures
            r == self.light_from(dir, *place, *blend),
    {
        if self.pixels.len() == 0 {
            return Vec3::splat(Single::zero());
        }
        proof {
            self.sides_are_positive();
        }
        let p: SkyPlace = place(dir, self.width, self.height);
        blend(self.around(p.column, p.row), p, self.intensity)
    }

    proof fn sides_are_positive(&self)
        requires
            self.wf(),
            self.pixels@.len() > 0,
        ensures
            self.width > 0,
            self.height > 0,
    {
        assert(self.width > 0 && self.height > 0) by (nonlinear_arith)
            requires
                self.width * self.height > 0,
                self.width >= 0,
                self.height >= 0,
        ;
    }

    /// Whether there is any light to sample.
    pub open spec fn shines(&self) -> bool {
        self.pixels@.len() > 0 && !self.total_integral.at_most(Single { bits: 0 })
    }

    /// The pixel whose brightness a direction is as likely as, from where the
    /// direction falls; nothing where there is no light.
    pub fn pixel_toward(&self, column: i32, row: i32) -> (r: Option<Vec3>)
        requires
            self.wf(),
            self.width <= i32::MAX,
            self.height <= i32::MAX,
        ensures
            r == if self.shines() {
                Some(
                    self.at(
                        limited(column as int, self.width - 1),
                        limited(row as int, self.height - 1),
                    ),
                )
            } else {
                None
            },
    {
        if self.total_integral.le(Single::zero()) || self.pixels.len() == 0 {
            return None;
        }
        proof {
            self.sides_are_positive();
        }
        let x: u32 = clamp_row(column as i64, self.width as i64 - 1);
        let y: u32 = clamp_row(row as i64, self.height as i64 - 1);
        Some(self.pixel(x, y))
    }

    /// The density of a direction: that of the pixel on which it falls, held to the
    /// picture; 0 where there is no light.
    pub open spec fn density_toward<
        P: Fn(Vec3, u32, u32) -> (i32, i32),
        Q: Fn(Outlook) -> Single,
    >(&self, dir: Vec3, place: P, density: Q) -> Single {
        if self.shines() {
            let (column, row) = arithmetic::applied3(place, dir, self.width, self.height);
            arithmetic::applied(
                density,
                Outlook {
                    pixel: self.at(
                        limited(column as int, self.width - 1),
                        limited(row as int, self.height - 1),
                    ),
                    width: self.width,
                    height: self.height,
                    total_integral: self.total_integral,
                },
            )
        } else {
            Single { bits: 0 }
        }
    }

    /// The density of a direction by solid angle; 0 where there is no light. `place` says
    /// on which pixel a direction falls, and `density` how dense the directions of a pixel
    /// are: its luminance times the number of pixels, over 2π² times the whole light. It is
    /// the same for all directions that fall on one pixel.
    pub fn pdf_direction<
        P: Fn(Vec3, u32, u32) -> (i32, i32),
        Q: Fn(Outlook) -> Single,
    >(&self, dir: Vec3, place: &P, density: &Q) -> (r: Single)
        requires
            self.wf(),
            self.width <= i32::MAX,
            self.height <= i32::MAX,
            arithmetic::steady3(*place),
            arithmetic::steady(*density),
        ensures
            r == self.density_toward(dir, *place, *density),
    {
        let (column, row) = place(dir, self.width, self.height);
        match self.pixel_toward(column, row) {
            None => Single::zero(),
            Some(pixel) => density(
                Outlook {
                    pixel,
                    width: self.width,
                    height: self.height,
                    total_integral: self.total_integral,
                },
            ),
        }
    }

    /// The pixel that two draws pick: the row by the light above, then the pixel by
    /// the light to its left.
    pub open spec fn picked(&self, u1: Single, u2: Single) -> (int, int) {
        let y = bisected(self.marginal_cdf@, u1, 0, self.height - 1);
        let row = self.conditional_cdf@.subrange(
            y * self.width,
            y * self.width + self.width,
        );
        (bisected(row, u2, 0, self.width - 1), y)
    }

    /// What two draws pick: the direction of the pixel that they pick, its color by the
    /// map's intensity, and the density of the direction. Nothing where there is no light,
    /// or the direction has no density.
    pub open spec fn drawn<
        D: Fn(u32, u32) -> Vec3,
        S: Fn(Vec3, Single) -> Vec3,
        P: Fn(Vec3) -> Single,
    >(&self, u1: Single, u2: Single, direction: D, dim: S, density: P) -> Option<
        (Vec3, Vec3, Single),
    > {
        if !self.shines() {
            None
        } else {
            let (x, y) = self.picked(u1, u2);
            let dir = arithmetic::applied2(direction, x as u32, y as u32);
            let pdf = arithmetic::applied(density, dir);
            if pdf.at_most(Single { bits: 0 }) {
                None
            } else {
                Some((dir, arithmetic::applied2(dim, self.at(x, y), self.intensity), pdf))
            }
        }
    }

    /// Picks a direction, bright ones more often: the direction, the light from it and
    /// its density. Nothing where there is no light, or the direction has no density.
    ///
    /// `direction` is the direction of a pixel, `dim` scales a color, and `density`
    /// is the density of a direction.
    pub fn sample_importance<
        D: Fn(u32, u32) -> Vec3,
        S: Fn(Vec3, Single) -> Vec3,
        P: Fn(Vec3) -> Single,
    >(&self, u1: Single, u2: Single, direction: D, dim: S, density: P) -> (r: Option<
        (Vec3, Vec3, Single),
    >)
        requires
            self.wf(),
            arithmetic::steady2(direction),
            arithmetic::steady2(dim),
            arithmetic::steady(density),
        ensures
            r == self.drawn(u1, u2, direction, dim, density),
    {
        if self.pixels.len() == 0 || self.total_integral.le(Single::zero()) {
            return None;
        }
        proof {
            self.sides_are_positive();
        }
        let y: usize = cdf_search(&self.marginal_cdf, u1);
        let w: usize = self.width as usize;
        let total: usize = self.conditional_cdf.len();
        proof {
            bisection_stays_inside(self.marginal_cdf@, u1, 0, self.height - 1);
            row_before(self.width as int, 0, y as int, self.height as int);
            assert((y + 1) * w == y * w + w) by (nonlinear_arith);
            assert((y + 1) * w <= self.height * self.width) by (nonlinear_arith)
                requires
                    y + 1 <= self.height,
                    w == self.width,
            ;
            assert(self.height * self.width == self.width * self.height) by (nonlinear_arith);
            assert(0 <= y * w) by (nonlinear_arith);
        }
        let from: usize = y * w;
        let mut row: Vec<Single> = Vec::new();
        let mut i: usize = 0;
        while i < w
            invariant
                i <= w,
                from + w <= self.conditional_cdf@.len(),
                total == self.conditional_cdf@.len(),
                row@ == self.conditional_cdf@.subrange(from as int, from + i),
            decreases w - i,
        {
            row.push(self.conditional_cdf[from + i]);
            i = i + 1;
            proof {
                assert(row@ =~= self.conditional_cdf@.subrange(from as int, from + i));
            }
        }
        let x: usize = cdf_search(&row, u2);
        proof {
            bisection_stays_inside(row@, u2, 0, self.width - 1);
        }
        let dir: Vec3 = direction(x as u32, y as u32);
        let radiance: Vec3 = dim(self.pixel(x as u32, y as u32), self.intensity);
        let pdf: Single = density(dir);
        if pdf.le(Single::zero()) {
            None
        } else {
            Some((dir, radiance, pdf))
        }
    }
}

fn row_sums<
    C: Fn(u32, u32, Vec3) -> Single,
    A: Fn(Single, Single) -> Single,
    Q: Fn(Single, Single) -> Single,
>(
    pixels: &Vec<Vec3>,
    width: u32,
    height: u32,
    y: u32,
    numbers: &CdfArithmetic<C, A, Q>,
) -> (r: Vec<Single>)
    requires
        pixels@.len() == width * height,
        y < height,
        arithmetic::steady3(numbers.cell),
        arithmetic::steady2(numbers.plus),
    ensures
        r@.len() == width,
        forall|a: int|
            0 <= a < width ==> #[trigger] r@[a] == row_light(
                numbers.cell,
                numbers.plus,
                pixels@,
                width,
                height,
                y as int,
                (a + 1) as nat,
            ),
{
    let total: usize = pixels.len();
    let mut out: Vec<Single> = Vec::new();
    let mut acc: Single = Single::zero();
    let mut x: u32 = 0;
    while x < width
        invariant
            total == pixels@.len(),
            pixels@.len() == width * height,
            y < height,
            arithmetic::steady3(numbers.cell),
            arithmetic::steady2(numbers.plus),
            x <= width,
            out@.len() == x,
            acc == row_light(
                numbers.cell,
                numbers.plus,
                pixels@,
                width,
                height,
                y as int,
                x as nat,
            ),
            forall|a: int|
                0 <= a < x ==> #[trigger] out@[a] == row_light(
                    numbers.cell,
                    numbers.plus,
                    pixels@,
                    width,
                    height,
                    y as int,
                    (a + 1) as nat,
                ),
        decreases width - x,
    {
        proof {
            row_before(width as int, x as int, y as int, height as int);
            assert(height * width == width * height) by (nonlinear_arith);
            assert(0 <= y * width) by (nonlinear_arith);
        }
        let p: Vec3 = pixels[y as usize * width as usize + x as usize];
        let light: Single = (numbers.cell)(y, height, p);
        acc = (numbers.plus)(acc, light);
        out.push(acc);
        x = x + 1;
    }
    out
}

/// What stands in a row stands before every later row.
proof fn row_before(width: int, a: int, b: int, y: int)
    requires
        0 <= a < width,
        0 <= b < y,
    ensures
        0 <= b * width + a < y * width,
{
    assert(0 <= b * width && b * width + width <= y * width) by (nonlinear_arith)
        requires
            0 <= b,
            b + 1 <= y,
            width >= 0,
    ;
}

/// Four pixels that touch.
#[derive(Clone, Copy, Debug, PartialEq)]
pub struct Surrounding {
    pub upper_left: Vec3,
    pub upper_right: Vec3,
    pub lower_left: Vec3,
    pub lower_right: Vec3,
}

/// Where a direction falls in a map: the place of the pixel up and to the left, and
/// how far it lies from it to the right and down.
#[derive(Clone, Copy, Debug, PartialEq, Eq, Structural)]
pub struct SkyPlace {
    pub column: i64,
    pub row: i64,
    pub tx: Single,
    pub ty: Single,
}

/// What the density of a direction depends on.
#[derive(Clone, Copy, Debug, PartialEq)]
pub struct Outlook {
    pub pixel: Vec3,
    pub width: u32,
    pub height: u32,
    pub total_integral: Single,
}

/// A number held to 0 to `last`.
pub open spec fn limited(v: int, last: int) -> int {
    if v < 0 {
        0
    } else if v > last {
        last
    } else {
        v
    }
}

/// The four pixels around a point, from the place of the upper left one.
pub open spec fn surrounding(map: EnvironmentMap, column: int, row: int) -> Surrounding {
    let w = map.width as int;
    let left = column % w;
    let right = (column % w + 1) % w;
    let top = limited(row, map.height - 1);
    let bottom = limited(row + 1, map.height - 1);
    Surrounding {
        upper_left: map.at(left, top),
        upper_right: map.at(right, top),
        lower_left: map.at(left, bottom),
        lower_right: map.at(right, bottom),
    }
}

fn clamp_row(v: i64, last: i64) -> (r: u32)
    requires
        0 <= last <= u32::MAX,
    ensures
        r == limited(v as int, last as int),
{
    (if v < 0 {
        0
    } else if v > last {
        last
    } else {
        v
    }) as u32
}

fn wrap(column: i64, w: i64) -> (r: u32)
    requires
        0 < w <= u32::MAX,
    ensures
        r == (column as int) % (w as int),
        r < w,
{
    if column >= 0 {
        (column % w) as u32
    } else {
        let back: i64 = -(column + 1);
        let r: i64 = w - 1 - back % w;
        proof {
            let q = back as int / w as int;
            vstd::arithmetic::div_mod::lemma_fundamental_div_mod(back as int, w as int);
            assert((-q - 1) * w == -(w * q) - w) by (nonlinear_arith);
            vstd::arithmetic::div_mod::lemma_fundamental_div_mod_converse(
                column as int,
                w as int,
                -q - 1,
                r as int,
            );
        }
        r as u32
    }
}

/// The place that halving a stretch of a table finds for a number: below it, what
/// was looked at is less than the number.
pub open spec fn bisected(cdf: Seq<Single>, u: Single, lo: int, hi: int) -> int
    decreases hi - lo,
{
    if lo >= hi {
        lo
    } else {
        let mid = (lo + hi) / 2;
        if cdf[mid].below(u) {
            bisected(cdf, u, mid + 1, hi)
        } else {
            bisected(cdf, u, lo, mid)
        }
    }
}

/// The place of a number in a table of rising numbers: the first that is not less,
/// or the last.
pub fn cdf_search(cdf: &Vec<Single>, u: Single) -> (r: usize)
    ensures
        cdf@.len() == 0 ==> r == 0,
        cdf@.len() > 0 ==> r == bisected(cdf@, u, 0, cdf@.len() - 1),
{
    if cdf.len() == 0 {
        return 0;
    }
    let mut lo: usize = 0;
    let mut hi: usize = cdf.len() - 1;
    while lo < hi
        invariant
            lo <= hi < cdf@.len(),
            bisected(cdf@, u, lo as int, hi as int) == bisected(cdf@, u, 0, cdf@.len() - 1),
        decreases hi - lo,
    {
        let mid: usize = lo + (hi - lo) / 2;
        proof {
            assert(mid == (lo + hi) / 2);
        }
        if cdf[mid].lt(u) {
            lo = mid + 1;
        } else {
            hi = mid;
        }
    }
    lo
}

proof fn bisection_stays_inside(cdf: Seq<Single>, u: Single, lo: int, hi: int)
    requires
        lo <= hi,
    ensures
        lo <= bisected(cdf, u, lo, hi) <= hi,
    decreases hi - lo,
{
    if lo < hi {
        let mid = (lo + hi) / 2;
        if cdf[mid].below(u) {
            bisection_stays_inside(cdf, u, mid + 1, hi);
        } else {
            bisection_stays_inside(cdf, u, lo, mid);
        }
    }
}

/// Whether the numbers of a table that are less than `u` all stand before those
/// that are not.
pub open spec fn parted(cdf: Seq<Single>, u: Single) -> bool {
    forall|i: int, j: int|
        0 <= i < j < cdf.len() && (#[trigger] cdf[j]).below(u) ==> (#[trigger] cdf[i]).below(u)
}

/// In a rising table the search finds the first number that is not less, or the
/// last place.
pub proof fn search_finds_the_first(cdf: Seq<Single>, u: Single)
    requires
        cdf.len() > 0,
        parted(cdf, u),
    ensures
        0 <= bisected(cdf, u, 0, cdf.len() - 1) < cdf.len(),
        forall|i: int| 0 <= i < bisected(cdf, u, 0, cdf.len() - 1) ==> (#[trigger] cdf[i]).below(u),
        bisected(cdf, u, 0, cdf.len() - 1) < cdf.len() - 1 ==> !cdf[bisected(
            cdf,
            u,
            0,
            cdf.len() - 1,
        )].below(u),
{
    bisection_narrows(cdf, u, 0, cdf.len() - 1);
}

proof fn bisection_narrows(cdf: Seq<Single>, u: Single, lo: int, hi: int)
    requires
        parted(cdf, u),
        0 <= lo <= hi < cdf.len(),
        forall|i: int| 0 <= i < lo ==> (#[trigger] cdf[i]).below(u),
        hi < cdf.len() - 1 ==> !cdf[hi].below(u),
    ensures
        lo <= bisected(cdf, u, lo, hi) <= hi,
        forall|i: int| 0 <= i < bisected(cdf, u, lo, hi) ==> (#[trigger] cdf[i]).below(u),
        bisected(cdf, u, lo, hi) < cdf.len() - 1 ==> !cdf[bisected(cdf, u, lo, hi)].below(u),
    decreases hi - lo,
{
    if lo < hi {
        let mid = (lo + hi) / 2;
        if cdf[mid].below(u) {
            bisection_narrows(cdf, u, mid + 1, hi);
        } else {
            bisection_narrows(cdf, u, lo, mid);
        }
    }
}

// ---- what a map of the surroundings satisfies --------------------------

/// The light of a row is gathered over all of its pixels, from left to right, each by its
/// own row out of all rows; the light of all rows is gathered from the top down.
pub proof fn rows_gather_each_pixel_once<
    C: Fn(u32, u32, Vec3) -> Single,
    A: Fn(Single, Single) -> Single,
    Q: Fn(Single, Single) -> Single,
>(map: EnvironmentMap, cell: C, plus: A, over: Q, y: int)
    requires
        map.wf(),
        map.tabulates(cell, plus, over),
        0 <= y < map.height,
    ensures
        map.row_integrals@[y] == map.pixels@.subrange(
            y * map.width,
            y * map.width + map.width,
        ).fold_left(
            Single { bits: 0 },
            |sum: Single, p: Vec3|
                arithmetic::applied2(
                    plus,
                    sum,
                    arithmetic::applied3(cell, y as u32, map.height, p),
                ),
        ),
        map.total_integral == map.row_integrals@.fold_left(
            Single { bits: 0 },
            |sum: Single, row: Single| arithmetic::applied2(plus, sum, row),
        ),
{
    let w = map.width as int;
    assert((y + 1) * w == y * w + w) by (nonlinear_arith);
    assert(0 <= y * w && (y + 1) * w <= map.height * w) by (nonlinear_arith)
        requires
            0 <= y,
            y + 1 <= map.height,
            w >= 0,
    ;
    assert(map.height * map.width == map.width * map.height) by (nonlinear_arith);
    let row = map.pixels@.subrange(y * w, y * w + w);
    let take_in = |sum: Single, p: Vec3|
        arithmetic::applied2(plus, sum, arithmetic::applied3(cell, y as u32, map.height, p));
    row_light_so_far(cell, plus, map.pixels@, map.width, map.height, y, row, take_in, w as nat);
    assert(row.take(w) =~= row);
    let join = |sum: Single, row: Single| arithmetic::applied2(plus, sum, row);
    light_above_so_far(plus, map.row_integrals@, join, map.height as nat);
    assert(map.row_integrals@.take(map.height as int) =~= map.row_integrals@);
}

proof fn row_light_so_far<C: Fn(u32, u32, Vec3) -> Single, A: Fn(Single, Single) -> Single>(
    cell: C,
    plus: A,
    pixels: Seq<Vec3>,
    width: u32,
    height: u32,
    y: int,
    row: Seq<Vec3>,
    take_in: spec_fn(Single, Vec3) -> Single,
    n: nat,
)
    requires
        n <= width,
        row.len() == width,
        forall|x: int| 0 <= x < width ==> #[trigger] row[x] == pixels[y * width + x],
        forall|sum: Single, p: Vec3| #[trigger]
            take_in(sum, p) == arithmetic::applied2(
                plus,
                sum,
                arithmetic::applied3(cell, y as u32, height, p),
            ),
    ensures
        row_light(cell, plus, pixels, width, height, y, n) == row.take(n as int).fold_left(
            Single { bits: 0 },
            take_in,
        ),
    decreases n,
{
    if n > 0 {
        row_light_so_far(cell, plus, pixels, width, height, y, row, take_in, (n - 1) as nat);
        assert(row.take(n as int).drop_last() =~= row.take(n - 1));
        assert(row.take(n as int).last() == row[n - 1]);
    }
}

proof fn light_above_so_far<A: Fn(Single, Single) -> Single>(
    plus: A,
    rows: Seq<Single>,
    join: spec_fn(Single, Single) -> Single,
    n: nat,
)
    requires
        n <= rows.len(),
        forall|sum: Single, row: Single| #[trigger]
            join(sum, row) == arithmetic::applied2(plus, sum, row),
    ensures
        light_above(plus, rows, n) == rows.take(n as int).fold_left(Single { bits: 0 }, join),
    decreases n,
{
    if n > 0 {
        light_above_so_far(plus, rows, join, (n - 1) as nat);
        assert(rows.take(n as int).drop_last() =~= rows.take(n - 1));
        assert(rows.take(n as int).last() == rows[n - 1]);
    }
}

/// The table of a row ends with the share of the whole row in itself, and the table of the
/// rows with that of the whole picture; a row or a picture without light is not divided.
pub proof fn tables_end_with_the_whole<
    C: Fn(u32, u32, Vec3) -> Single,
    A: Fn(Single, Single) -> Single,
    Q: Fn(Single, Single) -> Single,
>(map: EnvironmentMap, cell: C, plus: A, over: Q, y: int)
    requires
        map.wf(),
        map.tabulates(cell, plus, over),
        map.width > 0,
        0 <= y < map.height,
    ensures
        ({
            let row = map.row_integrals@[y];
            let total = map.total_integral;
            let zero = Single { bits: 0 };
            &&& zero.below(row) ==> map.conditional_cdf@[y * map.width + (map.width - 1)]
                == arithmetic::applied2(over, row, row)
            &&& !zero.below(row) ==> map.conditional_cdf@[y * map.width + (map.width - 1)] == row
            &&& zero.below(total) ==> map.marginal_cdf@[map.height - 1] == arithmetic::applied2(
                over,
                total,
                total,
            )
            &&& !zero.below(total) ==> map.marginal_cdf@[map.height - 1] == total
        }),
{
    let x = map.width - 1;
    assert(map.conditional_cdf@[y * map.width + x] == map.conditional_cdf@[y * map.width + x]);
}

/// Each place of the table of a row is the share, in the whole row, of the light up to and
/// with its pixel: the next one has just the light of one more pixel in it. So with the
/// table of the rows, row by row.
pub proof fn tables_grow_pixel_by_pixel<
    C: Fn(u32, u32, Vec3) -> Single,
    A: Fn(Single, Single) -> Single,
    Q: Fn(Single, Single) -> Single,
>(map: EnvironmentMap, cell: C, plus: A, over: Q, x: int, y: int)
    requires
        map.wf(),
        map.tabulates(cell, plus, over),
        0 <= x < map.width,
        0 <= y < map.height,
        (Single { bits: 0 }).below(map.row_integrals@[y]),
        (Single { bits: 0 }).below(map.total_integral),
    ensures
        exists|left: Single|
            {
                &&& map.conditional_cdf@[y * map.width + x] == #[trigger] arithmetic::applied2(
                    over,
                    arithmetic::applied2(
                        plus,
                        left,
                        arithmetic::applied3(
                            cell,
                            y as u32,
                            map.height,
                            map.pixels@[y * map.width + x],
                        ),
                    ),
                    map.row_integrals@[y],
                )
                &&& x == 0 ==> left.bits == 0
                &&& x > 0 ==> map.conditional_cdf@[y * map.width + (x - 1)]
                    == arithmetic::applied2(over, left, map.row_integrals@[y])
            },
        exists|above: Single|
            {
                &&& map.marginal_cdf@[y] == #[trigger] arithmetic::applied2(
                    over,
                    arithmetic::applied2(plus, above, map.row_integrals@[y]),
                    map.total_integral,
                )
                &&& y == 0 ==> above.bits == 0
                &&& y > 0 ==> map.marginal_cdf@[y - 1] == arithmetic::applied2(
                    over,
                    above,
                    map.total_integral,
                )
            },
{
    let left = row_light(cell, plus, map.pixels@, map.width, map.height, y, x as nat);
    let with = row_light(cell, plus, map.pixels@, map.width, map.height, y, (x + 1) as nat);
    assert(map.conditional_cdf@[y * map.width + x] == arithmetic::applied2(
        over,
        with,
        map.row_integrals@[y],
    ));
    if x > 0 {
        assert(map.conditional_cdf@[y * map.width + (x - 1)] == arithmetic::applied2(
            over,
            left,
            map.row_integrals@[y],
        ));
    }
    let above = light_above(plus, map.row_integrals@, y as nat);
    assert(light_above(plus, map.row_integrals@, (y + 1) as nat) == arithmetic::applied2(
        plus,
        above,
        map.row_integrals@[y],
    ));
    assert(map.marginal_cdf@[y] == arithmetic::applied2(
        over,
        arithmetic::applied2(plus, above, map.row_integrals@[y]),
        map.total_integral,
    ));
}

/// The pixels around a point are neighbours: side by side, around the picture where it
/// ends, and one above the other, the same one twice past the upper and the lower edge.
pub proof fn surroundings_are_neighbours(map: EnvironmentMap, column: int, row: int)
    requires
        map.wf(),
        map.width > 0,
        map.height > 0,
    ensures
        ({
            let s = surrounding(map, column, row);
            let w = map.width as int;
            let last = map.height - 1;
            &&& surrounding(map, column + w, row) == s
            &&& 0 <= column < w && 0 <= row <= last ==> s.upper_left == map.pixels@[row * w
                + column]
            &&& 0 <= column < w - 1 && 0 <= row <= last ==> s.upper_right == map.pixels@[row * w
                + (column + 1)]
            &&& column == w - 1 && 0 <= row <= last ==> s.upper_right == map.pixels@[row * w]
            &&& 0 <= column < w && 0 <= row < last ==> s.lower_left == map.pixels@[(row + 1) * w
                + column]
            &&& 0 <= column < w - 1 && 0 <= row < last ==> s.lower_right == map.pixels@[(row + 1)
                * w + (column + 1)]
            &&& column == w - 1 && 0 <= row < last ==> s.lower_right == map.pixels@[(row + 1) * w]
            &&& row < 0 ==> s.upper_left == s.lower_left && s.upper_right == s.lower_right
                && s.upper_left == surrounding(map, column, 0).upper_left
            &&& row >= last ==> s.upper_left == s.lower_left && s.upper_right == s.lower_right
                && s.upper_left == surrounding(map, column, last).upper_left
        }),
{
    let w = map.width as int;
    vstd::arithmetic::div_mod::lemma_mod_add_multiples_vanish(column, w);
    if 0 <= column < w {
        vstd::arithmetic::div_mod::lemma_small_mod(column as nat, w as nat);
        if column + 1 < w {
            vstd::arithmetic::div_mod::lemma_small_mod((column + 1) as nat, w as nat);
        } else {
            vstd::arithmetic::div_mod::lemma_mod_self_0(w);
        }
    }
}

/// Two draws pick, where the tables rise, the first row whose table reaches the first draw,
/// and in that row the first pixel whose table reaches the second; the last where none does.
pub proof fn draws_pick_where_the_tables_reach_them(map: EnvironmentMap, u1: Single, u2: Single)
    requires
        map.wf(),
        map.width > 0,
        map.height > 0,
        parted(map.marginal_cdf@, u1),
        forall|y: int|
            0 <= y < map.height ==> parted(
                #[trigger] map.conditional_cdf@.subrange(y * map.width, y * map.width + map.width),
                u2,
            ),
    ensures
        ({
            let (x, y) = map.picked(u1, u2);
            &&& 0 <= x < map.width
            &&& 0 <= y < map.height
            &&& forall|j: int| 0 <= j < y ==> (#[trigger] map.marginal_cdf@[j]).below(u1)
            &&& y < map.height - 1 ==> !map.marginal_cdf@[y].below(u1)
            &&& forall|i: int|
                0 <= i < x ==> (#[trigger] map.conditional_cdf@[y * map.width + i]).below(u2)
            &&& x < map.width - 1 ==> !map.conditional_cdf@[y * map.width + x].below(u2)
        }),
{
    let w = map.width as int;
    search_finds_the_first(map.marginal_cdf@, u1);
    let (x, y) = map.picked(u1, u2);
    assert((y + 1) * w == y * w + w) by (nonlinear_arith);
    assert(0 <= y * w && (y + 1) * w <= map.height * w) by (nonlinear_arith)
        requires
            0 <= y,
            y + 1 <= map.height,
            w >= 0,
    ;
    assert(map.height * map.width == map.width * map.height) by (nonlinear_arith);
    let row = map.conditional_cdf@.subrange(y * w, y * w + w);
    search_finds_the_first(row, u2);
    assert forall|i: int| 0 <= i < x implies (#[trigger] map.conditional_cdf@[y * w + i]).below(
        u2,
    ) by {
        assert(row[i] == map.conditional_cdf@[y * w + i]);
    }
    assert(row[x] == map.conditional_cdf@[y * w + x]);
}

/// A direction that falls on a pixel has that pixel's color by the map's intensity, where
/// the blend keeps a pixel that a point falls on. A map without pixels is dark.
pub proof fn pixels_shine_by_the_intensity<
    P: Fn(Vec3, u32, u32) -> SkyPlace,
    B: Fn(Surrounding, SkyPlace, Single) -> Vec3,
    S: Fn(Vec3, Single) -> Vec3,
>(map: EnvironmentMap, dir: Vec3, place: P, blend: B, dim: S, x: int, y: int)
    requires
        map.wf(),
        0 <= x < map.width,
        0 <= y < map.height,
        arithmetic::applied3(place, dir, map.width, map.height) == (SkyPlace {
            column: x as i64,
            row: y as i64,
            tx: Single { bits: 0 },
            ty: Single { bits: 0 },
        }),
        forall|s: Surrounding, p: SkyPlace|
            p.tx.bits == 0 && p.ty.bits == 0 && s.upper_left == map.at(x, y)
                ==> #[trigger] arithmetic::applied3(blend, s, p, map.intensity)
                == arithmetic::applied2(dim, s.upper_left, map.intensity),
    ensures
        map.light_from(dir, place, blend) == arithmetic::applied2(
            dim,
            map.pixels@[y * map.width + x],
            map.intensity,
        ),
{
    assert(map.width * map.height > 0) by (nonlinear_arith)
        requires
            map.width > 0,
            map.height > 0,
    ;
    vstd::arithmetic::div_mod::lemma_small_mod(x as nat, map.width as nat);
}

/// A direction is as dense as the pixel on which it falls, out of the light of the whole
/// map: all directions that fall on one pixel alike. A direction past an edge falls on the
/// pixel at the edge. A map without light has no density.
pub proof fn directions_are_as_dense_as_their_pixel<
    P: Fn(Vec3, u32, u32) -> (i32, i32),
    Q: Fn(Outlook) -> Single,
>(map: EnvironmentMap, dir: Vec3, place: P, density: Q, x: i32, y: i32)
    requires
        map.wf(),
        arithmetic::applied3(place, dir, map.width, map.height) == (x, y),
    ensures
        map.pixels@.len() > 0 && (Single { bits: 0 }).below(map.total_integral) && 0 <= x
            < map.width && 0 <= y < map.height ==> map.density_toward(dir, place, density)
            == arithmetic::applied(
            density,
            Outlook {
                pixel: map.pixels@[y * map.width + x],
                width: map.width,
                height: map.height,
                total_integral: map.total_integral,
            },
        ),
        map.total_integral.at_most(Single { bits: 0 }) || map.pixels@.len() == 0
            ==> map.density_toward(dir, place, density).bits == 0,
{
}

/// What two draws pick is the direction of their pixel, its own color by the map's
/// intensity, and the density of that direction.
pub proof fn draws_bring_the_light_of_their_pixel<
    D: Fn(u32, u32) -> Vec3,
    S: Fn(Vec3, Single) -> Vec3,
    P: Fn(Vec3) -> Single,
>(map: EnvironmentMap, u1: Single, u2: Single, direction: D, dim: S, density: P)
    requires
        map.wf(),
    ensures
        map.drawn(u1, u2, direction, dim, density) matches Some((dir, light, pdf)) ==> {
            let (x, y) = map.picked(u1, u2);
            &&& dir == arithmetic::applied2(direction, x as u32, y as u32)
            &&& light == arithmetic::applied2(dim, map.pixels@[y * map.width + x], map.intensity)
            &&& pdf == arithmetic::applied(density, dir)
            &&& !pdf.at_most(Single { bits: 0 })
        },
        map.drawn(u1, u2, direction, dim, density) is None <==> {
            let (x, y) = map.picked(u1, u2);
            let dir = arithmetic::applied2(direction, x as u32, y as u32);
            ||| map.pixels@.len() == 0
            ||| map.total_integral.at_most(Single { bits: 0 })
            ||| arithmetic::applied(density, dir).at_most(Single { bits: 0 })
        },
{
}

/// An error says which file is missing, and which size is none, the width first.
pub proof fn errors_name_the_file_or_the_size(path: String, w: u32, h: u32)
    ensures
        text::contains(EnvironmentError::NotFound(path).wording(), path@),
        text::contains(
            EnvironmentError::EmptyImage(w, h).wording(),
            text::decimal(w as nat) + "x"@ + text::decimal(h as nat),
        ),
{
    wording_of_errors(path, w, h);
    text::texts_contain_what_they_are_made_of(
        EnvironmentError::NotFound(path).wording(),
        "environment file not found: "@,
        path@,
        Seq::empty(),
    );
    text::texts_contain_what_they_are_made_of(
        EnvironmentError::EmptyImage(w, h).wording(),
        "environment image has zero dimensions ("@,
        text::decimal(w as nat) + "x"@ + text::decimal(h as nat),
        ")"@,
    );
}

proof fn wording_of_errors(path: String, w: u32, h: u32)
    ensures
        EnvironmentError::NotFound(path).wording() == "environment file not found: "@ + path@
            + Seq::<char>::empty(),
        EnvironmentError::EmptyImage(w, h).wording() == "environment image has zero dimensions ("@
            + (text::decimal(w as nat) + "x"@ + text::decimal(h as nat)) + ")"@,
{
    assert("environment file not found: "@ + path@ + Seq::<char>::empty()
        =~= "environment file not found: "@ + path@);
}

} // verus!

//! Denoising in image space: every pixel becomes a weighted mean of those around
//! it.
use vstd::prelude::*;

use crate::arithmetic;
use crate::geometry;
use crate::geometry::Vec3;
use crate::single::Single;

verus! {

/// A picture, row by row.
#[derive(Debug, PartialEq)]
pub struct ImageRgb {
    pub width: u32,
    pub height: u32,
    pub pixels: Vec<Vec3>,
}

/// A number held to a range.
pub open spec fn held(v: int, lo: int, hi: int) -> int {
    if v < lo {
        lo
    } else if v > hi {
        hi
    } else {
        v
    }
}

impl ImageRgb {
    /// One entry for each pixel.
    pub open spec fn wf(&self) -> bool {
        self.pixels@.len() == self.width * self.height
    }

    /// Whether pixels can be addressed by signed numbers, and there is one.
    pub open spec fn addressable(&self) -> bool {
        0 < self.width <= i32::MAX && 0 < self.height <= i32::MAX
    }

    /// The place of the pixel nearest to a place that may lie outside.
    pub open spec fn place(&self, x: int, y: int) -> int {
        held(y, 0, self.height - 1) * self.width + held(x, 0, self.width - 1)
    }

    /// The pixel nearest to a place that may lie outside.
    pub open spec fn at(&self, x: int, y: int) -> Vec3 {
        self.pixels@[self.place(x, y)]
    }

    pub fn new(width: u32, height: u32) -> (r: ImageRgb)
        requires
            width * height <= usize::MAX,
        ensures
            r.wf(),
            r.width == width,
            r.height == height,
            forall|i: int| 0 <= i < r.pixels@.len() ==> #[trigger] r.pixels@[i] == geometry::zeros(),
    {
        let zero: Single = Single::zero();
        let count: usize = width as usize * height as usize;
        let mut pixels: Vec<Vec3> = Vec::new();
        let mut i: usize = 0;
        while i < count
            invariant
                i <= count,
                zero == (Single { bits: 0 }),
                pixels@.len() == i,
                forall|j: int| 0 <= j < i ==> #[trigger] pixels@[j] == geometry::zeros(),
            decreases count - i,
        {
            pixels.push(Vec3 { x: zero, y: zero, z: zero });
            i = i + 1;
        }
        ImageRgb { width, height, pixels }
    }

    pub fn from_pixels(width: u32, height: u32, pixels: Vec<Vec3>) -> (r: ImageRgb)
        requires
            pixels@.len() == width * height,
        ensures
            r.wf(),
            r == (ImageRgb { width, height, pixels }),
    {
        ImageRgb { width, height, pixels }
    }

    /// The place of the pixel nearest to a place that may lie outside.
    pub fn idx(&self, x: i32, y: i32) -> (r: usize)
        requires
            self.wf(),
            self.addressable(),
        ensures
            r == self.place(x as int, y as int),
            r < self.pixels@.len(),
    {
        let last_x: i32 = self.width as i32 - 1;
        let last_y: i32 = self.height as i32 - 1;
        let cx: i32 = if x < 0 {
            0
        } else if x > last_x {
            last_x
        } else {
            x
        };
        let cy: i32 = if y < 0 {
            0
        } else if y > last_y {
            last_y
        } else {
            y
        };
        let total: usize = self.pixels.len();
        proof {
            assert(0 <= cy * self.width && cy * self.width + self.width <= total)
                by (nonlinear_arith)
                requires
                    0 <= cy,
                    cy + 1 <= self.height,
                    total == self.width * self.height,
            ;
        }
        cy as usize * self.width as usize + cx as usize
    }

    /// The variance of the brightness of all pixels. Fewer than two vary by nothing.
    pub fn luma_variance<
        L: Fn(Vec3) -> Single,
        P: Fn(Single, Single) -> Single,
        M: Fn(Single, usize) -> Single,
        Q: Fn(Single, Single) -> Single,
        V: Fn(Single, usize) -> Single,
    >(&self, numbers: &LumaArithmetic<L, P, M, Q, V>) -> (r: Single)
        requires
            numbers.is_steady(),
        ensures
            r == if self.pixels@.len() < 2 {
                Single { bits: 0 }
            } else {
                numbers.variance(self.pixels@)
            },
    {
        let count: usize = self.pixels.len();
        if count < 2 {
            return Single::zero();
        }
        let mut sum: Single = Single::zero();
        let mut i: usize = 0;
        while i < count
            invariant
                numbers.is_steady(),
                count == self.pixels@.len(),
                i <= count,
                sum == numbers.total(self.pixels@, i as nat),
            decreases count - i,
        {
            let lum: Single = (numbers.luma)(self.pixels[i]);
            sum = (numbers.plus)(sum, lum);
            i = i + 1;
        }
        let mean: Single = (numbers.mean)(sum, count);
        let mut squares: Single = Single::zero();
        let mut k: usize = 0;
        while k < count
            invariant
                numbers.is_steady(),
                count == self.pixels@.len(),
                k <= count,
                squares == numbers.total_of_squares(self.pixels@, mean, k as nat),
            decreases count - k,
        {
            let lum: Single = (numbers.luma)(self.pixels[k]);
            let square: Single = (numbers.square)(lum, mean);
            squares = (numbers.plus)(squares, square);
            k = k + 1;
        }
        (numbers.spread)(squares, count)
    }

    fn pixel(&self, x: i32, y: i32) -> (r: Vec3)
        requires
            self.wf(),
            self.addressable(),
        ensures
            r == self.at(x as int, y as int),
    {
        self.pixels[self.idx(x, y)]
    }
}

/// The arithmetic of brightness.
pub struct LumaArithmetic<L, P, M, Q, V> {
    /// The brightness of a color.
    pub luma: L,
    /// The sum of two numbers.
    pub plus: P,
    /// The mean of so many numbers with this sum.
    pub mean: M,
    /// The square of the difference of two numbers.
    pub square: Q,
    /// The variance of so many numbers whose squares have this sum.
    pub spread: V,
}

impl<
    L: Fn(Vec3) -> Single,
    P: Fn(Single, Single) -> Single,
    M: Fn(Single, usize) -> Single,
    Q: Fn(Single, Single) -> Single,
    V: Fn(Single, usize) -> Single,
> LumaArithmetic<L, P, M, Q, V> {
    /// Whether each part gives one result for one input.
    pub open spec fn is_steady(&self) -> bool {
        &&& arithmetic::steady(self.luma)
        &&& arithmetic::steady2(self.plus)
        &&& arithmetic::steady2(self.mean)
        &&& arithmetic::steady2(self.square)
        &&& arithmetic::steady2(self.spread)
    }

    /// The sum of the brightness of the first `n` pixels.
    pub open spec fn total(&self, pixels: Seq<Vec3>, n: nat) -> Single
        decreases n,
    {
        if n == 0 {
            Single { bits: 0 }
        } else {
            arithmetic::applied2(
                self.plus,
                self.total(pixels, (n - 1) as nat),
                arithmetic::applied(self.luma, pixels[n - 1]),
            )
        }
    }

    /// The sum of the squares of how far the brightness of the first `n` pixels lies
    /// from the mean.
    pub open spec fn total_of_squares(&self, pixels: Seq<Vec3>, mean: Single, n: nat) -> Single
        decreases n,
    {
        if n == 0 {
            Single { bits: 0 }
        } else {
            arithmetic::applied2(
                self.plus,
                self.total_of_squares(pixels, mean, (n - 1) as nat),
                arithmetic::applied2(
                    self.square,
                    arithmetic::applied(self.luma, pixels[n - 1]),
                    mean,
                ),
            )
        }
    }

    /// The variance of the brightness of pixels.
    pub open spec fn variance(&self, pixels: Seq<Vec3>) -> Single {
        let count = pixels.len() as usize;
        let mean = arithmetic::applied2(self.mean, self.total(pixels, pixels.len()), count);
        arithmetic::applied2(
            self.spread,
            self.total_of_squares(pixels, mean, pixels.len()),
            count,
        )
    }
}

/// The settings of the joint bilateral filter.
#[derive(Clone, Copy, Debug, PartialEq)]
pub struct BilateralParams {
    /// Pixels on each side of the middle.
    pub radius: i32,
    pub sigma_space: Single,
    pub sigma_color: Single,
    pub sigma_normal: Single,
    pub sigma_albedo: Single,
}

/// The settings of the joint bilateral filter that a picture gets by default.
pub open spec fn usual_bilateral() -> BilateralParams {
    BilateralParams {
        radius: 2,
        sigma_space: Single { bits: 0x4000_0000 },  // 2
        sigma_color: Single { bits: 0x3e19_999a },  // 0.15
        sigma_normal: Single { bits: 0x3dcc_cccd },  // 0.1
        sigma_albedo: Single { bits: 0x3dcc_cccd },  // 0.1
    }
}

impl Default for BilateralParams {
    fn default() -> (r: BilateralParams)
        ensures
            r == usual_bilateral(),
    {
        BilateralParams {
            radius: 2,
            sigma_space: Single::from_bits(0x4000_0000),  // 2
            sigma_color: Single::from_bits(0x3e19_999a),  // 0.15
            sigma_normal: Single::from_bits(0x3dcc_cccd),  // 0.1
            sigma_albedo: Single::from_bits(0x3dcc_cccd),  // 0.1
        }
    }
}

/// The settings of the non-local means filter.
#[derive(Clone, Copy, Debug, PartialEq)]
pub struct NlmParams {
    /// Pixels on each side of the middle that are searched.
    pub search_radius: i32,
    /// Pixels on each side of the middle of a patch.
    pub patch_radius: i32,
    /// How much noise to expect.
    pub h: Single,
}

/// The settings of the non-local means filter that a picture gets by default.
pub open spec fn usual_nlm() -> NlmParams {
    NlmParams { search_radius: 3, patch_radius: 1, h: Single { bits: 0x3e19_999a } }  // 0.15
}

impl Default for NlmParams {
    fn default() -> (r: NlmParams)
        ensures
            r == usual_nlm(),
    {
        NlmParams { search_radius: 3, patch_radius: 1, h: Single::from_bits(0x3e19_999a) }  // 0.15
    }
}

/// A radius, at least 0.
pub open spec fn reach(radius: i32) -> int {
    if radius < 0 {
        0
    } else {
        radius as int
    }
}

/// A weighted sum under way.
#[derive(Clone, Copy, Debug, PartialEq)]
pub struct Tally {
    pub sum: Vec3,
    pub weight: Single,
}

/// Nothing summed up yet.
pub open spec fn no_tally() -> Tally {
    Tally { sum: geometry::zeros(), weight: Single { bits: 0 } }
}

fn empty_tally() -> (r: Tally)
    ensures
        r == no_tally(),
{
    Tally { sum: Vec3::splat(Single::zero()), weight: Single::zero() }
}

/// A pixel with what guides the filter.
#[derive(Clone, Copy, Debug, PartialEq)]
pub struct Guided {
    pub color: Vec3,
    pub normal: Option<Vec3>,
    pub albedo: Option<Vec3>,
}

/// A pixel near the middle, and the middle.
#[derive(Clone, Copy, Debug, PartialEq)]
pub struct Tap {
    pub params: BilateralParams,
    /// How far from the middle.
    pub dx: i32,
    pub dy: i32,
    pub center: Guided,
    pub sample: Guided,
}

/// A pixel near the middle, and how much the patch around it differs from that
/// around the middle.
#[derive(Clone, Copy, Debug, PartialEq)]
pub struct Likeness {
    pub params: NlmParams,
    pub difference: Single,
    pub color: Vec3,
}

/// The pixel of a picture that may be absent.
pub open spec fn at_if_any(image: Option<&ImageRgb>, x: int, y: int) -> Option<Vec3> {
    match image {
        Some(i) => Some(i.at(x, y)),
        None => None,
    }
}

/// The pixel at a place, with what guides the filter.
pub open spec fn guided(
    color: ImageRgb,
    normal: Option<&ImageRgb>,
    albedo: Option<&ImageRgb>,
    x: int,
    y: int,
) -> Guided {
    Guided {
        color: color.at(x, y),
        normal: at_if_any(normal, x, y),
        albedo: at_if_any(albedo, x, y),
    }
}

/// Step `k` of a walk over a square of `2 * r + 1` pixels, row by row: how far to
/// the right of the middle.
pub open spec fn step_x(r: int, k: int) -> int {
    k % (2 * r + 1) - r
}

/// Step `k` of that walk: how far below the middle.
pub open spec fn step_y(r: int, k: int) -> int {
    k / (2 * r + 1) - r
}

/// The tap at step `k`.
pub open spec fn tap_at(
    color: ImageRgb,
    normal: Option<&ImageRgb>,
    albedo: Option<&ImageRgb>,
    params: BilateralParams,
    x: int,
    y: int,
    k: int,
) -> Tap {
    let r = reach(params.radius);
    Tap {
        params,
        dx: step_x(r, k) as i32,
        dy: step_y(r, k) as i32,
        center: guided(color, normal, albedo, x, y),
        sample: guided(color, normal, albedo, x + step_x(r, k), y + step_y(r, k)),
    }
}

/// The weighted sum after the first `n` steps.
pub open spec fn tallied<G: Fn(Tally, Tap) -> Tally>(
    gather: G,
    color: ImageRgb,
    normal: Option<&ImageRgb>,
    albedo: Option<&ImageRgb>,
    params: BilateralParams,
    x: int,
    y: int,
    n: nat,
) -> Tally
    decreases n,
{
    if n == 0 {
        no_tally()
    } else {
        arithmetic::applied2(
            gather,
            tallied(gather, color, normal, albedo, params, x, y, (n - 1) as nat),
            tap_at(color, normal, albedo, params, x, y, n - 1),
        )
    }
}

/// The mean of a weighted sum, or another color where it has no weight to speak
/// of: at most 0.0000000001.
pub open spec fn settled<D: Fn(Vec3, Single) -> Vec3>(divide: D, t: Tally, other: Vec3) -> Vec3 {
    if t.weight.at_most(Single { bits: 0x2edb_e6ff }) {  // 1e-10
        other
    } else {
        arithmetic::applied2(divide, t.sum, t.weight)
    }
}

fn settle<D: Fn(Vec3, Single) -> Vec3>(divide: &D, t: Tally, other: Vec3) -> (r: Vec3)
    requires
        arithmetic::steady2(*divide),
    ensures
        r == settled(*divide, t, other),
{
    if t.weight.le(Single::from_bits(0x2edb_e6ff)) {  // 1e-10
        other
    } else {
        divide(t.sum, t.weight)
    }
}

/// Whether a picture that may be absent can be walked over.
pub open spec fn usable(image: Option<&ImageRgb>) -> bool {
    image matches Some(i) ==> i.wf() && i.addressable()
}

fn pixel_if_any(image: Option<&ImageRgb>, x: i32, y: i32) -> (r: Option<Vec3>)
    requires
        usable(image),
    ensures
        r == at_if_any(image, x as int, y as int),
{
    match image {
        Some(i) => Some(i.pixel(x, y)),
        None => None,
    }
}

/// Number of steps of a walk.
pub open spec fn walk(r: int) -> nat {
    ((2 * r + 1) * (2 * r + 1)) as nat
}

/// One pixel under the joint bilateral filter.
pub open spec fn bilateral_at<G: Fn(Tally, Tap) -> Tally, D: Fn(Vec3, Single) -> Vec3>(
    gather: G,
    divide: D,
    color: ImageRgb,
    normal: Option<&ImageRgb>,
    albedo: Option<&ImageRgb>,
    params: BilateralParams,
    x: int,
    y: int,
) -> Vec3 {
    settled(
        divide,
        tallied(gather, color, normal, albedo, params, x, y, walk(reach(params.radius))),
        color.at(x, y),
    )
}

/// Filters one pixel.
pub fn bilateral_pixel<G: Fn(Tally, Tap) -> Tally, D: Fn(Vec3, Single) -> Vec3>(
    color: &ImageRgb,
    normal: Option<&ImageRgb>,
    albedo: Option<&ImageRgb>,
    params: BilateralParams,
    x: i32,
    y: i32,
    gather: &G,
    divide: &D,
) -> (p: Vec3)
    requires
        color.wf(),
        color.addressable(),
        usable(normal),
        usable(albedo),
        0 <= x < color.width,
        0 <= y < color.height,
        color.width + reach(params.radius) <= i32::MAX,
        color.height + reach(params.radius) <= i32::MAX,
        arithmetic::steady2(*gather),
        arithmetic::steady2(*divide),
    ensures
        p == bilateral_at(
            *gather,
            *divide,
            *color,
            normal,
            albedo,
            params,
            x as int,
            y as int,
        ),
{
    let r: i32 = if params.radius < 0 {
        0
    } else {
        params.radius
    };
    let center: Guided = Guided {
        color: color.pixel(x, y),
        normal: pixel_if_any(normal, x, y),
        albedo: pixel_if_any(albedo, x, y),
    };
    let mut tally: Tally = empty_tally();
    let ghost side = 2 * r + 1;
    let ghost mut k: int = 0;
    let mut dy: i32 = -r;
    proof {
        assert(0 * side == 0) by (nonlinear_arith);
    }
    while dy <= r
        invariant
            color.wf(),
            color.addressable(),
            usable(normal),
            usable(albedo),
            0 <= x < color.width,
            0 <= y < color.height,
            r == reach(params.radius),
            color.width + r <= i32::MAX,
            color.height + r <= i32::MAX,
            arithmetic::steady2(*gather),
            center == guided(*color, normal, albedo, x as int, y as int),
            side == 2 * r + 1,
            -r <= dy <= r + 1,
            k == (dy + r) * side,
            k >= 0,
            tally == tallied(
                *gather,
                *color,
                normal,
                albedo,
                params,
                x as int,
                y as int,
                k as nat,
            ),
        decreases r + 1 - dy,
    {
        let mut dx: i32 = -r;
        while dx <= r
            invariant
                color.wf(),
                color.addressable(),
                usable(normal),
                usable(albedo),
                0 <= x < color.width,
                0 <= y < color.height,
                r == reach(params.radius),
                color.width + r <= i32::MAX,
                color.height + r <= i32::MAX,
                arithmetic::steady2(*gather),
                center == guided(*color, normal, albedo, x as int, y as int),
                side == 2 * r + 1,
                -r <= dy <= r,
                -r <= dx <= r + 1,
                k == (dy + r) * side + (dx + r),
                k >= 0,
                tally == tallied(
                    *gather,
                    *color,
                    normal,
                    albedo,
                    params,
                    x as int,
                    y as int,
                    k as nat,
                ),
            decreases r + 1 - dx,
        {
            let sample: Guided = Guided {
                color: color.pixel(x + dx, y + dy),
                normal: pixel_if_any(normal, x + dx, y + dy),
                albedo: pixel_if_any(albedo, x + dx, y + dy),
            };
            proof {
                vstd::arithmetic::div_mod::lemma_fundamental_div_mod_converse(
                    k,
                    side,
                    dy + r,
                    dx + r,
                );
            }
            let tap: Tap = Tap { params, dx, dy, center, sample };
            proof {
                assert(tap == tap_at(
                    *color,
                    normal,
                    albedo,
                    params,
                    x as int,
                    y as int,
                    k,
                ));
            }
            tally = gather(tally, tap);
            proof {
                k = k + 1;
            }
            dx = dx + 1;
        }
        proof {
            assert((dy + 1 + r) * side == (dy + r) * side + side) by (nonlinear_arith);
        }
        dy = dy + 1;
    }
    settle(divide, tally, center.color)
}

/// The joint bilateral filter: the weights of the pixels around one fall with
/// distance and with the difference in color, normal and albedo.
///
/// `gather` adds a pixel, with its weight, to a sum, and `divide` divides a color
/// by a number.
pub fn bilateral_denoise<G: Fn(Tally, Tap) -> Tally, D: Fn(Vec3, Single) -> Vec3>(
    color: &ImageRgb,
    normal: Option<&ImageRgb>,
    albedo: Option<&ImageRgb>,
    params: BilateralParams,
    gather: &G,
    divide: &D,
) -> (p: ImageRgb)
    requires
        color.wf(),
        color.width * color.height > 0 ==> usable(normal) && usable(albedo),
        color.width + reach(params.radius) <= i32::MAX,
        color.height + reach(params.radius) <= i32::MAX,
        arithmetic::steady2(*gather),
        arithmetic::steady2(*divide),
    ensures
        p.wf(),
        p.width == color.width,
        p.height == color.height,
        forall|x: int, y: int|
            0 <= x < color.width && 0 <= y < color.height ==> #[trigger] p.at(x, y)
                == bilateral_at(
                *gather,
                *divide,
                *color,
                normal,
                albedo,
                params,
                x,
                y,
            ),
{
    let mut pixels: Vec<Vec3> = Vec::new();
    let mut y: u32 = 0;
    proof {
        assert(0 * color.width == 0) by (nonlinear_arith);
    }
    while y < color.height
        invariant
            color.wf(),
            color.width * color.height > 0 ==> usable(normal) && usable(albedo),
            color.width + reach(params.radius) <= i32::MAX,
            color.height + reach(params.radius) <= i32::MAX,
            arithmetic::steady2(*gather),
            arithmetic::steady2(*divide),
            y <= color.height,
            pixels@.len() == y * color.width,
            forall|a: int, b: int|
                0 <= a < color.width && 0 <= b < y ==> #[trigger] pixels@[b * color.width + a]
                    == bilateral_at(
                    *gather,
                    *divide,
                    *color,
                    normal,
                    albedo,
                    params,
                    a,
                    b,
                ),
        decreases color.height - y,
    {
        let mut x: u32 = 0;
        while x < color.width
            invariant
                color.wf(),
                color.width * color.height > 0 ==> usable(normal) && usable(albedo),
                color.width + reach(params.radius) <= i32::MAX,
                color.height + reach(params.radius) <= i32::MAX,
                arithmetic::steady2(*gather),
                arithmetic::steady2(*divide),
                y < color.height,
                x <= color.width,
                pixels@.len() == y * color.width + x,
                forall|a: int, b: int|
                    0 <= a < color.width && 0 <= b && (b < y || (b == y && a < x))
                        ==> #[trigger] pixels@[b * color.width + a] == bilateral_at(
                        *gather,
                        *divide,
                        *color,
                        normal,
                        albedo,
                        params,
                        a,
                        b,
                    ),
            decreases color.width - x,
        {
            proof {
                assert(color.width * color.height > 0) by (nonlinear_arith)
                    requires
                        color.width > 0,
                        color.height > 0,
                ;
            }
            let ghost before = pixels@;
            let p: Vec3 = bilateral_pixel(
                color,
                normal,
                albedo,
                params,
                x as i32,
                y as i32,
                gather,
                divide,
            );
            pixels.push(p);
            proof {
                assert forall|a: int, b: int|
                    0 <= a < color.width && 0 <= b && (b < y || (b == y && a < x + 1)) implies
                    #[trigger] pixels@[b * color.width + a] == bilateral_at(
                    *gather,
                    *divide,
                    *color,
                    normal,
                    albedo,
                    params,
                    a,
                    b,
                ) by {
                    place_before(color.width as int, a, b, x as int, y as int);
                    if b < y || a < x {
                        assert(pixels@[b * color.width + a] == before[b * color.width + a]);
                    }
                }
            }
            x = x + 1;
        }
        proof {
            assert((y + 1) * color.width == y * color.width + color.width) by (nonlinear_arith);
        }
        y = y + 1;
    }
    let r = ImageRgb { width: color.width, height: color.height, pixels };
    proof {
        assert(color.height * color.width == color.width * color.height) by (nonlinear_arith);
        assert forall|x: int, y: int| 0 <= x < color.width && 0 <= y < color.height implies
            #[trigger] r.at(x, y) == bilateral_at(
            *gather,
            *divide,
            *color,
            normal,
            albedo,
            params,
            x,
            y,
        ) by {
            assert(r.at(x, y) == r.pixels@[y * color.width + x]);
        }
    }
    r
}

/// Pixels before another, row by row, stand before it.
proof fn place_before(width: int, a: int, b: int, x: int, y: int)
    requires
        0 <= a < width,
        0 <= x < width,
        0 <= b,
        b < y || (b == y && a <= x),
    ensures
        0 <= b * width + a <= y * width + x,
        b * width + a == y * width + x ==> a == x && b == y,
{
    assert(0 <= b * width) by (nonlinear_arith)
        requires
            b >= 0,
            width >= 0,
    ;
    if b < y {
        assert(b * width + width <= y * width) by (nonlinear_arith)
            requires
                b + 1 <= y,
                width >= 0,
        ;
    }
}

/// The difference of two patches, pixel by pixel, after the first `n`.
pub open spec fn patch_difference<P: Fn(Single, Vec3, Vec3) -> Single>(
    differ: P,
    color: ImageRgb,
    x: int,
    y: int,
    u: int,
    v: int,
    r: int,
    n: nat,
) -> Single
    decreases n,
{
    if n == 0 {
        Single { bits: 0 }
    } else {
        arithmetic::applied3(
            differ,
            patch_difference(differ, color, x, y, u, v, r, (n - 1) as nat),
            color.at(x + step_x(r, n - 1), y + step_y(r, n - 1)),
            color.at(u + step_x(r, n - 1), v + step_y(r, n - 1)),
        )
    }
}

/// The weighted sum over the pixels around one, after the first `n`: each counts by
/// the difference of its patch.
pub open spec fn nlm_tallied<
    P: Fn(Single, Vec3, Vec3) -> Single,
    W: Fn(Tally, Likeness) -> Tally,
>(
    differ: P,
    weigh: W,
    color: ImageRgb,
    params: NlmParams,
    x: int,
    y: int,
    n: nat,
) -> Tally
    decreases n,
{
    if n == 0 {
        no_tally()
    } else {
        let search = reach(params.search_radius);
        let patch = reach(params.patch_radius);
        let u = x + step_x(search, n - 1);
        let v = y + step_y(search, n - 1);
        arithmetic::applied2(
            weigh,
            nlm_tallied(differ, weigh, color, params, x, y, (n - 1) as nat),
            Likeness {
                params,
                difference: patch_difference(differ, color, x, y, u, v, patch, walk(patch)),
                color: color.at(u, v),
            },
        )
    }
}

/// One pixel under the non-local means filter.
pub open spec fn nlm_at<
    P: Fn(Single, Vec3, Vec3) -> Single,
    W: Fn(Tally, Likeness) -> Tally,
    D: Fn(Vec3, Single) -> Vec3,
>(
    differ: P,
    weigh: W,
    divide: D,
    color: ImageRgb,
    params: NlmParams,
    x: int,
    y: int,
) -> Vec3 {
    settled(
        divide,
        nlm_tallied(differ, weigh, color, params, x, y, walk(reach(params.search_radius))),
        color.at(x, y),
    )
}

fn patch_distance<P: Fn(Single, Vec3, Vec3) -> Single>(
    color: &ImageRgb,
    x: i32,
    y: i32,
    u: i32,
    v: i32,
    r: i32,
    differ: &P,
) -> (d: Single)
    requires
        color.wf(),
        color.addressable(),
        r >= 0,
        r <= x + r <= i32::MAX,
        r <= y + r <= i32::MAX,
        i32::MIN <= u - r,
        u + r <= i32::MAX,
        i32::MIN <= v - r,
        v + r <= i32::MAX,
        2 * r + 1 <= i32::MAX,
        arithmetic::steady3(*differ),
    ensures
        d == patch_difference(
            *differ,
            *color,
            x as int,
            y as int,
            u as int,
            v as int,
            r as int,
            walk(r as int),
        ),
{
    let mut total: Single = Single::zero();
    let ghost side = 2 * r + 1;
    let ghost mut k: int = 0;
    let mut py: i32 = -r;
    proof {
        assert(0 * side == 0) by (nonlinear_arith);
    }
    while py <= r
        invariant
            color.wf(),
            color.addressable(),
            r >= 0,
            r <= x + r <= i32::MAX,
            r <= y + r <= i32::MAX,
            i32::MIN <= u - r,
            u + r <= i32::MAX,
            i32::MIN <= v - r,
            v + r <= i32::MAX,
            2 * r + 1 <= i32::MAX,
            arithmetic::steady3(*differ),
            side == 2 * r + 1,
            -r <= py <= r + 1,
            k == (py + r) * side,
            k >= 0,
            total == patch_difference(
                *differ,
                *color,
                x as int,
                y as int,
                u as int,
                v as int,
                r as int,
                k as nat,
            ),
        decreases r + 1 - py,
    {
        let mut px: i32 = -r;
        while px <= r
            invariant
                color.wf(),
                color.addressable(),
                r >= 0,
                r <= x + r <= i32::MAX,
                r <= y + r <= i32::MAX,
                i32::MIN <= u - r,
                u + r <= i32::MAX,
                i32::MIN <= v - r,
                v + r <= i32::MAX,
                2 * r + 1 <= i32::MAX,
                arithmetic::steady3(*differ),
                side == 2 * r + 1,
                -r <= py <= r,
                -r <= px <= r + 1,
                k == (py + r) * side + (px + r),
                k >= 0,
                total == patch_difference(
                    *differ,
                    *color,
                    x as int,
                    y as int,
                    u as int,
                    v as int,
                    r as int,
                    k as nat,
                ),
            decreases r + 1 - px,
        {
            proof {
                vstd::arithmetic::div_mod::lemma_fundamental_div_mod_converse(
                    k,
                    side,
                    py + r,
                    px + r,
                );
            }
            let here: Vec3 = color.pixel(x + px, y + py);
            let there: Vec3 = color.pixel(u + px, v + py);
            total = differ(total, here, there);
            proof {
                k = k + 1;
            }
            px = px + 1;
        }
        proof {
            assert((py + 1 + r) * side == (py + r) * side + side) by (nonlinear_arith);
        }
        py = py + 1;
    }
    total
}

/// Filters one pixel.
pub fn nlm_pixel<
    P: Fn(Single, Vec3, Vec3) -> Single,
    W: Fn(Tally, Likeness) -> Tally,
    D: Fn(Vec3, Single) -> Vec3,
>(
    color: &ImageRgb,
    params: NlmParams,
    x: i32,
    y: i32,
    differ: &P,
    weigh: &W,
    divide: &D,
) -> (p: Vec3)
    requires
        color.wf(),
        color.addressable(),
        0 <= x < color.width,
        0 <= y < color.height,
        color.width + reach(params.search_radius) + 2 * reach(params.patch_radius) < i32::MAX,
        color.height + reach(params.search_radius) + 2 * reach(params.patch_radius) < i32::MAX,
        arithmetic::steady3(*differ),
        arithmetic::steady2(*weigh),
        arithmetic::steady2(*divide),
    ensures
        p == nlm_at(*differ, *weigh, *divide, *color, params, x as int, y as int),
{
    let s: i32 = if params.search_radius < 0 {
        0
    } else {
        params.search_radius
    };
    let r: i32 = if params.patch_radius < 0 {
        0
    } else {
        params.patch_radius
    };
    let mut tally: Tally = empty_tally();
    let ghost side = 2 * s + 1;
    let ghost mut k: int = 0;
    let mut dy: i32 = -s;
    proof {
        assert(0 * side == 0) by (nonlinear_arith);
    }
    while dy <= s
        invariant
            color.wf(),
            color.addressable(),
            0 <= x < color.width,
            0 <= y < color.height,
            s == reach(params.search_radius),
            r == reach(params.patch_radius),
            color.width + s + 2 * r < i32::MAX,
            color.height + s + 2 * r < i32::MAX,
            arithmetic::steady3(*differ),
            arithmetic::steady2(*weigh),
            side == 2 * s + 1,
            -s <= dy <= s + 1,
            k == (dy + s) * side,
            k >= 0,
            tally == nlm_tallied(
                *differ,
                *weigh,
                *color,
                params,
                x as int,
                y as int,
                k as nat,
            ),
        decreases s + 1 - dy,
    {
        let mut dx: i32 = -s;
        while dx <= s
            invariant
                color.wf(),
                color.addressable(),
                0 <= x < color.width,
                0 <= y < color.height,
                s == reach(params.search_radius),
                r == reach(params.patch_radius),
                color.width + s + 2 * r < i32::MAX,
                color.height + s + 2 * r < i32::MAX,
                arithmetic::steady3(*differ),
                arithmetic::steady2(*weigh),
                side == 2 * s + 1,
                -s <= dy <= s,
                -s <= dx <= s + 1,
                k == (dy + s) * side + (dx + s),
                k >= 0,
                tally == nlm_tallied(
                    *differ,
                    *weigh,
                    *color,
                    params,
                    x as int,
                    y as int,
                    k as nat,
                ),
            decreases s + 1 - dx,
        {
            proof {
                vstd::arithmetic::div_mod::lemma_fundamental_div_mod_converse(
                    k,
                    side,
                    dy + s,
                    dx + s,
                );
            }
            let distance: Single = patch_distance(color, x, y, x + dx, y + dy, r, differ);
            let sample: Vec3 = color.pixel(x + dx, y + dy);
            tally = weigh(tally, Likeness { params, difference: distance, color: sample });
            proof {
                k = k + 1;
            }
            dx = dx + 1;
        }
        proof {
            assert((dy + 1 + s) * side == (dy + s) * side + side) by (nonlinear_arith);
        }
        dy = dy + 1;
    }
    settle(divide, tally, color.pixel(x, y))
}

/// The non-local means filter: the weight of a pixel falls with the difference
/// between its patch and that of the middle.
///
/// `differ` adds the difference of two colors to a sum, `weigh` adds a color to a
/// sum with the weight of its likeness, and `divide` divides a color by a number.
pub fn nlm_denoise<
    P: Fn(Single, Vec3, Vec3) -> Single,
    W: Fn(Tally, Likeness) -> Tally,
    D: Fn(Vec3, Single) -> Vec3,
>(color: &ImageRgb, params: NlmParams, differ: &P, weigh: &W, divide: &D) -> (p: ImageRgb)
    requires
        color.wf(),
        color.width + reach(params.search_radius) + 2 * reach(params.patch_radius) < i32::MAX,
        color.height + reach(params.search_radius) + 2 * reach(params.patch_radius) < i32::MAX,
        arithmetic::steady3(*differ),
        arithmetic::steady2(*weigh),
        arithmetic::steady2(*divide),
    ensures
        p.wf(),
        p.width == color.width,
        p.height == color.height,
        forall|x: int, y: int|
            0 <= x < color.width && 0 <= y < color.height ==> #[trigger] p.at(x, y) == nlm_at(
                *differ,
                *weigh,
                *divide,
                *color,
                params,
                x,
                y,
            ),
{
    let mut pixels: Vec<Vec3> = Vec::new();
    let mut y: u32 = 0;
    proof {
        assert(0 * color.width == 0) by (nonlinear_arith);
    }
    while y < color.height
        invariant
            color.wf(),
            color.width + reach(params.search_radius) + 2 * reach(params.patch_radius) < i32::MAX,
            color.height + reach(params.search_radius) + 2 * reach(params.patch_radius) < i32::MAX,
            arithmetic::steady3(*differ),
            arithmetic::steady2(*weigh),
            arithmetic::steady2(*divide),
            y <= color.height,
            pixels@.len() == y * color.width,
            forall|a: int, b: int|
                0 <= a < color.width && 0 <= b < y ==> #[trigger] pixels@[b * color.width + a]
                    == nlm_at(*differ, *weigh, *divide, *color, params, a, b),
        decreases color.height - y,
    {
        let mut x: u32 = 0;
        while x < color.width
            invariant
                color.wf(),
                color.width + reach(params.search_radius) + 2 * reach(params.patch_radius)
                    < i32::MAX,
                color.height + reach(params.search_radius) + 2 * reach(params.patch_radius)
                    < i32::MAX,
                arithmetic::steady3(*differ),
                arithmetic::steady2(*weigh),
                arithmetic::steady2(*divide),
                y < color.height,
                x <= color.width,
                pixels@.len() == y * color.width + x,
                forall|a: int, b: int|
                    0 <= a < color.width && 0 <= b && (b < y || (b == y && a < x))
                        ==> #[trigger] pixels@[b * color.width + a] == nlm_at(
                        *differ,
                        *weigh,
                        *divide,
                        *color,
                        params,
                        a,
                        b,
                    ),
            decreases color.width - x,
        {
            let ghost before = pixels@;
            let p: Vec3 = nlm_pixel(color, params, x as i32, y as i32, differ, weigh, divide);
            pixels.push(p);
            proof {
                assert forall|a: int, b: int|
                    0 <= a < color.width && 0 <= b && (b < y || (b == y && a < x + 1)) implies
                    #[trigger] pixels@[b * color.width + a] == nlm_at(
                    *differ,
                    *weigh,
                    *divide,
                    *color,
                    params,
                    a,
                    b,
                ) by {
                    place_before(color.width as int, a, b, x as int, y as int);
                    if b < y || a < x {
                        assert(pixels@[b * color.width + a] == before[b * color.width + a]);
                    }
                }
            }
            x = x + 1;
        }
        proof {
            assert((y + 1) * color.width == y * color.width + color.width) by (nonlinear_arith);
        }
        y = y + 1;
    }
    let r = ImageRgb { width: color.width, height: color.height, pixels };
    proof {
        assert(color.height * color.width == color.width * color.height) by (nonlinear_arith);
        assert forall|x: int, y: int| 0 <= x < color.width && 0 <= y < color.height implies
            #[trigger] r.at(x, y) == nlm_at(*differ, *weigh, *divide, *color, params, x, y) by {
            assert(r.at(x, y) == r.pixels@[y * color.width + x]);
        }
    }
    r
}

#[derive(Clone, Copy, Debug, PartialEq, Eq, Structural)]
pub enum Denoiser {
    /// The joint bilateral filter.
    Bilateral,
    /// The non-local means filter.
    Nlm,
}

/// Samples for each pixel from which on a render is of standard quality.
pub const STANDARD_SAMPLES: u32 = 128;

impl Denoiser {
    /// The filter for a number of samples for each pixel: non-local means for quick
    /// renders, the joint bilateral filter from standard quality on.
    pub fn auto_for_samples(samples: u32) -> (r: Denoiser)
        ensures
            r == if samples < STANDARD_SAMPLES {
                Denoiser::Nlm
            } else {
                Denoiser::Bilateral
            },
    {
        if samples < STANDARD_SAMPLES {
            Denoiser::Nlm
        } else {
            Denoiser::Bilateral
        }
    }

    /// Filters a picture with the default settings of the filter. The normals and
    /// the albedo guide the joint bilateral filter alone.
    pub fn apply<
        G: Fn(Tally, Tap) -> Tally,
        P: Fn(Single, Vec3, Vec3) -> Single,
        W: Fn(Tally, Likeness) -> Tally,
        D: Fn(Vec3, Single) -> Vec3,
    >(
        self,
        color: &ImageRgb,
        normal: Option<&ImageRgb>,
        albedo: Option<&ImageRgb>,
        gather: &G,
        differ: &P,
        weigh: &W,
        divide: &D,
    ) -> (p: ImageRgb)
        requires
            color.wf(),
            self == Denoiser::Bilateral && color.width * color.height > 0 ==> usable(normal)
                && usable(albedo),
            color.width + 5 < i32::MAX,
            color.height + 5 < i32::MAX,
            arithmetic::steady2(*gather),
            arithmetic::steady3(*differ),
            arithmetic::steady2(*weigh),
            arithmetic::steady2(*divide),
        ensures
            p.wf(),
            p.width == color.width,
            p.height == color.height,
            forall|x: int, y: int|
                0 <= x < color.width && 0 <= y < color.height ==> #[trigger] p.at(x, y)
                    == match self {
                    Denoiser::Bilateral => bilateral_at(
                        *gather,
                        *divide,
                        *color,
                        normal,
                        albedo,
                        usual_bilateral(),
                        x,
                        y,
                    ),
                    Denoiser::Nlm => nlm_at(
                        *differ,
                        *weigh,
                        *divide,
                        *color,
                        usual_nlm(),
                        x,
                        y,
                    ),
                },
    {
        match self {
            Denoiser::Bilateral => bilateral_denoise(
                color,
                normal,
                albedo,
                BilateralParams::default(),
                gather,
                divide,
            ),
            Denoiser::Nlm => nlm_denoise(color, NlmParams::default(), differ, weigh, divide),
        }
    }
}

/// A place inside of a picture is its own nearest place, and every place has a
/// nearest one inside.
pub proof fn nearest_place_is_inside(image: ImageRgb, x: int, y: int)
    requires
        image.wf(),
        image.addressable(),
    ensures
        0 <= image.place(x, y) < image.pixels@.len(),
        0 <= x < image.width && 0 <= y < image.height ==> image.place(x, y) == y * image.width + x,
{
    let cy = held(y, 0, image.height - 1);
    assert(0 <= cy * image.width && cy * image.width + image.width <= image.width * image.height)
        by (nonlinear_arith)
        requires
            0 <= cy,
            cy + 1 <= image.height,
    ;
}

/// A pixel inside of a picture is the one that stands there; past an edge it is the one
/// at the edge.
pub proof fn pictures_go_on_past_their_edges(image: ImageRgb, x: int, y: int, far: int)
    requires
        image.wf(),
        image.addressable(),
        0 <= x < image.width,
        0 <= y < image.height,
        far >= 0,
    ensures
        image.at(x, y) == image.pixels@[y * image.width + x],
        image.at(-far, y) == image.pixels@[y * image.width],
        image.at(image.width - 1 + far, y) == image.pixels@[y * image.width + image.width - 1],
        image.at(x, -far) == image.pixels@[x],
        image.at(x, image.height - 1 + far) == image.pixels@[(image.height - 1) * image.width + x],
{
    assert(0 * image.width == 0) by (nonlinear_arith);
}

// ---- what the filters take in ------------------------------------------

/// The ways from the middle of a square of `2 * r + 1` pixels to its pixels, row by row:
/// how far to the right, and how far down.
pub open spec fn around(r: int) -> Seq<(int, int)> {
    Seq::new(
        ((2 * r + 1) * (2 * r + 1)) as nat,
        |k: int| (k % (2 * r + 1) - r, k / (2 * r + 1) - r),
    )
}

/// The ways from the middle of a square lead to each of its pixels, and to each once.
pub proof fn each_pixel_around_comes_once(r: int)
    requires
        r >= 0,
    ensures
        forall|dx: int, dy: int|
            around(r).contains((dx, dy)) <==> -r <= dx <= r && -r <= dy <= r,
        around(r).no_duplicates(),
        around(0) == seq![(0int, 0int)],
{
    let side = 2 * r + 1;
    let all = around(r);
    assert(side * side >= 0) by (nonlinear_arith);
    assert forall|dx: int, dy: int| -r <= dx <= r && -r <= dy <= r implies all.contains(
        (dx, dy),
    ) by {
        let k = (dy + r) * side + (dx + r);
        vstd::arithmetic::div_mod::lemma_fundamental_div_mod_converse(k, side, dy + r, dx + r);
        assert(0 <= k < side * side) by (nonlinear_arith)
            requires
                k == (dy + r) * side + (dx + r),
                0 <= dy + r < side,
                0 <= dx + r < side,
        ;
        assert(all[k] == (dx, dy));
    }
    assert forall|k: int| 0 <= k < all.len() implies -r <= (#[trigger] all[k]).0 <= r && -r
        <= all[k].1 <= r by {
        vstd::arithmetic::div_mod::lemma_fundamental_div_mod(k, side);
        assert(0 <= k / side < side) by (nonlinear_arith)
            requires
                0 <= k < side * side,
                k == side * (k / side) + k % side,
                0 <= k % side < side,
        ;
    }
    assert forall|i: int, j: int| 0 <= i < all.len() && 0 <= j < all.len() && i != j implies all[i]
        != all[j] by {
        vstd::arithmetic::div_mod::lemma_fundamental_div_mod(i, side);
        vstd::arithmetic::div_mod::lemma_fundamental_div_mod(j, side);
    }
    let none: int = 0;
    assert((2 * none + 1) * (2 * none + 1) == 1) by (nonlinear_arith)
        requires
            none == 0,
    ;
    assert(around(none) =~= seq![(0int, 0int)]);
}

/// The difference of two patches goes through the pixels around the one middle and those
/// as far from the other, each pixel of the one against its own in the other, and each
/// pair once.
pub proof fn patches_differ_pixel_by_pixel<P: Fn(Single, Vec3, Vec3) -> Single>(
    differ: P,
    color: ImageRgb,
    x: int,
    y: int,
    u: int,
    v: int,
    r: int,
)
    requires
        r >= 0,
    ensures
        patch_difference(differ, color, x, y, u, v, r, walk(r)) == around(r).fold_left(
            Single { bits: 0 },
            |d: Single, way: (int, int)|
                arithmetic::applied3(
                    differ,
                    d,
                    color.at(x + way.0, y + way.1),
                    color.at(u + way.0, v + way.1),
                ),
        ),
        r == 0 ==> patch_difference(differ, color, x, y, u, v, r, walk(r))
            == arithmetic::applied3(
            differ,
            Single { bits: 0 },
            color.at(x, y),
            color.at(u, v),
        ),
{
    patch_difference_so_far(differ, color, x, y, u, v, r, walk(r));
    assert(around(r).take(walk(r) as int) =~= around(r));
    if r == 0 {
        assert((2 * r + 1) * (2 * r + 1) == 1) by (nonlinear_arith)
            requires
                r == 0,
        ;
        assert(patch_difference(differ, color, x, y, u, v, 0, 0).bits == 0);
        assert(patch_difference(differ, color, x, y, u, v, 0, 1) == arithmetic::applied3(
            differ,
            Single { bits: 0 },
            color.at(x, y),
            color.at(u, v),
        ));
    }
}

proof fn patch_difference_so_far<P: Fn(Single, Vec3, Vec3) -> Single>(
    differ: P,
    color: ImageRgb,
    x: int,
    y: int,
    u: int,
    v: int,
    r: int,
    n: nat,
)
    requires
        r >= 0,
        n <= walk(r),
    ensures
        patch_difference(differ, color, x, y, u, v, r, n) == around(r).take(n as int).fold_left(
            Single { bits: 0 },
            |d: Single, way: (int, int)|
                arithmetic::applied3(
                    differ,
                    d,
                    color.at(x + way.0, y + way.1),
                    color.at(u + way.0, v + way.1),
                ),
        ),
    decreases n,
{
    assert((2 * r + 1) * (2 * r + 1) >= 0) by (nonlinear_arith);
    if n > 0 {
        patch_difference_so_far(differ, color, x, y, u, v, r, (n - 1) as nat);
        assert(around(r).take(n as int).drop_last() =~= around(r).take(n - 1));
        assert(around(r).take(n as int).last() == (step_x(r, n - 1), step_y(r, n - 1)));
    }
}

/// A patch does not differ from itself, and differs from every patch that has another
/// pixel somewhere, where a difference once found is not lost again. `some` says which
/// sums stand for a difference.
pub proof fn patches_differ_where_a_pixel_does<P: Fn(Single, Vec3, Vec3) -> Single>(
    differ: P,
    color: ImageRgb,
    x: int,
    y: int,
    u: int,
    v: int,
    r: int,
    some: spec_fn(Single) -> bool,
)
    requires
        r >= 0,
        !some(Single { bits: 0 }),
        forall|i: int, j: int, d: Single|
            ({
                let p = color.at(x + i, y + j);
                let q = color.at(u + i, v + j);
                let after = #[trigger] arithmetic::applied3(
                    differ,
                    d,
                    color.at(x + i, y + j),
                    color.at(u + i, v + j),
                );
                &&& p == q && d.bits == 0 ==> after.bits == 0
                &&& p != q && (some(d) || d.bits == 0) ==> some(after)
                &&& some(d) ==> some(after)
            }),
    ensures
        some(patch_difference(differ, color, x, y, u, v, r, walk(r))) <==> exists|i: int, j: int|
            -r <= i <= r && -r <= j <= r && #[trigger] color.at(x + i, y + j) != color.at(
                u + i,
                v + j,
            ),
        !some(patch_difference(differ, color, x, y, u, v, r, walk(r))) ==> patch_difference(
            differ,
            color,
            x,
            y,
            u,
            v,
            r,
            walk(r),
        ).bits == 0,
{
    patches_differ_so_far(differ, color, x, y, u, v, r, walk(r), some);
    each_pixel_around_comes_once(r);
    if exists|i: int, j: int|
        -r <= i <= r && -r <= j <= r && #[trigger] color.at(x + i, y + j) != color.at(
            u + i,
            v + j,
        ) {
        let (i, j) = choose|i: int, j: int|
            -r <= i <= r && -r <= j <= r && #[trigger] color.at(x + i, y + j) != color.at(
                u + i,
                v + j,
            );
        assert(around(r).contains((i, j)));
        let k = choose|k: int| 0 <= k < around(r).len() && around(r)[k] == (i, j);
        assert(step_x(r, k) == i && step_y(r, k) == j);
    }
    if some(patch_difference(differ, color, x, y, u, v, r, walk(r))) {
        let k = choose|k: int|
            0 <= k < walk(r) && color.at(x + #[trigger] step_x(r, k), y + step_y(r, k))
                != color.at(u + step_x(r, k), v + step_y(r, k));
        assert(around(r)[k] == (step_x(r, k), step_y(r, k)));
        assert(around(r).contains((step_x(r, k), step_y(r, k))));
    }
}

proof fn patches_differ_so_far<P: Fn(Single, Vec3, Vec3) -> Single>(
    differ: P,
    color: ImageRgb,
    x: int,
    y: int,
    u: int,
    v: int,
    r: int,
    n: nat,
    some: spec_fn(Single) -> bool,
)
    requires
        r >= 0,
        n <= walk(r),
        !some(Single { bits: 0 }),
        forall|i: int, j: int, d: Single|
            ({
                let p = color.at(x + i, y + j);
                let q = color.at(u + i, v + j);
                let after = #[trigger] arithmetic::applied3(
                    differ,
                    d,
                    color.at(x + i, y + j),
                    color.at(u + i, v + j),
                );
                &&& p == q && d.bits == 0 ==> after.bits == 0
                &&& p != q && (some(d) || d.bits == 0) ==> some(after)
                &&& some(d) ==> some(after)
            }),
    ensures
        some(patch_difference(differ, color, x, y, u, v, r, n)) <==> exists|k: int|
            0 <= k < n && color.at(x + #[trigger] step_x(r, k), y + step_y(r, k)) != color.at(
                u + step_x(r, k),
                v + step_y(r, k),
            ),
        !some(patch_difference(differ, color, x, y, u, v, r, n)) ==> patch_difference(
            differ,
            color,
            x,
            y,
            u,
            v,
            r,
            n,
        ).bits == 0,
    decreases n,
{
    if n > 0 {
        patches_differ_so_far(differ, color, x, y, u, v, r, (n - 1) as nat, some);
        let i = step_x(r, n - 1);
        let j = step_y(r, n - 1);
        let d = patch_difference(differ, color, x, y, u, v, r, (n - 1) as nat);
        let after = arithmetic::applied3(
            differ,
            d,
            color.at(x + i, y + j),
            color.at(u + i, v + j),
        );
        assert(after == patch_difference(differ, color, x, y, u, v, r, n));
    }
}

/// Non-local means takes in the pixels around one, each once, each by how its own patch
/// differs from that of the middle, and keeps a pixel as it is only where nothing had
/// weight.
pub proof fn likeness_weighs_each_pixel_around<
    P: Fn(Single, Vec3, Vec3) -> Single,
    W: Fn(Tally, Likeness) -> Tally,
    D: Fn(Vec3, Single) -> Vec3,
>(differ: P, weigh: W, divide: D, color: ImageRgb, params: NlmParams, x: int, y: int)
    ensures
        ({
            let search = reach(params.search_radius);
            let patch = reach(params.patch_radius);
            let t = around(search).fold_left(
                Tally { sum: geometry::zeros(), weight: Single { bits: 0 } },
                |t: Tally, way: (int, int)|
                    arithmetic::applied2(
                        weigh,
                        t,
                        Likeness {
                            params,
                            difference: patch_difference(
                                differ,
                                color,
                                x,
                                y,
                                x + way.0,
                                y + way.1,
                                patch,
                                walk(patch),
                            ),
                            color: color.at(x + way.0, y + way.1),
                        },
                    ),
            );
            nlm_at(differ, weigh, divide, color, params, x, y) == if t.weight.at_most(
                Single { bits: 0x2edb_e6ff },  // 1e-10
            ) {
                color.at(x, y)
            } else {
                arithmetic::applied2(divide, t.sum, t.weight)
            }
        }),
{
    let search = reach(params.search_radius);
    likeness_so_far(differ, weigh, color, params, x, y, walk(search));
    assert(around(search).take(walk(search) as int) =~= around(search));
}

proof fn likeness_so_far<P: Fn(Single, Vec3, Vec3) -> Single, W: Fn(Tally, Likeness) -> Tally>(
    differ: P,
    weigh: W,
    color: ImageRgb,
    params: NlmParams,
    x: int,
    y: int,
    n: nat,
)
    requires
        n <= walk(reach(params.search_radius)),
    ensures
        nlm_tallied(differ, weigh, color, params, x, y, n) == around(
            reach(params.search_radius),
        ).take(n as int).fold_left(
            Tally { sum: geometry::zeros(), weight: Single { bits: 0 } },
            |t: Tally, way: (int, int)|
                arithmetic::applied2(
                    weigh,
                    t,
                    Likeness {
                        params,
                        difference: patch_difference(
                            differ,
                            color,
                            x,
                            y,
                            x + way.0,
                            y + way.1,
                            reach(params.patch_radius),
                            walk(reach(params.patch_radius)),
                        ),
                        color: color.at(x + way.0, y + way.1),
                    },
                ),
        ),
    decreases n,
{
    let r = reach(params.search_radius);
    assert((2 * r + 1) * (2 * r + 1) >= 0) by (nonlinear_arith);
    if n > 0 {
        likeness_so_far(differ, weigh, color, params, x, y, (n - 1) as nat);
        assert(around(r).take(n as int).drop_last() =~= around(r).take(n - 1));
        assert(around(r).take(n as int).last() == (step_x(r, n - 1), step_y(r, n - 1)));
    }
}

/// The joint bilateral filter takes in the pixels around one, each once, each with its own
/// color, normal and albedo beside those of the middle, and keeps a pixel as it is only
/// where nothing had weight.
pub proof fn each_pixel_around_is_tapped_once<
    G: Fn(Tally, Tap) -> Tally,
    D: Fn(Vec3, Single) -> Vec3,
>(
    gather: G,
    divide: D,
    color: ImageRgb,
    normal: Option<&ImageRgb>,
    albedo: Option<&ImageRgb>,
    params: BilateralParams,
    x: int,
    y: int,
)
    ensures
        ({
            let center = Guided {
                color: color.at(x, y),
                normal: if normal is Some {
                    Some(normal->0.at(x, y))
                } else {
                    None
                },
                albedo: if albedo is Some {
                    Some(albedo->0.at(x, y))
                } else {
                    None
                },
            };
            let t = around(reach(params.radius)).fold_left(
                Tally { sum: geometry::zeros(), weight: Single { bits: 0 } },
                |t: Tally, way: (int, int)|
                    arithmetic::applied2(
                        gather,
                        t,
                        Tap {
                            params,
                            dx: way.0 as i32,
                            dy: way.1 as i32,
                            center,
                            sample: Guided {
                                color: color.at(x + way.0, y + way.1),
                                normal: if normal is Some {
                                    Some(normal->0.at(x + way.0, y + way.1))
                                } else {
                                    None
                                },
                                albedo: if albedo is Some {
                                    Some(albedo->0.at(x + way.0, y + way.1))
                                } else {
                                    None
                                },
                            },
                        },
                    ),
            );
            bilateral_at(gather, divide, color, normal, albedo, params, x, y)
                == if t.weight.at_most(Single { bits: 0x2edb_e6ff }) {  // 1e-10
                color.at(x, y)
            } else {
                arithmetic::applied2(divide, t.sum, t.weight)
            }
        }),
{
    let r = reach(params.radius);
    let f = |t: Tally, way: (int, int)|
        arithmetic::applied2(
            gather,
            t,
            Tap {
                params,
                dx: way.0 as i32,
                dy: way.1 as i32,
                center: Guided {
                    color: color.at(x, y),
                    normal: if normal is Some {
                        Some(normal->0.at(x, y))
                    } else {
                        None
                    },
                    albedo: if albedo is Some {
                        Some(albedo->0.at(x, y))
                    } else {
                        None
                    },
                },
                sample: Guided {
                    color: color.at(x + way.0, y + way.1),
                    normal: if normal is Some {
                        Some(normal->0.at(x + way.0, y + way.1))
                    } else {
                        None
                    },
                    albedo: if albedo is Some {
                        Some(albedo->0.at(x + way.0, y + way.1))
                    } else {
                        None
                    },
                },
            },
        );
    taps_so_far(gather, color, normal, albedo, params, x, y, walk(r), f);
    assert(around(r).take(walk(r) as int) =~= around(r));
}

proof fn taps_so_far<G: Fn(Tally, Tap) -> Tally>(
    gather: G,
    color: ImageRgb,
    normal: Option<&ImageRgb>,
    albedo: Option<&ImageRgb>,
    params: BilateralParams,
    x: int,
    y: int,
    n: nat,
    f: spec_fn(Tally, (int, int)) -> Tally,
)
    requires
        n <= walk(reach(params.radius)),
        forall|t: Tally, k: int|
            0 <= k < walk(reach(params.radius)) ==> f(
                t,
                (step_x(reach(params.radius), k), step_y(reach(params.radius), k)),
            ) == #[trigger] arithmetic::applied2(
                gather,
                t,
                tap_at(color, normal, albedo, params, x, y, k),
            ),
    ensures
        tallied(gather, color, normal, albedo, params, x, y, n) == around(
            reach(params.radius),
        ).take(n as int).fold_left(
            Tally { sum: geometry::zeros(), weight: Single { bits: 0 } },
            f,
        ),
    decreases n,
{
    let r = reach(params.radius);
    assert((2 * r + 1) * (2 * r + 1) >= 0) by (nonlinear_arith);
    if n > 0 {
        taps_so_far(gather, color, normal, albedo, params, x, y, (n - 1) as nat, f);
        assert(around(r).take(n as int).drop_last() =~= around(r).take(n - 1));
        assert(around(r).take(n as int).last() == (step_x(r, n - 1), step_y(r, n - 1)));
        let t = tallied(gather, color, normal, albedo, params, x, y, (n - 1) as nat);
        let tap = tap_at(color, normal, albedo, params, x, y, n - 1);
        assert(f(t, (step_x(r, n - 1), step_y(r, n - 1))) == arithmetic::applied2(gather, t, tap));
    }
}

/// A picture of one color stays as it is under non-local means, where weighing that color
/// alone never leads away from it. `even` says which sums are of that color alone.
pub proof fn one_color_stays<
    P: Fn(Single, Vec3, Vec3) -> Single,
    W: Fn(Tally, Likeness) -> Tally,
    D: Fn(Vec3, Single) -> Vec3,
>(
    differ: P,
    weigh: W,
    divide: D,
    color: ImageRgb,
    params: NlmParams,
    x: int,
    y: int,
    c: Vec3,
    even: spec_fn(Tally) -> bool,
)
    requires
        color.wf(),
        color.addressable(),
        forall|i: int| 0 <= i < color.pixels@.len() ==> #[trigger] color.pixels@[i] == c,
        even(Tally { sum: geometry::zeros(), weight: Single { bits: 0 } }),
        forall|t: Tally, l: Likeness|
            even(t) && l.color == c ==> even(#[trigger] arithmetic::applied2(weigh, t, l)),
        forall|t: Tally|
            even(t) && !t.weight.at_most(Single { bits: 0x2edb_e6ff })
                ==> #[trigger] arithmetic::applied2(divide, t.sum, t.weight) == c,
    ensures
        nlm_at(differ, weigh, divide, color, params, x, y) == c,
{
    nearest_place_is_inside(color, x, y);
    even_sums_stay_even(differ, weigh, color, params, x, y, walk(reach(params.search_radius)), c, even);
}

proof fn even_sums_stay_even<
    P: Fn(Single, Vec3, Vec3) -> Single,
    W: Fn(Tally, Likeness) -> Tally,
>(
    differ: P,
    weigh: W,
    color: ImageRgb,
    params: NlmParams,
    x: int,
    y: int,
    n: nat,
    c: Vec3,
    even: spec_fn(Tally) -> bool,
)
    requires
        color.wf(),
        color.addressable(),
        forall|i: int| 0 <= i < color.pixels@.len() ==> #[trigger] color.pixels@[i] == c,
        even(Tally { sum: geometry::zeros(), weight: Single { bits: 0 } }),
        forall|t: Tally, l: Likeness|
            even(t) && l.color == c ==> even(#[trigger] arithmetic::applied2(weigh, t, l)),
    ensures
        even(nlm_tallied(differ, weigh, color, params, x, y, n)),
    decreases n,
{
    if n > 0 {
        even_sums_stay_even(differ, weigh, color, params, x, y, (n - 1) as nat, c, even);
        let r = reach(params.search_radius);
        nearest_place_is_inside(color, x + step_x(r, n - 1), y + step_y(r, n - 1));
    }
}

impl<
    L: Fn(Vec3) -> Single,
    P: Fn(Single, Single) -> Single,
    M: Fn(Single, usize) -> Single,
    Q: Fn(Single, Single) -> Single,
    V: Fn(Single, usize) -> Single,
> LumaArithmetic<L, P, M, Q, V> {
    /// The variance of the brightness of pixels takes in every pixel: first for the mean,
    /// then, each against that mean, for the spread.
    pub proof fn every_pixel_varies(&self, pixels: Seq<Vec3>)
        ensures
            ({
                let lumas = pixels.map_values(|p: Vec3| arithmetic::applied(self.luma, p));
                let join = |sum: Single, v: Single| arithmetic::applied2(self.plus, sum, v);
                let mean = arithmetic::applied2(
                    self.mean,
                    lumas.fold_left(Single { bits: 0 }, join),
                    pixels.len() as usize,
                );
                let squares = lumas.map_values(
                    |v: Single| arithmetic::applied2(self.square, v, mean),
                );
                self.variance(pixels) == arithmetic::applied2(
                    self.spread,
                    squares.fold_left(Single { bits: 0 }, join),
                    pixels.len() as usize,
                )
            }),
    {
        let lumas = pixels.map_values(|p: Vec3| arithmetic::applied(self.luma, p));
        let join = |sum: Single, v: Single| arithmetic::applied2(self.plus, sum, v);
        self.total_so_far(pixels, lumas, join, pixels.len());
        assert(lumas.take(pixels.len() as int) =~= lumas);
        let mean = arithmetic::applied2(
            self.mean,
            lumas.fold_left(Single { bits: 0 }, join),
            pixels.len() as usize,
        );
        let squares = lumas.map_values(|v: Single| arithmetic::applied2(self.square, v, mean));
        self.squares_so_far(pixels, squares, mean, join, pixels.len());
        assert(squares.take(pixels.len() as int) =~= squares);
    }

    proof fn total_so_far(
        &self,
        pixels: Seq<Vec3>,
        lumas: Seq<Single>,
        join: spec_fn(Single, Single) -> Single,
        n: nat,
    )
        requires
            n <= pixels.len() == lumas.len(),
            forall|i: int|
                0 <= i < lumas.len() ==> #[trigger] lumas[i] == arithmetic::applied(
                    self.luma,
                    pixels[i],
                ),
            forall|a: Single, b: Single| #[trigger]
                join(a, b) == arithmetic::applied2(self.plus, a, b),
        ensures
            self.total(pixels, n) == lumas.take(n as int).fold_left(Single { bits: 0 }, join),
        decreases n,
    {
        if n > 0 {
            self.total_so_far(pixels, lumas, join, (n - 1) as nat);
            assert(lumas.take(n as int).drop_last() =~= lumas.take(n - 1));
        }
    }

    proof fn squares_so_far(
        &self,
        pixels: Seq<Vec3>,
        squares: Seq<Single>,
        mean: Single,
        join: spec_fn(Single, Single) -> Single,
        n: nat,
    )
        requires
            n <= pixels.len() == squares.len(),
            forall|i: int|
                0 <= i < squares.len() ==> #[trigger] squares[i] == arithmetic::applied2(
                    self.square,
                    arithmetic::applied(self.luma, pixels[i]),
                    mean,
                ),
            forall|a: Single, b: Single| #[trigger]
                join(a, b) == arithmetic::applied2(self.plus, a, b),
        ensures
            self.total_of_squares(pixels, mean, n) == squares.take(n as int).fold_left(
                Single { bits: 0 },
                join,
            ),
        decreases n,
    {
        if n > 0 {
            self.squares_so_far(pixels, squares, mean, join, (n - 1) as nat);
            assert(squares.take(n as int).drop_last() =~= squares.take(n - 1));
        }
    }
}

/// The weight of a filtered color times that color is what was gathered, on each channel,
/// where division is exact; a color that gathered next to no weight stays what it was.
pub proof fn filtered_colors_are_what_was_gathered<D: Fn(Vec3, Single) -> Vec3>(
    divide: D,
    t: Tally,
    other: Vec3,
    value: spec_fn(Single) -> int,
)
    requires
        ({
            let d = arithmetic::applied2(divide, t.sum, t.weight);
            &&& value(d.x) * value(t.weight) == value(t.sum.x)
            &&& value(d.y) * value(t.weight) == value(t.sum.y)
            &&& value(d.z) * value(t.weight) == value(t.sum.z)
        }),
    ensures
        ({
            let r = settled(divide, t, other);
            if t.weight.at_most(Single { bits: 0x2edb_e6ff }) {
                r == other
            } else {
                &&& value(r.x) * value(t.weight) == value(t.sum.x)
                &&& value(r.y) * value(t.weight) == value(t.sum.y)
                &&& value(r.z) * value(t.weight) == value(t.sum.z)
            }
        }),
{
}

/// A pixel that a filter finds nothing like stays as it is, under either filter.
pub proof fn lonely_pixels_stay<
    G: Fn(Tally, Tap) -> Tally,
    P: Fn(Single, Vec3, Vec3) -> Single,
    W: Fn(Tally, Likeness) -> Tally,
    D: Fn(Vec3, Single) -> Vec3,
>(
    gather: G,
    differ: P,
    weigh: W,
    divide: D,
    color: ImageRgb,
    normal: Option<&ImageRgb>,
    albedo: Option<&ImageRgb>,
    params: BilateralParams,
    nlm: NlmParams,
    x: int,
    y: int,
)
    ensures
        tallied(
            gather,
            color,
            normal,
            albedo,
            params,
            x,
            y,
            walk(reach(params.radius)),
        ).weight.at_most(Single { bits: 0 }) ==> bilateral_at(
            gather,
            divide,
            color,
            normal,
            albedo,
            params,
            x,
            y,
        ) == color.at(x, y),
        nlm_tallied(
            differ,
            weigh,
            color,
            nlm,
            x,
            y,
            walk(reach(nlm.search_radius)),
        ).weight.at_most(Single { bits: 0 }) ==> nlm_at(differ, weigh, divide, color, nlm, x, y)
            == color.at(x, y),
{
}

/// As usual, the bilateral filter looks at a square of five pixels, and the non-local means
/// filter compares squares of three in a square of seven, both with one tolerance for
/// color. Guides are held to a tighter one.
pub proof fn usual_filters_look_around()
    ensures
        walk(reach(usual_bilateral().radius)) == 25,
        walk(reach(usual_nlm().search_radius)) == 49,
        walk(reach(usual_nlm().patch_radius)) == 9,
        usual_bilateral().sigma_color == usual_nlm().h,
        usual_bilateral().sigma_normal == usual_bilateral().sigma_albedo,
        (Single { bits: 0 }).below(usual_bilateral().sigma_normal),
        usual_bilateral().sigma_normal.below(usual_bilateral().sigma_color),
        usual_bilateral().sigma_color.below(Single { bits: 0x3e4c_cccd }),
        usual_bilateral().sigma_space.integer_part() == usual_bilateral().radius,
{
    vstd::arithmetic::power2::lemma2_to64();
    crate::single::powers_are_their_own_integer_part(usual_bilateral().sigma_space, 1);
    assert(walk(2) == 25) by (nonlinear_arith);
    assert(walk(3) == 49) by (nonlinear_arith);
    assert(walk(1) == 9) by (nonlinear_arith);
}

} // verus!

//! Comparing two pictures: their sizes, and the structural similarity of their
//! brightness, window by window.
use vstd::prelude::*;

use crate::arithmetic;
use crate::single::Single;
use crate::text;

verus! {

#[derive(Clone, Copy, Debug, PartialEq, Eq, Structural)]
pub enum CompareError {
    /// A picture does not have the bytes that its size calls for.
    BufferSize {
        width: u32,
        height: u32,
        expected_bytes: usize,
        a_bytes: usize,
        b_bytes: usize,
    },
    /// The pictures differ in size.
    DimensionMismatch { a_width: u32, a_height: u32, b_width: u32, b_height: u32 },
}

impl CompareError {
    /// What the error says.
    pub open spec fn wording(self) -> Seq<char> {
        match self {
            CompareError::BufferSize { width, height, expected_bytes, a_bytes, b_bytes } =>
                "buffer size mismatch: expected "@ + text::decimal(expected_bytes as nat)
                    + " bytes for "@ + text::decimal(width as nat) + "x"@ + text::decimal(
                    height as nat,
                ) + "x4, got a="@ + text::decimal(a_bytes as nat) + " bytes, b="@ + text::decimal(
                    b_bytes as nat,
                ) + " bytes"@,
            CompareError::DimensionMismatch { a_width, a_height, b_width, b_height } =>
                "dimension mismatch: a="@ + text::decimal(a_width as nat) + "x"@ + text::decimal(
                    a_height as nat,
                ) + ", b="@ + text::decimal(b_width as nat) + "x"@ + text::decimal(
                    b_height as nat,
                ),
        }
    }

    /// What the error says.
    pub fn message(&self) -> (r: String)
        ensures
            r@ == self.wording(),
    {
        match self {
            CompareError::BufferSize { width, height, expected_bytes, a_bytes, b_bytes } => {
                let mut out: String = "buffer size mismatch: expected ".to_owned();
                out.append(text::decimal_text(*expected_bytes as u64).as_str());
                out.append(" bytes for ");
                out.append(text::decimal_text(*width as u64).as_str());
                out.append("x");
                out.append(text::decimal_text(*height as u64).as_str());
                out.append("x4, got a=");
                out.append(text::decimal_text(*a_bytes as u64).as_str());
                out.append(" bytes, b=");
                out.append(text::decimal_text(*b_bytes as u64).as_str());
                out.append(" bytes");
                out
            },
            CompareError::DimensionMismatch { a_width, a_height, b_width, b_height } => {
                let mut out: String = "dimension mismatch: a=".to_owned();
                out.append(text::decimal_text(*a_width as u64).as_str());
                out.append("x");
                out.append(text::decimal_text(*a_height as u64).as_str());
                out.append(", b=");
                out.append(text::decimal_text(*b_width as u64).as_str());
                out.append("x");
                out.append(text::decimal_text(*b_height as u64).as_str());
                out
            },
        }
    }
}

/// Bytes of a picture, four to a pixel; at most what a length can say.
pub open spec fn bytes_for(width: u32, height: u32) -> int {
    if width * height * 4 <= usize::MAX {
        width * height * 4
    } else {
        usize::MAX as int
    }
}

fn expected_bytes(width: u32, height: u32) -> (r: usize)
    ensures
        r == bytes_for(width, height),
{
    proof {
        assert(0 <= width * height <= 0xffff_ffff * 0xffff_ffff) by (nonlinear_arith)
            requires
                width <= 0xffff_ffff,
                height <= 0xffff_ffff,
        ;
    }
    let n: u128 = width as u128 * height as u128 * 4;
    if n <= usize::MAX as u128 {
        n as usize
    } else {
        usize::MAX
    }
}

/// Whether two pictures have one size.
pub fn check_dimensions(
    a_width: u32,
    a_height: u32,
    b_width: u32,
    b_height: u32,
) -> (r: Result<(), CompareError>)
    ensures
        r is Ok <==> a_width == b_width && a_height == b_height,
        r is Err ==> r->Err_0 == (CompareError::DimensionMismatch {
            a_width,
            a_height,
            b_width,
            b_height,
        }),
{
    if a_width != b_width || a_height != b_height {
        Err(CompareError::DimensionMismatch { a_width, a_height, b_width, b_height })
    } else {
        Ok(())
    }
}

/// The window around a pixel, row by row.
pub open spec fn window_at(a: Seq<Single>, width: int, x: int, y: int) -> Seq<Single> {
    Seq::new(121, |k: int| a[(y - 5 + k / 11) * width + (x - 5 + k % 11)])
}

/// What is measured of two lists of brightness.
#[derive(Clone, Copy, Debug, PartialEq)]
pub struct Measures {
    pub mean_a: Single,
    pub mean_b: Single,
    pub variance_a: Single,
    pub variance_b: Single,
    pub covariance: Single,
}

/// The arithmetic of similarity.
pub struct SsimArithmetic<P, M, T, Q, I> {
    /// The sum of two numbers.
    pub plus: P,
    /// The difference of two numbers.
    pub minus: M,
    /// The product of two numbers.
    pub times: T,
    /// A number divided by a count.
    pub over: Q,
    /// The similarity of two lists, from what is measured of them.
    pub index: I,
}

impl<
    P: Fn(Single, Single) -> Single,
    M: Fn(Single, Single) -> Single,
    T: Fn(Single, Single) -> Single,
    Q: Fn(Single, usize) -> Single,
    I: Fn(Measures) -> Single,
> SsimArithmetic<P, M, T, Q, I> {
    /// Whether each part gives one result for one input.
    pub open spec fn is_steady(&self) -> bool {
        &&& arithmetic::steady2(self.plus)
        &&& arithmetic::steady2(self.minus)
        &&& arithmetic::steady2(self.times)
        &&& arithmetic::steady2(self.over)
        &&& arithmetic::steady(self.index)
    }

    /// The sum of the first `n` numbers of a list.
    pub open spec fn total(&self, list: Seq<Single>, n: nat) -> Single
        decreases n,
    {
        if n == 0 {
            Single { bits: 0 }
        } else {
            arithmetic::applied2(self.plus, self.total(list, (n - 1) as nat), list[n - 1])
        }
    }

    /// The mean of a list.
    pub open spec fn mean(&self, list: Seq<Single>) -> Single {
        arithmetic::applied2(self.over, self.total(list, list.len()), list.len() as usize)
    }

    /// The sum, over the first `n` places, of how far the one list lies from its mean
    /// times how far the other lies from its own.
    pub open spec fn joint_total(
        &self,
        a: Seq<Single>,
        mean_a: Single,
        b: Seq<Single>,
        mean_b: Single,
        n: nat,
    ) -> Single
        decreases n,
    {
        if n == 0 {
            Single { bits: 0 }
        } else {
            arithmetic::applied2(
                self.plus,
                self.joint_total(a, mean_a, b, mean_b, (n - 1) as nat),
                arithmetic::applied2(
                    self.times,
                    arithmetic::applied2(self.minus, a[n - 1], mean_a),
                    arithmetic::applied2(self.minus, b[n - 1], mean_b),
                ),
            )
        }
    }

    /// How two lists vary together; of a list with itself, how it varies.
    pub open spec fn covariance(&self, a: Seq<Single>, b: Seq<Single>) -> Single {
        arithmetic::applied2(
            self.over,
            self.joint_total(a, self.mean(a), b, self.mean(b), a.len()),
            a.len() as usize,
        )
    }

    /// What is measured of two lists.
    pub open spec fn measures(&self, a: Seq<Single>, b: Seq<Single>) -> Measures {
        Measures {
            mean_a: self.mean(a),
            mean_b: self.mean(b),
            variance_a: self.covariance(a, a),
            variance_b: self.covariance(b, b),
            covariance: self.covariance(a, b),
        }
    }

    /// The similarity of two lists.
    pub open spec fn score(&self, a: Seq<Single>, b: Seq<Single>) -> Single {
        arithmetic::applied(self.index, self.measures(a, b))
    }

    /// The similarity of two pictures within window `i` of those that fit, row by row.
    pub open spec fn window_score(
        &self,
        a: Seq<Single>,
        b: Seq<Single>,
        width: int,
        i: int,
    ) -> Single {
        let x = 5 + i % (width - 10);
        let y = 5 + i / (width - 10);
        self.score(window_at(a, width, x, y), window_at(b, width, x, y))
    }

    /// The sum of the similarity within the first `n` windows.
    pub open spec fn windows_total(
        &self,
        a: Seq<Single>,
        b: Seq<Single>,
        width: int,
        n: nat,
    ) -> Single
        decreases n,
    {
        if n == 0 {
            Single { bits: 0 }
        } else {
            arithmetic::applied2(
                self.plus,
                self.windows_total(a, b, width, (n - 1) as nat),
                self.window_score(a, b, width, n - 1),
            )
        }
    }

    /// The similarity of two pictures: the mean over all windows that fit, or, in a
    /// picture that takes no window, that of the whole; nothing of nothing.
    pub open spec fn similarity(
        &self,
        a: Seq<Single>,
        b: Seq<Single>,
        width: u32,
        height: u32,
    ) -> Single {
        if width >= 11 && height >= 11 {
            let windows = (height - 10) * (width - 10);
            arithmetic::applied2(
                self.over,
                self.windows_total(a, b, width as int, windows as nat),
                windows as usize,
            )
        } else if a.len() == 0 {
            Single { bits: 0 }
        } else {
            self.score(a, b)
        }
    }

    fn mean_of(&self, list: &Vec<Single>) -> (r: Single)
        requires
            self.is_steady(),
        ensures
            r == self.mean(list@),
    {
        let mut sum: Single = Single::zero();
        let mut i: usize = 0;
        while i < list.len()
            invariant
                self.is_steady(),
                i <= list@.len(),
                sum == self.total(list@, i as nat),
            decreases list@.len() - i,
        {
            sum = (self.plus)(sum, list[i]);
            i = i + 1;
        }
        (self.over)(sum, list.len())
    }

    fn measure(&self, a: &Vec<Single>, b: &Vec<Single>) -> (r: Measures)
        requires
            self.is_steady(),
            a@.len() == b@.len(),
        ensures
            r == self.measures(a@, b@),
    {
        let mean_a: Single = self.mean_of(a);
        let mean_b: Single = self.mean_of(b);
        let mut variance_a: Single = Single::zero();
        let mut variance_b: Single = Single::zero();
        let mut covariance: Single = Single::zero();
        let count: usize = a.len();
        let mut i: usize = 0;
        while i < count
            invariant
                self.is_steady(),
                count == a@.len(),
                a@.len() == b@.len(),
                i <= count,
                variance_a == self.joint_total(a@, mean_a, a@, mean_a, i as nat),
                variance_b == self.joint_total(b@, mean_b, b@, mean_b, i as nat),
                covariance == self.joint_total(a@, mean_a, b@, mean_b, i as nat),
            decreases count - i,
        {
            let da: Single = (self.minus)(a[i], mean_a);
            let db: Single = (self.minus)(b[i], mean_b);
            let square_a: Single = (self.times)(da, da);
            let square_b: Single = (self.times)(db, db);
            let product: Single = (self.times)(da, db);
            variance_a = (self.plus)(variance_a, square_a);
            variance_b = (self.plus)(variance_b, square_b);
            covariance = (self.plus)(covariance, product);
            i = i + 1;
        }
        let variance_a: Single = (self.over)(variance_a, count);
        let variance_b: Single = (self.over)(variance_b, count);
        let covariance: Single = (self.over)(covariance, count);
        Measures { mean_a, mean_b, variance_a, variance_b, covariance }
    }

    fn score_of(&self, a: &Vec<Single>, b: &Vec<Single>) -> (r: Single)
        requires
            self.is_steady(),
            a@.len() == b@.len(),
        ensures
            r == self.score(a@, b@),
    {
        let measures: Measures = self.measure(a, b);
        (self.index)(measures)
    }

    fn sum_windows(&self, a: &Vec<Single>, b: &Vec<Single>, width: usize, height: usize) -> (r:
        Single)
        requires
            self.is_steady(),
            a@.len() == width * height,
            b@.len() == width * height,
            width >= 11,
            height >= 11,
        ensures
            r == self.windows_total(
                a@,
                b@,
                width as int,
                ((height - 10) * (width - 10)) as nat,
            ),
    {
        let across: usize = width - 10;
        let down: usize = height - 10;
        let mut sum: Single = Single::zero();
        let mut row: usize = 0;
        proof {
            assert(0 * across == 0) by (nonlinear_arith);
        }
        while row < down
            invariant
                self.is_steady(),
                a@.len() == width * height,
                b@.len() == width * height,
                width >= 11,
                height >= 11,
                across == width - 10,
                down == height - 10,
                row <= down,
                0 <= row * across,
                sum == self.windows_total(a@, b@, width as int, (row * across) as nat),
            decreases down - row,
        {
            let mut column: usize = 0;
            while column < across
                invariant
                    self.is_steady(),
                    a@.len() == width * height,
                    b@.len() == width * height,
                    width >= 11,
                    height >= 11,
                    across == width - 10,
                    down == height - 10,
                    row < down,
                    column <= across,
                    0 <= row * across,
                    sum == self.windows_total(a@, b@, width as int, (row * across + column) as nat),
                decreases across - column,
            {
                let wa: Vec<Single> = gather(a, width, height, column + 5, row + 5);
                let wb: Vec<Single> = gather(b, width, height, column + 5, row + 5);
                let score: Single = self.score_of(&wa, &wb);
                proof {
                    vstd::arithmetic::div_mod::lemma_fundamental_div_mod_converse(
                        row * across + column,
                        across as int,
                        row as int,
                        column as int,
                    );
                    assert(score == self.window_score(
                        a@,
                        b@,
                        width as int,
                        row * across + column,
                    ));
                }
                sum = (self.plus)(sum, score);
                column = column + 1;
            }
            proof {
                assert((row + 1) * across == row * across + across) by (nonlinear_arith);
            }
            row = row + 1;
        }
        sum
    }
}

proof fn window_inside(width: int, height: int, x: int, y: int, k: int)
    requires
        5 <= x < width - 5,
        5 <= y < height - 5,
        0 <= k < 121,
    ensures
        0 <= (y - 5 + k / 11) * width + (x - 5 + k % 11) < width * height,
        (y - 5 + k / 11) * width + width <= width * height,
{
    let row = y - 5 + k / 11;
    assert(0 <= row * width && row * width + width <= width * height) by (nonlinear_arith)
        requires
            0 <= row,
            row + 1 <= height,
            width >= 0,
    ;
}

fn gather(a: &Vec<Single>, width: usize, height: usize, x: usize, y: usize) -> (r: Vec<Single>)
    requires
        a@.len() == width * height,
        5 <= x < width - 5,
        5 <= y < height - 5,
    ensures
        r@ == window_at(a@, width as int, x as int, y as int),
{
    let total: usize = a.len();
    let mut out: Vec<Single> = Vec::new();
    let mut k: usize = 0;
    while k < 121
        invariant
            k <= 121,
            total == a@.len(),
            a@.len() == width * height,
            5 <= x < width - 5,
            5 <= y < height - 5,
            out@ == window_at(a@, width as int, x as int, y as int).take(k as int),
        decreases 121 - k,
    {
        proof {
            window_inside(width as int, height as int, x as int, y as int, k as int);
        }
        let row: usize = y - 5 + k / 11;
        let column: usize = x - 5 + k % 11;
        out.push(a[row * width + column]);
        proof {
            let w = window_at(a@, width as int, x as int, y as int);
            assert(w.take(k + 1) =~= w.take(k as int).push(w[k as int]));
        }
        k = k + 1;
    }
    proof {
        let w = window_at(a@, width as int, x as int, y as int);
        assert(w.take(121) =~= w);
    }
    out
}

/// The similarity of two lists of brightness.
pub fn ssim_luminance<
    P: Fn(Single, Single) -> Single,
    M: Fn(Single, Single) -> Single,
    T: Fn(Single, Single) -> Single,
    Q: Fn(Single, usize) -> Single,
    I: Fn(Measures) -> Single,
>(
    a: &Vec<Single>,
    b: &Vec<Single>,
    width: u32,
    height: u32,
    numbers: &SsimArithmetic<P, M, T, Q, I>,
) -> (r: Single)
    requires
        a@.len() == width * height,
        b@.len() == width * height,
        numbers.is_steady(),
    ensures
        r == numbers.similarity(a@, b@, width, height),
{
    if width >= 11 && height >= 11 {
        let total: usize = a.len();
        proof {
            assert((height - 10) * (width - 10) <= width * height) by (nonlinear_arith)
                requires
                    width >= 11,
                    height >= 11,
            ;
        }
        let windows: usize = (height as usize - 10) * (width as usize - 10);
        let sum: Single = numbers.sum_windows(a, b, width as usize, height as usize);
        (numbers.over)(sum, windows)
    } else if a.len() == 0 {
        Single::zero()
    } else {
        numbers.score_of(a, b)
    }
}

/// The brightness of each pixel of a picture of red, green, blue and alpha bytes.
pub open spec fn brightness<Y: Fn(u8, u8, u8) -> Single>(
    luma: Y,
    bytes: Seq<u8>,
    pixels: nat,
) -> Seq<Single> {
    Seq::new(
        pixels,
        |i: int| arithmetic::applied3(luma, bytes[4 * i], bytes[4 * i + 1], bytes[4 * i + 2]),
    )
}

fn brighten<Y: Fn(u8, u8, u8) -> Single>(bytes: &Vec<u8>, pixels: usize, luma: &Y) -> (r: Vec<
    Single,
>)
    requires
        bytes@.len() == 4 * pixels,
        arithmetic::steady3(*luma),
    ensures
        r@ == brightness(*luma, bytes@, pixels as nat),
{
    let total: usize = bytes.len();
    let mut out: Vec<Single> = Vec::new();
    let mut i: usize = 0;
    while i < pixels
        invariant
            i <= pixels,
            total == bytes@.len(),
            bytes@.len() == 4 * pixels,
            arithmetic::steady3(*luma),
            out@ == brightness(*luma, bytes@, i as nat),
        decreases pixels - i,
    {
        let y: Single = luma(bytes[4 * i], bytes[4 * i + 1], bytes[4 * i + 2]);
        out.push(y);
        i = i + 1;
        proof {
            assert(out@ =~= brightness(*luma, bytes@, i as nat));
        }
    }
    out
}

/// The similarity of two pictures of red, green, blue and alpha bytes; alpha does
/// not count. `luma` is the brightness of a color.
pub fn ssim_rgba_u8<
    Y: Fn(u8, u8, u8) -> Single,
    P: Fn(Single, Single) -> Single,
    M: Fn(Single, Single) -> Single,
    T: Fn(Single, Single) -> Single,
    Q: Fn(Single, usize) -> Single,
    I: Fn(Measures) -> Single,
>(
    a: &Vec<u8>,
    b: &Vec<u8>,
    width: u32,
    height: u32,
    luma: &Y,
    numbers: &SsimArithmetic<P, M, T, Q, I>,
) -> (r: Result<Single, CompareError>)
    requires
        a@.len() < usize::MAX,
        arithmetic::steady3(*luma),
        numbers.is_steady(),
    ensures
        r is Ok <==> a@.len() == bytes_for(width, height) && b@.len() == bytes_for(width, height),
        r is Ok ==> r->Ok_0 == numbers.similarity(
            brightness(*luma, a@, (width * height) as nat),
            brightness(*luma, b@, (width * height) as nat),
            width,
            height,
        ),
        r is Err ==> r->Err_0 == (CompareError::BufferSize {
            width,
            height,
            expected_bytes: bytes_for(width, height) as usize,
            a_bytes: a@.len() as usize,
            b_bytes: b@.len() as usize,
        }),
{
    let expected: usize = expected_bytes(width, height);
    if a.len() != expected || b.len() != expected {
        return Err(
            CompareError::BufferSize {
                width,
                height,
                expected_bytes: expected,
                a_bytes: a.len(),
                b_bytes: b.len(),
            },
        );
    }
    let pixels: usize = expected / 4;
    let la: Vec<Single> = brighten(a, pixels, luma);
    let lb: Vec<Single> = brighten(b, pixels, luma);
    Ok(ssim_luminance(&la, &lb, width, height, numbers))
}

/// Alpha does not count: pictures that differ in nothing else are equally bright.
pub proof fn alpha_does_not_count<Y: Fn(u8, u8, u8) -> Single>(
    luma: Y,
    one: Seq<u8>,
    other: Seq<u8>,
    pixels: nat,
)
    requires
        one.len() == 4 * pixels,
        other.len() == 4 * pixels,
        forall|i: int| 0 <= i < one.len() && i % 4 != 3 ==> #[trigger] one[i] == other[i],
    ensures
        brightness(luma, one, pixels) == brightness(luma, other, pixels),
{
    assert forall|i: int| 0 <= i < pixels implies #[trigger] brightness(luma, one, pixels)[i]
        == brightness(luma, other, pixels)[i] by {
        assert((4 * i) % 4 == 0 && (4 * i + 1) % 4 == 1 && (4 * i + 2) % 4 == 2);
        assert(one[4 * i] == other[4 * i]);
        assert(one[4 * i + 1] == other[4 * i + 1]);
        assert(one[4 * i + 2] == other[4 * i + 2]);
    }
    assert(brightness(luma, one, pixels) =~= brightness(luma, other, pixels));
}

/// A list measured against itself has one mean, and varies with itself as it varies.
pub proof fn a_list_is_like_itself<
    P: Fn(Single, Single) -> Single,
    M: Fn(Single, Single) -> Single,
    T: Fn(Single, Single) -> Single,
    Q: Fn(Single, usize) -> Single,
    I: Fn(Measures) -> Single,
>(numbers: SsimArithmetic<P, M, T, Q, I>, list: Seq<Single>)
    ensures
        numbers.measures(list, list).of_one_list(),
{
}

impl Measures {
    /// The measures of the same lists in the other order.
    pub open spec fn swapped(self) -> Measures {
        Measures {
            mean_a: self.mean_b,
            mean_b: self.mean_a,
            variance_a: self.variance_b,
            variance_b: self.variance_a,
            covariance: self.covariance,
        }
    }

    /// Whether the measures are those of a list and itself.
    pub open spec fn of_one_list(self) -> bool {
        &&& self.mean_a == self.mean_b
        &&& self.variance_a == self.variance_b
        &&& self.variance_a == self.covariance
    }
}

/// How many lists of brightness are compared of two pictures: one for each window that
/// fits, or, in pictures that take no window, one of the whole.
pub open spec fn comparisons(width: u32, height: u32) -> int {
    if width >= 11 && height >= 11 {
        (height - 10) * (width - 10)
    } else {
        1
    }
}

/// The list that comparison `i` takes from a picture.
pub open spec fn compared(a: Seq<Single>, width: u32, height: u32, i: int) -> Seq<Single> {
    if width >= 11 && height >= 11 {
        window_at(a, width as int, 5 + i % (width - 10), 5 + i / (width - 10))
    } else {
        a
    }
}

impl<
    P: Fn(Single, Single) -> Single,
    M: Fn(Single, Single) -> Single,
    T: Fn(Single, Single) -> Single,
    Q: Fn(Single, usize) -> Single,
    I: Fn(Measures) -> Single,
> SsimArithmetic<P, M, T, Q, I> {
    /// Whether the order of two lists does not matter to the arithmetic: neither to the
    /// products of how far they lie from their means, nor to their similarity.
    pub open spec fn even_handed(&self, a: Seq<Single>, b: Seq<Single>) -> bool {
        &&& forall|k: int|
            0 <= k < a.len() ==> {
                let da = arithmetic::applied2(self.minus, #[trigger] a[k], self.mean(a));
                let db = arithmetic::applied2(self.minus, b[k], self.mean(b));
                arithmetic::applied2(self.times, da, db) == arithmetic::applied2(
                    self.times,
                    db,
                    da,
                )
            }
        &&& arithmetic::applied(self.index, self.measures(a, b).swapped())
            == arithmetic::applied(self.index, self.measures(a, b))
    }

    /// One number, added up `n` times.
    pub open spec fn repeated(&self, one: Single, n: nat) -> Single
        decreases n,
    {
        if n == 0 {
            Single { bits: 0 }
        } else {
            arithmetic::applied2(self.plus, self.repeated(one, (n - 1) as nat), one)
        }
    }
}

proof fn joint_totals_agree<
    P: Fn(Single, Single) -> Single,
    M: Fn(Single, Single) -> Single,
    T: Fn(Single, Single) -> Single,
    Q: Fn(Single, usize) -> Single,
    I: Fn(Measures) -> Single,
>(
    numbers: SsimArithmetic<P, M, T, Q, I>,
    a: Seq<Single>,
    b: Seq<Single>,
    n: nat,
)
    requires
        numbers.even_handed(a, b),
        n <= a.len(),
    ensures
        numbers.joint_total(a, numbers.mean(a), b, numbers.mean(b), n) == numbers.joint_total(
            b,
            numbers.mean(b),
            a,
            numbers.mean(a),
            n,
        ),
    decreases n,
{
    if n > 0 {
        joint_totals_agree(numbers, a, b, (n - 1) as nat);
        assert(a[n - 1] == a[n - 1]);
    }
}

proof fn scores_agree<
    P: Fn(Single, Single) -> Single,
    M: Fn(Single, Single) -> Single,
    T: Fn(Single, Single) -> Single,
    Q: Fn(Single, usize) -> Single,
    I: Fn(Measures) -> Single,
>(numbers: SsimArithmetic<P, M, T, Q, I>, a: Seq<Single>, b: Seq<Single>)
    requires
        numbers.even_handed(a, b),
        a.len() == b.len(),
    ensures
        numbers.score(a, b) == numbers.score(b, a),
{
    joint_totals_agree(numbers, a, b, a.len());
    assert(numbers.measures(b, a) == numbers.measures(a, b).swapped());
}

proof fn window_totals_agree<
    P: Fn(Single, Single) -> Single,
    M: Fn(Single, Single) -> Single,
    T: Fn(Single, Single) -> Single,
    Q: Fn(Single, usize) -> Single,
    I: Fn(Measures) -> Single,
>(
    numbers: SsimArithmetic<P, M, T, Q, I>,
    a: Seq<Single>,
    b: Seq<Single>,
    width: u32,
    height: u32,
    n: nat,
)
    requires
        width >= 11,
        height >= 11,
        forall|i: int|
            0 <= i < n ==> numbers.even_handed(
                #[trigger] compared(a, width, height, i),
                compared(b, width, height, i),
            ),
    ensures
        numbers.windows_total(a, b, width as int, n) == numbers.windows_total(
            b,
            a,
            width as int,
            n,
        ),
    decreases n,
{
    if n > 0 {
        window_totals_agree(numbers, a, b, width, height, (n - 1) as nat);
        scores_agree(
            numbers,
            compared(a, width, height, n - 1),
            compared(b, width, height, n - 1),
        );
    }
}

/// Two pictures are as alike in the one order as in the other, where the order does not
/// matter to the arithmetic on what is compared of them.
pub proof fn likeness_is_mutual<
    P: Fn(Single, Single) -> Single,
    M: Fn(Single, Single) -> Single,
    T: Fn(Single, Single) -> Single,
    Q: Fn(Single, usize) -> Single,
    I: Fn(Measures) -> Single,
>(
    numbers: SsimArithmetic<P, M, T, Q, I>,
    a: Seq<Single>,
    b: Seq<Single>,
    width: u32,
    height: u32,
)
    requires
        a.len() == b.len(),
        forall|i: int|
            0 <= i < comparisons(width, height) ==> numbers.even_handed(
                #[trigger] compared(a, width, height, i),
                compared(b, width, height, i),
            ),
    ensures
        numbers.similarity(a, b, width, height) == numbers.similarity(b, a, width, height),
{
    if width >= 11 && height >= 11 {
        window_totals_agree(numbers, a, b, width, height, comparisons(width, height) as nat);
    } else if a.len() > 0 {
        assert(numbers.even_handed(
            compared(a, width, height, 0),
            compared(b, width, height, 0),
        ));
        scores_agree(numbers, a, b);
    }
}

proof fn windows_of_one_picture<
    P: Fn(Single, Single) -> Single,
    M: Fn(Single, Single) -> Single,
    T: Fn(Single, Single) -> Single,
    Q: Fn(Single, usize) -> Single,
    I: Fn(Measures) -> Single,
>(
    numbers: SsimArithmetic<P, M, T, Q, I>,
    a: Seq<Single>,
    width: u32,
    height: u32,
    n: nat,
    one: Single,
)
    requires
        width >= 11,
        height >= 11,
        forall|i: int|
            0 <= i < n ==> numbers.score(
                #[trigger] compared(a, width, height, i),
                compared(a, width, height, i),
            ) == one,
    ensures
        numbers.windows_total(a, a, width as int, n) == numbers.repeated(one, n),
    decreases n,
{
    if n > 0 {
        windows_of_one_picture(numbers, a, width, height, (n - 1) as nat, one);
        assert(numbers.score(
            compared(a, width, height, n - 1),
            compared(a, width, height, n - 1),
        ) == one);
    }
}

/// Two pictures of the same colors, whatever their alpha, are alike by the number that
/// each list compared of them scores with itself, where the mean of that number, taken
/// as often as windows fit, is the number again. With single precision it is 1, for any
/// number of windows below 2 to the power 24.
pub proof fn equal_colors_are_wholly_alike<
    Y: Fn(u8, u8, u8) -> Single,
    P: Fn(Single, Single) -> Single,
    M: Fn(Single, Single) -> Single,
    T: Fn(Single, Single) -> Single,
    Q: Fn(Single, usize) -> Single,
    I: Fn(Measures) -> Single,
>(
    luma: Y,
    numbers: SsimArithmetic<P, M, T, Q, I>,
    a: Seq<u8>,
    b: Seq<u8>,
    width: u32,
    height: u32,
    one: Single,
)
    requires
        a.len() == 4 * width * height,
        b.len() == 4 * width * height,
        0 < width * height,
        forall|i: int| 0 <= i < a.len() && i % 4 != 3 ==> #[trigger] a[i] == b[i],
        ({
            let list = brightness(luma, a, (width * height) as nat);
            let n = comparisons(width, height);
            &&& forall|i: int|
                0 <= i < n ==> numbers.score(
                    #[trigger] compared(list, width, height, i),
                    compared(list, width, height, i),
                ) == one
            &&& width >= 11 && height >= 11 ==> arithmetic::applied2(
                numbers.over,
                numbers.repeated(one, n as nat),
                n as usize,
            ) == one
        }),
    ensures
        numbers.similarity(
            brightness(luma, a, (width * height) as nat),
            brightness(luma, b, (width * height) as nat),
            width,
            height,
        ) == one,
{
    let pixels = (width * height) as nat;
    assert(4 * width * height == 4 * (width * height)) by (nonlinear_arith);
    alpha_does_not_count(luma, a, b, pixels);
    let list = brightness(luma, a, pixels);
    let n = comparisons(width, height);
    if width >= 11 && height >= 11 {
        windows_of_one_picture(numbers, list, width, height, n as nat, one);
    } else {
        assert(numbers.score(
            compared(list, width, height, 0),
            compared(list, width, height, 0),
        ) == one);
    }
}

// ---- what the windows reach and what the sums take in ------------------

/// The window around a pixel holds each of the 121 pixels at most 5 columns and 5 rows
/// away, each at a place of its own.
pub proof fn windows_hold_each_neighbour_once(
    a: Seq<Single>,
    width: int,
    height: int,
    x: int,
    y: int,
)
    requires
        a.len() == width * height,
        5 <= x < width - 5,
        5 <= y < height - 5,
    ensures
        window_at(a, width, x, y).len() == 121,
        forall|dx: int, dy: int|
            -5 <= dx <= 5 && -5 <= dy <= 5 ==> 0 <= #[trigger] window_place(dx, dy) < 121
                && 0 <= (y + dy) * width + (x + dx) < a.len() && window_at(
                a,
                width,
                x,
                y,
            )[window_place(dx, dy)] == a[(y + dy) * width + (x + dx)],
        forall|dx: int, dy: int, ex: int, ey: int|
            -5 <= dx <= 5 && -5 <= dy <= 5 && -5 <= ex <= 5 && -5 <= ey <= 5
                && #[trigger] window_place(dx, dy) == #[trigger] window_place(ex, ey) ==> dx == ex
                && dy == ey,
{
    assert forall|dx: int, dy: int| -5 <= dx <= 5 && -5 <= dy <= 5 implies 0
        <= #[trigger] window_place(dx, dy) < 121 && 0 <= (y + dy) * width + (x + dx) < a.len()
        && window_at(a, width, x, y)[window_place(dx, dy)] == a[(y + dy) * width + (x + dx)] by {
        let k = window_place(dx, dy);
        window_inside(width, height, x, y, k);
        assert(k / 11 == dy + 5 && k % 11 == dx + 5);
    }
}

/// Where the pixel `dx` columns to the right and `dy` rows down stands in a window.
pub open spec fn window_place(dx: int, dy: int) -> int {
    11 * (dy + 5) + (dx + 5)
}

/// A window changes with each pixel that it reaches, and with no other.
pub proof fn windows_change_with_what_they_reach(
    a: Seq<Single>,
    width: int,
    height: int,
    x: int,
    y: int,
    px: int,
    py: int,
    v: Single,
)
    requires
        a.len() == width * height,
        5 <= x < width - 5,
        5 <= y < height - 5,
        0 <= px < width,
        0 <= py < height,
        a[py * width + px] != v,
    ensures
        window_at(a.update(py * width + px, v), width, x, y) != window_at(a, width, x, y) <==> x - 5
            <= px <= x + 5 && y - 5 <= py <= y + 5,
{
    let b = a.update(py * width + px, v);
    let one = window_at(a, width, x, y);
    let other = window_at(b, width, x, y);
    assert(0 <= py * width + px < width * height) by (nonlinear_arith)
        requires
            0 <= px < width,
            0 <= py < height,
    ;
    if x - 5 <= px <= x + 5 && y - 5 <= py <= y + 5 {
        windows_hold_each_neighbour_once(a, width, height, x, y);
        windows_hold_each_neighbour_once(b, width, height, x, y);
        let k = window_place(px - x, py - y);
        assert(one[k] == a[py * width + px]);
        assert(other[k] == v);
    } else {
        assert forall|k: int| 0 <= k < 121 implies one[k] == other[k] by {
            window_inside(width, height, x, y, k);
            let row = y - 5 + k / 11;
            let column = x - 5 + k % 11;
            if row * width + column == py * width + px {
                vstd::arithmetic::div_mod::lemma_fundamental_div_mod_converse(
                    row * width + column,
                    width,
                    row,
                    column,
                );
                vstd::arithmetic::div_mod::lemma_fundamental_div_mod_converse(
                    py * width + px,
                    width,
                    py,
                    px,
                );
            }
        }
        assert(one =~= other);
    }
}

/// Every pixel whose window fits is the middle of one comparison, and of one only.
pub proof fn every_fitting_window_is_compared_once(
    a: Seq<Single>,
    width: u32,
    height: u32,
    x: int,
    y: int,
)
    requires
        a.len() == width * height,
        5 <= x < width - 5,
        5 <= y < height - 5,
    ensures
        exists|i: int|
            0 <= i < comparisons(width, height) && #[trigger] centre(width, i) == (x, y)
                && compared(a, width, height, i) == window_at(a, width as int, x, y),
        forall|i: int, j: int|
            0 <= i < comparisons(width, height) && 0 <= j < comparisons(width, height)
                && #[trigger] centre(width, i) == #[trigger] centre(width, j) ==> i == j,
{
    let across = width - 10;
    let i = (y - 5) * across + (x - 5);
    vstd::arithmetic::div_mod::lemma_fundamental_div_mod_converse(i, across, y - 5, x - 5);
    assert(0 <= (y - 5) * across && (y - 5) * across + across <= (height - 10) * across)
        by (nonlinear_arith)
        requires
            0 <= y - 5,
            y - 5 + 1 <= height - 10,
            0 <= across,
    ;
    assert(centre(width, i) == (x, y));
    assert forall|i: int, j: int|
        0 <= i < comparisons(width, height) && 0 <= j < comparisons(width, height)
            && #[trigger] centre(width, i) == #[trigger] centre(width, j) implies i == j by {
        vstd::arithmetic::div_mod::lemma_fundamental_div_mod(i, across);
        vstd::arithmetic::div_mod::lemma_fundamental_div_mod(j, across);
    }
}

/// The pixel in the middle of comparison `i`, the windows that fit taken row by row.
pub open spec fn centre(width: u32, i: int) -> (int, int) {
    (5 + i % (width - 10), 5 + i / (width - 10))
}

/// The brightness of a pixel is that of its own red, green and blue, in this order; the
/// pixels of a picture put after another keep theirs.
pub proof fn brightness_goes_pixel_by_pixel<Y: Fn(u8, u8, u8) -> Single>(
    luma: Y,
    before: Seq<u8>,
    pixels: nat,
    red: u8,
    green: u8,
    blue: u8,
    alpha: u8,
)
    requires
        before.len() == 4 * pixels,
    ensures
        brightness(luma, before + seq![red, green, blue, alpha], pixels + 1) == brightness(
            luma,
            before,
            pixels,
        ).push(arithmetic::applied3(luma, red, green, blue)),
        brightness(luma, before, 0) == Seq::<Single>::empty(),
{
    let all = before + seq![red, green, blue, alpha];
    assert forall|i: int| 0 <= i < pixels implies brightness(luma, all, pixels + 1)[i]
        == brightness(luma, before, pixels)[i] by {
        assert(all[4 * i] == before[4 * i]);
        assert(all[4 * i + 1] == before[4 * i + 1]);
        assert(all[4 * i + 2] == before[4 * i + 2]);
    }
    assert(brightness(luma, all, pixels + 1) =~= brightness(luma, before, pixels).push(
        arithmetic::applied3(luma, red, green, blue),
    ));
    assert(brightness(luma, before, 0) =~= Seq::<Single>::empty());
}

impl<
    P: Fn(Single, Single) -> Single,
    M: Fn(Single, Single) -> Single,
    T: Fn(Single, Single) -> Single,
    Q: Fn(Single, usize) -> Single,
    I: Fn(Measures) -> Single,
> SsimArithmetic<P, M, T, Q, I> {
    /// Where no addition rounds, a mean is the true sum of the whole list, divided by how
    /// many numbers it has. `value` gives the number that a pattern of bits stands for,
    /// in some unit.
    pub proof fn means_take_in_every_number(
        &self,
        list: Seq<Single>,
        value: spec_fn(Single) -> int,
    )
        requires
            value(Single { bits: 0 }) == 0,
            forall|i: int|
                0 <= i < list.len() ==> value(
                    arithmetic::applied2(
                        self.plus,
                        self.total(list, i as nat),
                        #[trigger] list[i],
                    ),
                ) == value(self.total(list, i as nat)) + value(list[i]),
        ensures
            exists|sum: Single|
                value(sum) == arithmetic::added_up(
                    list.map_values(|v: Single| value(v)),
                ) && self.mean(list) == #[trigger] arithmetic::applied2(
                    self.over,
                    sum,
                    list.len() as usize,
                ),
    {
        self.totals_add_up(list, value, list.len());
        let values = list.map_values(|v: Single| value(v));
        assert(values.take(list.len() as int) =~= values);
        let sum = self.total(list, list.len());
        assert(value(sum) == arithmetic::added_up(values));
        assert(self.mean(list) == arithmetic::applied2(self.over, sum, list.len() as usize));
    }

    proof fn totals_add_up(&self, list: Seq<Single>, value: spec_fn(Single) -> int, n: nat)
        requires
            value(Single { bits: 0 }) == 0,
            n <= list.len(),
            forall|i: int|
                0 <= i < list.len() ==> value(
                    arithmetic::applied2(
                        self.plus,
                        self.total(list, i as nat),
                        #[trigger] list[i],
                    ),
                ) == value(self.total(list, i as nat)) + value(list[i]),
        ensures
            value(self.total(list, n)) == arithmetic::added_up(
                list.map_values(|v: Single| value(v)).take(n as int),
            ),
        decreases n,
    {
        let values = list.map_values(|v: Single| value(v));
        if n > 0 {
            self.totals_add_up(list, value, (n - 1) as nat);
            assert(values.take(n as int).drop_last() =~= values.take(n - 1));
            assert(values.take(n as int).last() == value(list[n - 1]));
        }
    }

    /// What is measured of two lists is each one's own mean, and the means of the products
    /// of how far each lies from its own mean, place by place.
    pub proof fn variances_are_means_of_products(&self, a: Seq<Single>, b: Seq<Single>)
        requires
            a.len() == b.len(),
        ensures
            ({
                let da = a.map_values(|v: Single| arithmetic::applied2(self.minus, v, self.mean(a)));
                let db = b.map_values(|v: Single| arithmetic::applied2(self.minus, v, self.mean(b)));
                let product = |p: Seq<Single>, q: Seq<Single>|
                    Seq::new(
                        p.len(),
                        |k: int| arithmetic::applied2(self.times, p[k], q[k]),
                    );
                &&& self.measures(a, b).mean_a == self.mean(a)
                &&& self.measures(a, b).mean_b == self.mean(b)
                &&& self.measures(a, b).variance_a == self.mean(product(da, da))
                &&& self.measures(a, b).variance_b == self.mean(product(db, db))
                &&& self.measures(a, b).covariance == self.mean(product(da, db))
            }),
    {
        self.joint_total_is_total(a, a, a.len());
        self.joint_total_is_total(b, b, a.len());
        self.joint_total_is_total(a, b, a.len());
        assert(self.products(a, a) =~= Seq::new(
            a.len(),
            |k: int|
                arithmetic::applied2(
                    self.times,
                    a.map_values(
                        |v: Single| arithmetic::applied2(self.minus, v, self.mean(a)),
                    )[k],
                    a.map_values(
                        |v: Single| arithmetic::applied2(self.minus, v, self.mean(a)),
                    )[k],
                ),
        ));
        assert(self.products(b, b) =~= Seq::new(
            b.len(),
            |k: int|
                arithmetic::applied2(
                    self.times,
                    b.map_values(
                        |v: Single| arithmetic::applied2(self.minus, v, self.mean(b)),
                    )[k],
                    b.map_values(
                        |v: Single| arithmetic::applied2(self.minus, v, self.mean(b)),
                    )[k],
                ),
        ));
        assert(self.products(a, b) =~= Seq::new(
            a.len(),
            |k: int|
                arithmetic::applied2(
                    self.times,
                    a.map_values(
                        |v: Single| arithmetic::applied2(self.minus, v, self.mean(a)),
                    )[k],
                    b.map_values(
                        |v: Single| arithmetic::applied2(self.minus, v, self.mean(b)),
                    )[k],
                ),
        ));
    }

    /// The products of how far two lists lie from their means, place by place.
    pub open spec fn products(&self, a: Seq<Single>, b: Seq<Single>) -> Seq<Single> {
        Seq::new(
            a.len(),
            |k: int|
                arithmetic::applied2(
                    self.times,
                    arithmetic::applied2(self.minus, a[k], self.mean(a)),
                    arithmetic::applied2(self.minus, b[k], self.mean(b)),
                ),
        )
    }

    proof fn joint_total_is_total(&self, a: Seq<Single>, b: Seq<Single>, n: nat)
        requires
            n <= a.len(),
            a.len() == b.len(),
        ensures
            self.joint_total(a, self.mean(a), b, self.mean(b), n) == self.total(
                self.products(a, b),
                n,
            ),
        decreases n,
    {
        if n > 0 {
            self.joint_total_is_total(a, b, (n - 1) as nat);
        }
    }

    /// Two pictures that take windows are as alike as their windows are in the mean, the
    /// windows around one pixel of both compared with each other.
    pub proof fn similarity_is_the_mean_over_the_windows(
        &self,
        a: Seq<Single>,
        b: Seq<Single>,
        width: u32,
        height: u32,
    )
        requires
            width >= 11,
            height >= 11,
            a.len() == width * height,
            b.len() == width * height,
        ensures
            self.similarity(a, b, width, height) == self.mean(
                Seq::new(
                    ((height - 10) * (width - 10)) as nat,
                    |i: int|
                        arithmetic::applied(
                            self.index,
                            self.measures(
                                window_at(a, width as int, centre(width, i).0, centre(width, i).1),
                                window_at(b, width as int, centre(width, i).0, centre(width, i).1),
                            ),
                        ),
                ),
            ),
    {
        let n = ((height - 10) * (width - 10)) as nat;
        let scores = Seq::new(
            n,
            |i: int|
                arithmetic::applied(
                    self.index,
                    self.measures(
                        window_at(a, width as int, centre(width, i).0, centre(width, i).1),
                        window_at(b, width as int, centre(width, i).0, centre(width, i).1),
                    ),
                ),
        );
        assert((height - 10) * (width - 10) >= 0) by (nonlinear_arith)
            requires
                width >= 11,
                height >= 11,
        ;
        self.windows_total_is_total(a, b, width, scores, n);
    }

    proof fn windows_total_is_total(
        &self,
        a: Seq<Single>,
        b: Seq<Single>,
        width: u32,
        scores: Seq<Single>,
        n: nat,
    )
        requires
            n <= scores.len(),
            forall|i: int|
                0 <= i < scores.len() ==> #[trigger] scores[i] == self.window_score(
                    a,
                    b,
                    width as int,
                    i,
                ),
        ensures
            self.windows_total(a, b, width as int, n) == self.total(scores, n),
        decreases n,
    {
        if n > 0 {
            self.windows_total_is_total(a, b, width, scores, (n - 1) as nat);
            assert(scores[n - 1] == self.window_score(a, b, width as int, n - 1));
        }
    }

    /// A picture that takes no window is compared as a whole, and an empty one scores
    /// nothing.
    pub proof fn small_pictures_are_compared_whole(
        &self,
        a: Seq<Single>,
        b: Seq<Single>,
        width: u32,
        height: u32,
    )
        requires
            width < 11 || height < 11,
            a.len() == width * height,
            b.len() == width * height,
        ensures
            a.len() > 0 ==> self.similarity(a, b, width, height) == arithmetic::applied(
                self.index,
                self.measures(a, b),
            ),
            a.len() == 0 ==> self.similarity(a, b, width, height).bits == 0,
    {
    }
}

/// An error on the size of buffers names the bytes that each buffer has, under the letter
/// of that buffer, and one on different sizes names the size of each picture, the width
/// first.
pub proof fn errors_name_the_sizes(
    width: u32,
    height: u32,
    expected_bytes: usize,
    a_bytes: usize,
    b_bytes: usize,
    b_width: u32,
    b_height: u32,
)
    ensures
        ({
            let said = (CompareError::BufferSize {
                width,
                height,
                expected_bytes,
                a_bytes,
                b_bytes,
            }).wording();
            &&& text::contains(said, "x4, got a="@ + text::decimal(a_bytes as nat) + " bytes, b="@)
            &&& text::contains(said, " bytes, b="@ + text::decimal(b_bytes as nat) + " bytes"@)
            &&& text::contains(
                said,
                "expected "@ + text::decimal(expected_bytes as nat) + " bytes for "@,
            )
            &&& text::contains(
                said,
                " bytes for "@ + text::decimal(width as nat) + "x"@ + text::decimal(height as nat)
                    + "x4"@,
            )
        }),
        ({
            let said = (CompareError::DimensionMismatch {
                a_width: width,
                a_height: height,
                b_width,
                b_height,
            }).wording();
            &&& text::contains(
                said,
                "a="@ + text::decimal(width as nat) + "x"@ + text::decimal(height as nat)
                    + ", b="@ + text::decimal(b_width as nat) + "x"@ + text::decimal(
                    b_height as nat,
                ),
            )
        }),
{
    let w = text::decimal(width as nat);
    let h = text::decimal(height as nat);
    let e = text::decimal(expected_bytes as nat);
    let a = text::decimal(a_bytes as nat);
    let b = text::decimal(b_bytes as nat);
    let said = (CompareError::BufferSize {
        width,
        height,
        expected_bytes,
        a_bytes,
        b_bytes,
    }).wording();
    parts_of_a_size_error(w, h, e, a, b);
    let head = "buffer size mismatch: expected "@ + e + " bytes for "@ + w + "x"@ + h;
    text::texts_contain_what_they_are_made_of(
        said,
        head,
        "x4, got a="@ + a + " bytes, b="@,
        b + " bytes"@,
    );
    text::texts_contain_what_they_are_made_of(
        said,
        head + "x4, got a="@ + a,
        " bytes, b="@ + b + " bytes"@,
        Seq::empty(),
    );
    text::texts_contain_what_they_are_made_of(
        said,
        "buffer size mismatch: "@,
        "expected "@ + e + " bytes for "@,
        w + "x"@ + h + "x4, got a="@ + a + " bytes, b="@ + b + " bytes"@,
    );
    text::texts_contain_what_they_are_made_of(
        said,
        "buffer size mismatch: expected "@ + e,
        " bytes for "@ + w + "x"@ + h + "x4"@,
        ", got a="@ + a + " bytes, b="@ + b + " bytes"@,
    );
    let bw = text::decimal(b_width as nat);
    let bh = text::decimal(b_height as nat);
    parts_of_a_mismatch(w, h, bw, bh);
    text::texts_contain_what_they_are_made_of(
        (CompareError::DimensionMismatch {
            a_width: width,
            a_height: height,
            b_width,
            b_height,
        }).wording(),
        "dimension mismatch: "@,
        "a="@ + w + "x"@ + h + ", b="@ + bw + "x"@ + bh,
        Seq::empty(),
    );
}

proof fn parts_of_a_size_error(
    w: Seq<char>,
    h: Seq<char>,
    e: Seq<char>,
    a: Seq<char>,
    b: Seq<char>,
)
    ensures
        ({
            let said = "buffer size mismatch: expected "@ + e + " bytes for "@ + w + "x"@ + h
                + "x4, got a="@ + a + " bytes, b="@ + b + " bytes"@;
            let head = "buffer size mismatch: expected "@ + e + " bytes for "@ + w + "x"@ + h;
            &&& said == head + ("x4, got a="@ + a + " bytes, b="@) + (b + " bytes"@)
            &&& said == head + "x4, got a="@ + a + (" bytes, b="@ + b + " bytes"@)
                + Seq::<char>::empty()
            &&& said == "buffer size mismatch: "@ + ("expected "@ + e + " bytes for "@) + (w + "x"@
                + h + "x4, got a="@ + a + " bytes, b="@ + b + " bytes"@)
            &&& said == "buffer size mismatch: expected "@ + e + (" bytes for "@ + w + "x"@ + h
                + "x4"@) + (", got a="@ + a + " bytes, b="@ + b + " bytes"@)
        }),
{
    reveal_strlit("buffer size mismatch: expected ");
    reveal_strlit("buffer size mismatch: ");
    reveal_strlit("expected ");
    reveal_strlit("x4, got a=");
    reveal_strlit("x4");
    reveal_strlit(", got a=");
    assert("buffer size mismatch: expected "@ =~= "buffer size mismatch: "@ + "expected "@);
    assert("x4, got a="@ =~= "x4"@ + ", got a="@);
}

proof fn parts_of_a_mismatch(w: Seq<char>, h: Seq<char>, bw: Seq<char>, bh: Seq<char>)
    ensures
        "dimension mismatch: a="@ + w + "x"@ + h + ", b="@ + bw + "x"@ + bh
            == "dimension mismatch: "@ + ("a="@ + w + "x"@ + h + ", b="@ + bw + "x"@ + bh)
            + Seq::<char>::empty(),
{
    reveal_strlit("dimension mismatch: a=");
    reveal_strlit("dimension mismatch: ");
    reveal_strlit("a=");
    assert("dimension mismatch: a="@ =~= "dimension mismatch: "@ + "a="@);
}

} // verus!

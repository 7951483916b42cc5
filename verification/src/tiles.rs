//! An image cut into tiles, and the buffer that tiles are summed up in.
use vstd::prelude::*;

use crate::arithmetic;
use crate::geometry::{Vec3, Vec4};
use crate::single::Single;

verus! {

/// A rectangle of pixels. The ends are outside.
#[derive(Clone, Copy, Debug, PartialEq, Eq, Hash, Structural)]
pub struct Tile {
    pub x_start: u32,
    pub y_start: u32,
    pub x_end: u32,
    pub y_end: u32,
}

impl Tile {
    /// Whether no end is before its start.
    pub open spec fn wf(self) -> bool {
        self.x_start <= self.x_end && self.y_start <= self.y_end
    }

    /// Whether a pixel is in the tile.
    pub open spec fn holds(self, x: int, y: int) -> bool {
        self.x_start <= x < self.x_end && self.y_start <= y < self.y_end
    }

    /// Number of pixels.
    pub open spec fn area(self) -> int {
        (self.x_end - self.x_start) * (self.y_end - self.y_start)
    }

    /// Number of pixels.
    pub fn pixel_count(&self) -> (r: usize)
        requires
            self.wf(),
            self.area() <= usize::MAX,
        ensures
            r == self.area(),
    {
        (self.x_end - self.x_start) as usize * (self.y_end - self.y_start) as usize
    }

    pub fn width(&self) -> (r: u32)
        requires
            self.wf(),
        ensures
            r == self.x_end - self.x_start,
    {
        self.x_end - self.x_start
    }

    pub fn height(&self) -> (r: u32)
        requires
            self.wf(),
        ensures
            r == self.y_end - self.y_start,
    {
        self.y_end - self.y_start
    }

    /// Seed of the random numbers of the tile.
    pub open spec fn seed_of(self) -> u64 {
        ((self.x_start * 0x9E37_79B1_7F4A_7C15) % 0x1_0000_0000_0000_0000) as u64 ^ ((self.y_start
            * 0xBB67_AE85_84CA_A73B) % 0x1_0000_0000_0000_0000) as u64
    }

    /// Seed of the random numbers of the tile, from its place.
    pub fn seed(&self) -> (r: u64)
        ensures
            r == self.seed_of(),
    {
        let a: u64 = (self.x_start as u64).wrapping_mul(0x9E37_79B1_7F4A_7C15);
        let b: u64 = (self.y_start as u64).wrapping_mul(0xBB67_AE85_84CA_A73B);
        a ^ b
    }
}

/// Number of steps of size `step` that cover `n`.
pub open spec fn steps(n: int, step: int) -> int {
    if n <= 0 {
        0
    } else {
        (n - 1) / step + 1
    }
}

/// The end of step `k`.
pub open spec fn step_end(n: int, step: int, k: int) -> int {
    if k * step + step < n {
        k * step + step
    } else {
        n
    }
}

/// The tile in a row and a column.
pub open spec fn tile_at(width: int, height: int, step: int, row: int, column: int) -> Tile {
    Tile {
        x_start: (column * step) as u32,
        y_start: (row * step) as u32,
        x_end: step_end(width, step, column) as u32,
        y_end: step_end(height, step, row) as u32,
    }
}

/// The side of a tile: at least one pixel.
pub open spec fn side(tile_size: u32) -> int {
    if tile_size == 0 {
        1
    } else {
        tile_size as int
    }
}

/// The tiles of an image, row by row, each row from left to right.
pub open spec fn tiles_of(width: u32, height: u32, tile_size: u32) -> Seq<Tile> {
    let step = side(tile_size);
    let columns = steps(width as int, step);
    Seq::new(
        (steps(height as int, step) * columns) as nat,
        |i: int| tile_at(width as int, height as int, step, i / columns, i % columns),
    )
}

/// A step starts inside of what is covered, and ends behind its start; what is
/// before the start is a whole number of steps.
proof fn step_inside(n: int, step: int, k: int)
    requires
        step >= 1,
        0 <= k < steps(n, step),
    ensures
        0 <= k * step < n,
        k * step < step_end(n, step, k) <= n,
        k + 1 < steps(n, step) ==> step_end(n, step, k) == (k + 1) * step < n,
        k + 1 == steps(n, step) ==> step_end(n, step, k) == n,
{
    let q = (n - 1) / step;
    assert(0 <= k * step) by (nonlinear_arith)
        requires
            k >= 0,
            step >= 1,
    ;
    assert(n - 1 == step * q + (n - 1) % step && 0 <= (n - 1) % step < step) by {
        vstd::arithmetic::div_mod::lemma_fundamental_div_mod(n - 1, step);
    }
    assert(k * step <= q * step) by (nonlinear_arith)
        requires
            k <= q,
            step >= 1,
    ;
    assert(step * q == q * step) by (nonlinear_arith);
    assert((k + 1) * step == k * step + step) by (nonlinear_arith);
    if k + 1 <= q {
        assert((k + 1) * step <= q * step) by (nonlinear_arith)
            requires
                k + 1 <= q,
                step >= 1,
        ;
    }
}

/// A covered place is in exactly one step.
proof fn step_of_place(n: int, step: int, x: int)
    requires
        step >= 1,
        0 <= x < n,
    ensures
        0 <= x / step < steps(n, step),
        (x / step) * step <= x < step_end(n, step, x / step),
        forall|k: int|
            0 <= k && #[trigger] (k * step) <= x && x < step_end(n, step, k) ==> k == x / step,
{
    vstd::arithmetic::div_mod::lemma_fundamental_div_mod(x, step);
    let q = x / step;
    assert(q >= 0) by (nonlinear_arith)
        requires
            x >= 0,
            step >= 1,
            q == x / step,
    ;
    assert(step * q == q * step) by (nonlinear_arith);
    vstd::arithmetic::div_mod::lemma_div_is_ordered(x, n - 1, step);
    assert forall|k: int|
        0 <= k && #[trigger] (k * step) <= x && x < step_end(n, step, k) implies k == q by {
        assert((k + 1) * step == k * step + step) by (nonlinear_arith);
        if k < q {
            assert((k + 1) * step <= q * step) by (nonlinear_arith)
                requires
                    k + 1 <= q,
                    step >= 1,
            ;
        }
        if k > q {
            assert(k * step >= (q + 1) * step) by (nonlinear_arith)
                requires
                    k >= q + 1,
                    step >= 1,
            ;
            assert((q + 1) * step == q * step + step) by (nonlinear_arith);
        }
    }
}

/// The place of a row and a column in the list of tiles.
proof fn place_of_tile(columns: int, row: int, column: int)
    requires
        row >= 0,
        0 <= column < columns,
    ensures
        (row * columns + column) / columns == row,
        (row * columns + column) % columns == column,
{
    vstd::arithmetic::div_mod::lemma_fundamental_div_mod_converse(
        row * columns + column,
        columns,
        row,
        column,
    );
}

/// Cuts an image into tiles, row by row, each row from left to right.
pub fn generate_tiles(width: u32, height: u32, tile_size: u32) -> (r: Vec<Tile>)
    ensures
        r@ == tiles_of(width, height, tile_size),
{
    let step: u32 = if tile_size == 0 {
        1
    } else {
        tile_size
    };
    let ghost columns = steps(width as int, step as int);
    let ghost rows = steps(height as int, step as int);
    let mut out: Vec<Tile> = Vec::new();
    let mut y: u32 = 0;
    let ghost mut row: int = 0;
    proof {
        if height > 0 {
            vstd::arithmetic::div_mod::lemma_div_pos_is_pos(height - 1, step as int);
        }
        if width > 0 {
            vstd::arithmetic::div_mod::lemma_div_pos_is_pos(width - 1, step as int);
        }
        assert(0 * columns == 0) by (nonlinear_arith);
    }
    while y < height
        invariant
            step == side(tile_size),
            step >= 1,
            columns == steps(width as int, step as int),
            rows == steps(height as int, step as int),
            columns >= 0,
            0 <= row <= rows,
            y < height ==> row < rows && y == row * step,
            y <= height,
            y == height ==> row == rows,
            out@.len() == row * columns,
            forall|i: int|
                0 <= i < out@.len() ==> #[trigger] out@[i] == tile_at(
                    width as int,
                    height as int,
                    step as int,
                    i / columns,
                    i % columns,
                ),
        decreases height - y,
    {
        let y_end: u32 = if height - y > step {
            y + step
        } else {
            height
        };
        proof {
            step_inside(height as int, step as int, row);
        }
        let mut x: u32 = 0;
        let ghost mut column: int = 0;
        while x < width
            invariant
                step == side(tile_size),
                step >= 1,
                columns == steps(width as int, step as int),
                0 <= row < rows,
                y == row * step,
                y_end == step_end(height as int, step as int, row),
                0 <= column <= columns,
                x < width ==> column < columns && x == column * step,
                x <= width,
                x == width ==> column == columns,
                out@.len() == row * columns + column,
                forall|i: int|
                    0 <= i < out@.len() ==> #[trigger] out@[i] == tile_at(
                        width as int,
                        height as int,
                        step as int,
                        i / columns,
                        i % columns,
                    ),
            decreases width - x,
        {
            let x_end: u32 = if width - x > step {
                x + step
            } else {
                width
            };
            proof {
                step_inside(width as int, step as int, column);
                place_of_tile(columns, row, column);
            }
            out.push(Tile { x_start: x, y_start: y, x_end, y_end });
            x = x_end;
            proof {
                column = column + 1;
            }
        }
        y = y_end;
        proof {
            assert((row + 1) * columns == row * columns + columns) by (nonlinear_arith);
            row = row + 1;
        }
    }
    proof {
        assert(out@ =~= tiles_of(width, height, tile_size));
    }
    out
}

/// The place in the list of the tile that holds a pixel.
pub open spec fn tile_place(width: u32, tile_size: u32, x: int, y: int) -> int {
    (y / side(tile_size)) * steps(width as int, side(tile_size)) + x / side(tile_size)
}

/// The tiles cover the image: every pixel is in exactly one of them.
pub proof fn each_pixel_is_in_one_tile(width: u32, height: u32, tile_size: u32, x: int, y: int)
    requires
        0 <= x < width,
        0 <= y < height,
    ensures
        0 <= tile_place(width, tile_size, x, y) < tiles_of(width, height, tile_size).len(),
        tiles_of(width, height, tile_size)[tile_place(width, tile_size, x, y)].holds(x, y),
        forall|i: int|
            0 <= i < tiles_of(width, height, tile_size).len() && (#[trigger] tiles_of(
                width,
                height,
                tile_size,
            )[i]).holds(x, y) ==> i == tile_place(width, tile_size, x, y),
{
    let step = side(tile_size);
    let columns = steps(width as int, step);
    let rows = steps(height as int, step);
    let tiles = tiles_of(width, height, tile_size);
    step_of_place(width as int, step, x);
    step_of_place(height as int, step, y);
    step_inside(width as int, step, x / step);
    step_inside(height as int, step, y / step);
    let place = tile_place(width, tile_size, x, y);
    place_of_tile(columns, y / step, x / step);
    assert(0 <= (y / step) * columns) by (nonlinear_arith)
        requires
            y / step >= 0,
            columns >= 0,
    ;
    assert((y / step) * columns + columns <= rows * columns) by (nonlinear_arith)
        requires
            y / step + 1 <= rows,
            columns >= 0,
    ;
    assert(tiles[place] == tile_at(width as int, height as int, step, y / step, x / step));
    assert forall|i: int| 0 <= i < tiles.len() && (#[trigger] tiles[i]).holds(x, y) implies i
        == place by {
        let row = i / columns;
        let column = i % columns;
        vstd::arithmetic::div_mod::lemma_fundamental_div_mod(i, columns);
        row_in_range(i, rows, columns);
        step_inside(width as int, step, column);
        step_inside(height as int, step, row);
        assert(tiles[i] == tile_at(width as int, height as int, step, row, column));
        assert(column * step <= x);
        assert(row * step <= y);
        assert(column == x / step);
        assert(row == y / step);
        assert(columns * row == row * columns) by (nonlinear_arith);
    }
}

proof fn row_in_range(i: int, rows: int, columns: int)
    requires
        0 <= i < rows * columns,
        columns >= 1,
    ensures
        0 <= i / columns < rows,
        0 <= i % columns < columns,
{
    vstd::arithmetic::div_mod::lemma_fundamental_div_mod(i, columns);
    let q = i / columns;
    assert(q >= 0) by (nonlinear_arith)
        requires
            i >= 0,
            columns >= 1,
            q == i / columns,
    ;
    assert(columns * q == q * columns) by (nonlinear_arith);
    if q >= rows {
        assert(q * columns >= rows * columns) by (nonlinear_arith)
            requires
                q >= rows,
                columns >= 1,
        ;
    }
}

/// The tiles stay inside of the image and none is empty.
pub proof fn tiles_stay_in_the_image(width: u32, height: u32, tile_size: u32, i: int)
    requires
        0 <= i < tiles_of(width, height, tile_size).len(),
    ensures
        tiles_of(width, height, tile_size)[i].x_start < tiles_of(
            width,
            height,
            tile_size,
        )[i].x_end <= width,
        tiles_of(width, height, tile_size)[i].y_start < tiles_of(
            width,
            height,
            tile_size,
        )[i].y_end <= height,
{
    let step = side(tile_size);
    let columns = steps(width as int, step);
    let rows = steps(height as int, step);
    if width == 0 {
        assert(rows * columns == 0) by (nonlinear_arith)
            requires
                columns == 0,
        ;
    } else {
        vstd::arithmetic::div_mod::lemma_div_pos_is_pos(width - 1, step);
        row_in_range(i, rows, columns);
        step_inside(width as int, step, i % columns);
        step_inside(height as int, step, i / columns);
    }
}

/// Sums of light by pixel: red, green, blue and the number of samples.
#[derive(Debug)]
pub struct AccumulationBuffer {
    pub width: u32,
    pub height: u32,
    /// Row by row.
    pub pixels: Vec<Vec4>,
}

/// No light and no samples.
pub open spec fn dark() -> Vec4 {
    Vec4 {
        x: Single { bits: 0 },
        y: Single { bits: 0 },
        z: Single { bits: 0 },
        w: Single { bits: 0 },
    }
}

/// The place of a pixel in the buffer.
pub open spec fn pixel_place(width: u32, x: int, y: int) -> int {
    y * width + x
}

impl AccumulationBuffer {
    /// One entry for each pixel.
    pub open spec fn wf(&self) -> bool {
        self.pixels@.len() == self.width * self.height
    }

    pub fn new(width: u32, height: u32) -> (r: AccumulationBuffer)
        requires
            width * height <= usize::MAX,
        ensures
            r.wf(),
            r.width == width,
            r.height == height,
            forall|i: int| 0 <= i < r.pixels@.len() ==> #[trigger] r.pixels@[i] == dark(),
    {
        let zero: Single = Single::zero();
        let count: usize = width as usize * height as usize;
        let mut pixels: Vec<Vec4> = Vec::new();
        let mut i: usize = 0;
        while i < count
            invariant
                i <= count,
                zero == (Single { bits: 0 }),
                pixels@.len() == i,
                forall|j: int| 0 <= j < i ==> #[trigger] pixels@[j] == dark(),
            decreases count - i,
        {
            pixels.push(Vec4 { x: zero, y: zero, z: zero, w: zero });
            i = i + 1;
        }
        AccumulationBuffer { width, height, pixels }
    }

    /// The mean color of each pixel. `average` divides the sums of a pixel by its
    /// samples.
    pub fn average_rgb<F: Fn(Vec4) -> Vec3>(&self, average: F) -> (r: Vec<Vec3>)
        requires
            arithmetic::steady(average),
        ensures
            r@ == self.pixels@.map_values(|p: Vec4| arithmetic::applied(average, p)),
    {
        let mut out: Vec<Vec3> = Vec::new();
        let mut i: usize = 0;
        while i < self.pixels.len()
            invariant
                arithmetic::steady(average),
                i <= self.pixels@.len(),
                out@.len() == i,
                forall|j: int|
                    0 <= j < i ==> #[trigger] out@[j] == arithmetic::applied(
                        average,
                        self.pixels@[j],
                    ),
            decreases self.pixels@.len() - i,
        {
            let mean: Vec3 = average(self.pixels[i]);
            out.push(mean);
            i = i + 1;
        }
        proof {
            assert(out@ =~= self.pixels@.map_values(
                |p: Vec4| arithmetic::applied(average, p),
            ));
        }
        out
    }

    /// The picture in bytes, three to a pixel. `tone` maps the sums of a pixel to
    /// red, green and blue.
    pub fn as_srgb8<F: Fn(Vec4) -> (u8, u8, u8)>(&self, tone: F) -> (r: Vec<u8>)
        requires
            arithmetic::steady(tone),
        ensures
            r@ == packed(self.pixels@.map_values(|p: Vec4| arithmetic::applied(tone, p))),
    {
        let ghost toned = self.pixels@.map_values(|p: Vec4| arithmetic::applied(tone, p));
        let mut out: Vec<u8> = Vec::new();
        let mut i: usize = 0;
        proof {
            assert(toned.take(0) =~= Seq::empty());
        }
        while i < self.pixels.len()
            invariant
                arithmetic::steady(tone),
                i <= self.pixels@.len(),
                toned == self.pixels@.map_values(|p: Vec4| arithmetic::applied(tone, p)),
                out@ == packed(toned.take(i as int)),
            decreases self.pixels@.len() - i,
        {
            let ghost before = out@;
            let (red, green, blue) = tone(self.pixels[i]);
            out.push(red);
            out.push(green);
            out.push(blue);
            proof {
                assert(toned.take(i + 1).drop_last() =~= toned.take(i as int));
                assert(toned.take(i + 1).last() == (red, green, blue));
                assert(out@ =~= before + seq![red, green, blue]);
            }
            i = i + 1;
        }
        proof {
            assert(toned.take(i as int) =~= toned);
        }
        out
    }

    /// The picture in bytes, three to a pixel.
    pub fn into_srgb8<F: Fn(Vec4) -> (u8, u8, u8)>(self, tone: F) -> (r: Vec<u8>)
        requires
            arithmetic::steady(tone),
        ensures
            r@ == packed(self.pixels@.map_values(|p: Vec4| arithmetic::applied(tone, p))),
    {
        self.as_srgb8(tone)
    }

    /// Adds a rendered tile. A tile without pixels was not rendered and changes
    /// nothing.
    pub fn add_tile<F: Fn(Vec4, Vec4) -> Vec4>(&mut self, tile: Tile, chunk: &Vec<Vec4>, plus: &F)
        requires
            old(self).wf(),
            arithmetic::steady2(*plus),
            tile.wf(),
            tile.x_end <= old(self).width,
            tile.y_end <= old(self).height,
            chunk@.len() == 0 || chunk@.len() == tile.area(),
        ensures
            final(self).wf(),
            final(self).width == old(self).width,
            final(self).height == old(self).height,
            forall|x: int, y: int|
                0 <= x < old(self).width && 0 <= y < old(self).height
                    ==> #[trigger] final(self).at(x, y) == added(
                    old(self).at(x, y),
                    tile,
                    chunk@,
                    *plus,
                    x,
                    y,
                ),
    {
        if chunk.len() == 0 {
            return;
        }
        let ghost before = *self;
        let tile_width: u32 = tile.x_end - tile.x_start;
        let mut row: u32 = tile.y_start;
        while row < tile.y_end
            invariant
                self.wf(),
                arithmetic::steady2(*plus),
                tile.wf(),
                tile.x_end <= self.width,
                tile.y_end <= self.height,
                chunk@.len() > 0,
                chunk@.len() == tile.area(),
                tile_width == tile.x_end - tile.x_start,
                tile.y_start <= row <= tile.y_end,
                self.width == before.width,
                self.height == before.height,
                forall|x: int, y: int|
                    0 <= x < before.width && 0 <= y < before.height ==> #[trigger] self.at(x, y)
                        == if y < row {
                        added(before.at(x, y), tile, chunk@, *plus, x, y)
                    } else {
                        before.at(x, y)
                    },
            decreases tile.y_end - row,
        {
            let mut column: u32 = tile.x_start;
            while column < tile.x_end
                invariant
                    self.wf(),
                    arithmetic::steady2(*plus),
                    tile.wf(),
                    tile.x_end <= self.width,
                    tile.y_end <= self.height,
                    chunk@.len() > 0,
                    chunk@.len() == tile.area(),
                    tile_width == tile.x_end - tile.x_start,
                    tile.y_start <= row < tile.y_end,
                    tile.x_start <= column <= tile.x_end,
                    self.width == before.width,
                    self.height == before.height,
                    forall|x: int, y: int|
                        0 <= x < before.width && 0 <= y < before.height ==> #[trigger] self.at(x, y)
                            == if y < row || (y == row && x < column) {
                            added(before.at(x, y), tile, chunk@, *plus, x, y)
                        } else {
                            before.at(x, y)
                        },
                decreases tile.x_end - column,
            {
                let ghost mid = *self;
                proof {
                    assert(self.pixels@.len() == self.pixels.len() && chunk@.len() == chunk.len());
                    place_inside(self.width, self.height, column as int, row as int);
                    chunk_place_inside(tile, column as int, row as int);
                    assert((row - tile.y_start) * tile_width + (column - tile.x_start)
                        == chunk_place(tile, column as int, row as int));
                    assert(row * self.width <= self.pixels@.len()) by (nonlinear_arith)
                        requires
                            row <= self.height,
                            self.pixels@.len() == self.width * self.height,
                    ;
                    assert((row - tile.y_start) * tile_width <= chunk@.len()) by (nonlinear_arith)
                        requires
                            row - tile.y_start <= tile.y_end - tile.y_start,
                            chunk@.len() == tile_width * (tile.y_end - tile.y_start),
                    ;
                }
                let at: usize = row as usize * self.width as usize + column as usize;
                let from: usize = (row - tile.y_start) as usize * tile_width as usize + (column
                    - tile.x_start) as usize;
                let sum: Vec4 = plus(self.pixels[at], chunk[from]);
                self.pixels.set(at, sum);
                proof {
                    assert forall|x: int, y: int|
                        0 <= x < before.width && 0 <= y
                            < before.height implies #[trigger] self.at(x, y) == if y < row || (y == row && x
                        < column + 1) {
                        added(before.at(x, y), tile, chunk@, *plus, x, y)
                    } else {
                        before.at(x, y)
                    } by {
                        place_inside(before.width, before.height, x, y);
                        places_differ(before.width, x, y, column as int, row as int);
                        assert(mid.at(x, y) == mid.pixels@[pixel_place(before.width, x, y)]);
                    }
                }
                column = column + 1;
            }
            row = row + 1;
        }
    }

    /// The entry of a pixel.
    pub open spec fn at(&self, x: int, y: int) -> Vec4 {
        self.pixels@[pixel_place(self.width, x, y)]
    }
}

/// Puts the rendered tiles of a picture together. `chunks` holds the pixels of each
/// tile, in the order of the tiles; those of a tile that was not rendered are
/// missing, and its pixels stay dark.
pub fn assemble<F: Fn(Vec4, Vec4) -> Vec4>(
    width: u32,
    height: u32,
    tile_size: u32,
    chunks: &Vec<Vec<Vec4>>,
    plus: &F,
) -> (r: AccumulationBuffer)
    requires
        width * height <= usize::MAX,
        arithmetic::steady2(*plus),
        chunks@.len() == tiles_of(width, height, tile_size).len(),
        forall|i: int|
            0 <= i < chunks@.len() ==> (#[trigger] chunks@[i])@.len() == 0 || chunks@[i]@.len()
                == tiles_of(width, height, tile_size)[i].area(),
    ensures
        r.wf(),
        r.width == width,
        r.height == height,
        forall|x: int, y: int|
            0 <= x < width && 0 <= y < height ==> #[trigger] r.at(x, y) == ({
                let i = tile_place(width, tile_size, x, y);
                added(
                    dark(),
                    tiles_of(width, height, tile_size)[i],
                    chunks@[i]@,
                    *plus,
                    x,
                    y,
                )
            }),
{
    let tiles: Vec<Tile> = generate_tiles(width, height, tile_size);
    let mut out: AccumulationBuffer = AccumulationBuffer::new(width, height);
    proof {
        assert forall|x: int, y: int| 0 <= x < width && 0 <= y < height implies #[trigger] out.at(
            x,
            y,
        ) == dark() by {
            place_inside(width, height, x, y);
        }
    }
    let mut i: usize = 0;
    while i < tiles.len()
        invariant
            i <= tiles@.len(),
            tiles@ == tiles_of(width, height, tile_size),
            chunks@.len() == tiles@.len(),
            forall|k: int|
                0 <= k < chunks@.len() ==> (#[trigger] chunks@[k])@.len() == 0 || chunks@[k]@.len()
                    == tiles@[k].area(),
            arithmetic::steady2(*plus),
            out.wf(),
            out.width == width,
            out.height == height,
            forall|x: int, y: int|
                0 <= x < width && 0 <= y < height ==> #[trigger] out.at(x, y) == ({
                    let k = tile_place(width, tile_size, x, y);
                    if k < i {
                        added(dark(), tiles@[k], chunks@[k]@, *plus, x, y)
                    } else {
                        dark()
                    }
                }),
        decreases tiles@.len() - i,
    {
        let ghost before = out;
        proof {
            tiles_stay_in_the_image(width, height, tile_size, i as int);
        }
        out.add_tile(tiles[i], &chunks[i], plus);
        proof {
            assert forall|x: int, y: int|
                0 <= x < width && 0 <= y < height implies #[trigger] out.at(x, y) == ({
                let k = tile_place(width, tile_size, x, y);
                if k < i + 1 {
                    added(dark(), tiles@[k], chunks@[k]@, *plus, x, y)
                } else {
                    dark()
                }
            }) by {
                each_pixel_is_in_one_tile(width, height, tile_size, x, y);
                assert(out.at(x, y) == added(
                    before.at(x, y),
                    tiles@[i as int],
                    chunks@[i as int]@,
                    *plus,
                    x,
                    y,
                ));
            }
        }
        i = i + 1;
    }
    proof {
        assert forall|x: int, y: int| 0 <= x < width && 0 <= y < height implies #[trigger] out.at(
            x,
            y,
        ) == ({
            let k = tile_place(width, tile_size, x, y);
            added(dark(), tiles@[k], chunks@[k]@, *plus, x, y)
        }) by {
            each_pixel_is_in_one_tile(width, height, tile_size, x, y);
        }
    }
    out
}

/// Colors in bytes, three to a color.
pub open spec fn packed(colors: Seq<(u8, u8, u8)>) -> Seq<u8>
    decreases colors.len(),
{
    if colors.len() == 0 {
        Seq::empty()
    } else {
        packed(colors.drop_last()) + seq![colors.last().0, colors.last().1, colors.last().2]
    }
}

/// The place of a pixel of the image in the pixels of a tile.
pub open spec fn chunk_place(tile: Tile, x: int, y: int) -> int {
    (y - tile.y_start) * (tile.x_end - tile.x_start) + (x - tile.x_start)
}

/// A pixel after a tile is added.
pub open spec fn added<F: Fn(Vec4, Vec4) -> Vec4>(
    before: Vec4,
    tile: Tile,
    chunk: Seq<Vec4>,
    plus: F,
    x: int,
    y: int,
) -> Vec4 {
    if chunk.len() > 0 && tile.holds(x, y) {
        arithmetic::applied2(plus, before, chunk[chunk_place(tile, x, y)])
    } else {
        before
    }
}

proof fn place_inside(width: u32, height: u32, x: int, y: int)
    requires
        0 <= x < width,
        0 <= y < height,
    ensures
        0 <= pixel_place(width, x, y) < width * height,
{
    assert(0 <= y * width && y * width + width <= width * height) by (nonlinear_arith)
        requires
            0 <= y,
            y + 1 <= height,
            width >= 0,
    ;
}

proof fn chunk_place_inside(tile: Tile, x: int, y: int)
    requires
        tile.wf(),
        tile.holds(x, y),
    ensures
        0 <= chunk_place(tile, x, y) < tile.area(),
{
    let w = tile.x_end - tile.x_start;
    let h = tile.y_end - tile.y_start;
    let row = y - tile.y_start;
    assert(0 <= row * w && row * w + w <= w * h) by (nonlinear_arith)
        requires
            0 <= row,
            row + 1 <= h,
            w >= 0,
    ;
}

proof fn places_differ(width: u32, x: int, y: int, a: int, b: int)
    requires
        0 <= x < width,
        0 <= a < width,
    ensures
        pixel_place(width, x, y) == pixel_place(width, a, b) <==> (x == a && y == b),
{
    if y < b {
        assert(y * width + width <= b * width) by (nonlinear_arith)
            requires
                y + 1 <= b,
                width >= 0,
        ;
    }
    if b < y {
        assert(b * width + width <= y * width) by (nonlinear_arith)
            requires
                b + 1 <= y,
                width >= 0,
        ;
    }
}

/// Two bytes behind each other belong to one pixel: three bytes to a pixel.
pub proof fn picture_has_three_bytes_to_a_pixel(colors: Seq<(u8, u8, u8)>)
    ensures
        packed(colors).len() == 3 * colors.len(),
    decreases colors.len(),
{
    if colors.len() > 0 {
        picture_has_three_bytes_to_a_pixel(colors.drop_last());
    }
}

/// The bytes of a color stand at its place, three to a color: red, green, blue.
pub proof fn colors_keep_their_bytes(colors: Seq<(u8, u8, u8)>, i: int)
    requires
        0 <= i < colors.len(),
    ensures
        packed(colors).len() == 3 * colors.len(),
        packed(colors)[3 * i] == colors[i].0,
        packed(colors)[3 * i + 1] == colors[i].1,
        packed(colors)[3 * i + 2] == colors[i].2,
    decreases colors.len(),
{
    let before = colors.drop_last();
    picture_has_three_bytes_to_a_pixel(colors);
    picture_has_three_bytes_to_a_pixel(before);
    if i < before.len() {
        colors_keep_their_bytes(before, i);
        assert(before[i] == colors[i]);
    }
}

/// A tile changes the pixels that it holds, each by the tile's own pixel for that place,
/// row by row from the tile's corner, and no others; one without pixels changes none.
pub proof fn tiles_change_their_own_pixels<F: Fn(Vec4, Vec4) -> Vec4>(
    before: Vec4,
    tile: Tile,
    chunk: Seq<Vec4>,
    plus: F,
    column: int,
    row: int,
)
    requires
        tile.wf(),
        0 <= column,
        0 <= row,
        chunk.len() == tile.area(),
    ensures
        tile.x_start + column < tile.x_end && tile.y_start + row < tile.y_end ==> added(
            before,
            tile,
            chunk,
            plus,
            tile.x_start + column,
            tile.y_start + row,
        ) == arithmetic::applied2(
            plus,
            before,
            chunk[row * (tile.x_end - tile.x_start) + column],
        ),
        forall|x: int, y: int|
            x < tile.x_start || tile.x_end <= x || y < tile.y_start || tile.y_end <= y
                ==> #[trigger] added(before, tile, chunk, plus, x, y) == before,
        forall|x: int, y: int| #[trigger]
            added(before, tile, Seq::empty(), plus, x, y) == before,
{
    if tile.x_start + column < tile.x_end && tile.y_start + row < tile.y_end {
        chunk_place_inside(tile, tile.x_start + column, tile.y_start + row);
    }
}

/// The seed of a tile is made of its column and its row, each on its own: it is the two
/// seeds of the tiles at the same column above and at the same row on the left, put
/// together bit by bit. Where a tile ends does not matter.
pub proof fn seeds_come_from_column_and_row(tile: Tile, other: Tile)
    requires
        other.x_start == tile.x_start,
        other.y_start == tile.y_start,
    ensures
        tile.seed_of() == other.seed_of(),
        tile.seed_of() == (Tile { y_start: 0, ..tile }).seed_of() ^ (Tile {
            x_start: 0,
            ..tile
        }).seed_of(),
        (Tile { y_start: 0, ..tile }).seed_of() == (tile.x_start * 0x9E37_79B1_7F4A_7C15)
            % 0x1_0000_0000_0000_0000,
        (Tile { x_start: 0, ..tile }).seed_of() == (tile.y_start * 0xBB67_AE85_84CA_A73B)
            % 0x1_0000_0000_0000_0000,
{
    let a = ((tile.x_start * 0x9E37_79B1_7F4A_7C15) % 0x1_0000_0000_0000_0000) as u64;
    let b = ((tile.y_start * 0xBB67_AE85_84CA_A73B) % 0x1_0000_0000_0000_0000) as u64;
    assert(a ^ 0u64 == a) by (bit_vector);
    assert(0u64 ^ b == b) by (bit_vector);
}

} // verus!

//! The tile grid of one pyramid level: how many tiles there are along each
//! axis, how large they are, and which pixels each one covers.

use crate::key::TileRef;
use crate::pyramid::Thumb;
use vstd::arithmetic::div_mod::lemma_fundamental_div_mod_converse;
use vstd::prelude::*;

verus! {

/// `a / b` rounded up, and 0 where `b` is 0.
pub open spec fn ceil_div(a: u32, b: u32) -> u32 {
    if b == 0 {
        0
    } else if a % b == 0 {
        a / b
    } else {
        (a / b + 1) as u32
    }
}

/// The pixels along one axis that tile `i` covers, as a half-open range:
/// tiles of width `tile_size` side by side, cut off at the image's edge.
pub open spec fn span(img_size: u32, tile_size: u32, i: int) -> (int, int) {
    let min = i * tile_size;
    (
        min,
        if min + tile_size <= img_size {
            min + tile_size
        } else {
            img_size as int
        },
    )
}

/// Whether the first pixel of every tile along an axis fits a `u32`.
pub open spec fn axis_fits(grid_size: u32, tile_size: u32) -> bool {
    grid_size == 0 || (grid_size - 1) * tile_size <= u32::MAX
}

/// Whether `grid_size` tiles of width `tile_size` cover `img_size` pixels
/// with none of them empty.
pub open spec fn axis_covers(img_size: u32, grid_size: u32, tile_size: u32) -> bool {
    &&& grid_size >= 1
    &&& (grid_size - 1) * tile_size < img_size
    &&& img_size <= grid_size * tile_size
}

/// `a / b` rounded up, and 0 where `b` is 0.
pub fn div_round_up(a: u32, b: u32) -> (r: u32)
    ensures
        r == ceil_div(a, b),
{
    if b == 0 {
        0
    } else if a % b == 0 {
        a / b
    } else {
        assert(a / b < u32::MAX) by (nonlinear_arith)
            requires
                a % b != 0,
                b > 0,
                a <= u32::MAX,
        ;
        a / b + 1
    }
}

/// Whether the first pixel of every tile along an axis fits a `u32`.
pub fn axis_in_range(grid_size: u32, tile_size: u32) -> (r: bool)
    ensures
        r == axis_fits(grid_size, tile_size),
{
    if grid_size == 0 {
        return true;
    }
    let last: u64 = (grid_size - 1) as u64;
    assert(last * tile_size <= 0xFFFF_FFFF * 0xFFFF_FFFF) by (nonlinear_arith)
        requires
            0 <= last <= 0xFFFF_FFFF,
            0 <= tile_size <= 0xFFFF_FFFF,
    ;
    last * (tile_size as u64) <= u32::MAX as u64
}

/// The tile grid of one level.
#[derive(Debug, PartialEq, Eq)]
pub struct TileSpec {
    /// Width and height of the level in pixels.
    pub img_size: (u32, u32),
    /// Number of tiles along the width and along the height.
    pub grid_size: (u32, u32),
    /// Width and height of a tile in pixels.
    pub tile_size: (u32, u32),
}

/// Where one tile of a level is drawn.
#[derive(Debug, PartialEq, Eq)]
pub struct Placement {
    /// The tile's first pixel column.
    pub x: u32,
    /// The tile's first pixel row.
    pub y: u32,
    /// The tile's key.
    pub tile: TileRef,
}

impl TileSpec {
    /// The first pixel of every tile fits a `u32`, along both axes.
    pub open spec fn wf(self) -> bool {
        &&& axis_fits(self.grid_size.0, self.tile_size.0)
        &&& axis_fits(self.grid_size.1, self.tile_size.1)
    }

    /// The number of tiles of the grid.
    pub open spec fn tile_count(self) -> int {
        self.grid_size.0 * self.grid_size.1
    }

    /// The grid of `grid_size` tiles over an image of `img_size` pixels: along
    /// each axis the tiles are as small as still covers the image.
    pub fn new(img_size: (u32, u32), grid_size: (u32, u32)) -> (r: Self)
        ensures
            r.img_size == img_size,
            r.grid_size == grid_size,
            r.tile_size.0 == ceil_div(img_size.0, grid_size.0),
            r.tile_size.1 == ceil_div(img_size.1, grid_size.1),
            img_size.0 + grid_size.0 <= u32::MAX && img_size.1 + grid_size.1 <= u32::MAX
                ==> r.wf(),
    {
        let tile_size = (
            div_round_up(img_size.0, grid_size.0),
            div_round_up(img_size.1, grid_size.1),
        );
        proof {
            lemma_ceil_div_fits(img_size.0, grid_size.0);
            lemma_ceil_div_fits(img_size.1, grid_size.1);
        }
        TileSpec { img_size, grid_size, tile_size }
    }

    /// Whether the first pixel of every tile fits a `u32`, along both axes.
    pub fn fits(&self) -> (r: bool)
        ensures
            r == self.wf(),
    {
        axis_in_range(self.grid_size.0, self.tile_size.0) && axis_in_range(
            self.grid_size.1,
            self.tile_size.1,
        )
    }

    /// The pixel ranges of the tiles along one axis, in order.
    pub fn ranges(img_size: u32, grid_size: u32, tile_size: u32) -> (r: Vec<(u32, u32)>)
        requires
            axis_fits(grid_size, tile_size),
        ensures
            r@.len() == grid_size,
            forall|i: int|
                0 <= i < grid_size ==> (#[trigger] r@[i]).0 == span(img_size, tile_size, i).0
                    && r@[i].1 == span(img_size, tile_size, i).1,
    {
        let mut r: Vec<(u32, u32)> = Vec::new();
        let mut i: u32 = 0;
        let mut min: u64 = 0;
        while i < grid_size
            invariant
                axis_fits(grid_size, tile_size),
                i <= grid_size,
                min == i * tile_size,
                r@.len() == i,
                forall|j: int|
                    0 <= j < i ==> (#[trigger] r@[j]).0 == span(img_size, tile_size, j).0
                        && r@[j].1 == span(img_size, tile_size, j).1,
            decreases grid_size - i,
        {
            assert(i * tile_size <= (grid_size - 1) * tile_size) by (nonlinear_arith)
                requires
                    0 <= i <= grid_size - 1,
                    0 <= tile_size,
            ;
            assert((i + 1) * tile_size == i * tile_size + tile_size) by (nonlinear_arith);
            let end: u64 = min + tile_size as u64;
            let max: u64 = if end <= img_size as u64 {
                end
            } else {
                img_size as u64
            };
            r.push((min as u32, max as u32));
            min = end;
            i += 1;
        }
        r
    }

    /// The pixel ranges of the tile columns.
    pub fn x_ranges(&self) -> (r: Vec<(u32, u32)>)
        requires
            self.wf(),
        ensures
            r@.len() == self.grid_size.0,
            forall|i: int|
                0 <= i < self.grid_size.0 ==> (#[trigger] r@[i]).0 == span(
                    self.img_size.0,
                    self.tile_size.0,
                    i,
                ).0 && r@[i].1 == span(self.img_size.0, self.tile_size.0, i).1,
    {
        Self::ranges(self.img_size.0, self.grid_size.0, self.tile_size.0)
    }

    /// The pixel ranges of the tile rows.
    pub fn y_ranges(&self) -> (r: Vec<(u32, u32)>)
        requires
            self.wf(),
        ensures
            r@.len() == self.grid_size.1,
            forall|i: int|
                0 <= i < self.grid_size.1 ==> (#[trigger] r@[i]).0 == span(
                    self.img_size.1,
                    self.tile_size.1,
                    i,
                ).0 && r@[i].1 == span(self.img_size.1, self.tile_size.1, i).1,
    {
        Self::ranges(self.img_size.1, self.grid_size.1, self.tile_size.1)
    }
}

impl Thumb {
    /// Where each tile of the level is drawn on the grid `spec`: the tiles
    /// are taken row by row, and within a row column by column, so tile `k`
    /// stands in row `k / width` and column `k % width`.
    pub fn layout(&self, spec: &TileSpec) -> (r: Vec<Placement>)
        requires
            spec.wf(),
            spec.tile_count() <= self.tile_refs@.len(),
        ensures
            r@.len() == spec.tile_count(),
            forall|k: int|
                0 <= k < r@.len() ==> {
                    &&& (#[trigger] r@[k]).x == (k % (spec.grid_size.0 as int)) * spec.tile_size.0
                    &&& r@[k].y == (k / (spec.grid_size.0 as int)) * spec.tile_size.1
                    &&& r@[k].tile == self.tile_refs@[k]
                },
    {
        let xs = spec.x_ranges();
        let ys = spec.y_ranges();
        let w: usize = xs.len();
        let h: usize = ys.len();
        let mut r: Vec<Placement> = Vec::new();
        let mut row: usize = 0;
        assert(0 * w == 0);
        while row < h
            invariant
                w == spec.grid_size.0,
                h == spec.grid_size.1,
                xs@.len() == w,
                ys@.len() == h,
                forall|i: int| 0 <= i < w ==> (#[trigger] xs@[i]).0 == i * spec.tile_size.0,
                forall|i: int| 0 <= i < h ==> (#[trigger] ys@[i]).0 == i * spec.tile_size.1,
                spec.tile_count() <= self.tile_refs@.len(),
                row <= h,
                r@.len() == row * w,
                forall|k: int|
                    0 <= k < r@.len() ==> {
                        &&& (#[trigger] r@[k]).x == (k % (w as int)) * spec.tile_size.0
                        &&& r@[k].y == (k / (w as int)) * spec.tile_size.1
                        &&& r@[k].tile == self.tile_refs@[k]
                    },
            decreases h - row,
        {
            let y: u32 = ys[row].0;
            let mut col: usize = 0;
            while col < w
                invariant
                    w == spec.grid_size.0,
                    h == spec.grid_size.1,
                    xs@.len() == w,
                    forall|i: int| 0 <= i < w ==> (#[trigger] xs@[i]).0 == i * spec.tile_size.0,
                    spec.tile_count() <= self.tile_refs@.len(),
                    row < h,
                    col <= w,
                    y == row * spec.tile_size.1,
                    r@.len() == row * w + col,
                    forall|k: int|
                        0 <= k < r@.len() ==> {
                            &&& (#[trigger] r@[k]).x == (k % (w as int)) * spec.tile_size.0
                            &&& r@[k].y == (k / (w as int)) * spec.tile_size.1
                            &&& r@[k].tile == self.tile_refs@[k]
                        },
                decreases w - col,
            {
                let k: usize = r.len();
                proof {
                    lemma_cell_in_grid(row as int, col as int, w as int, h as int);
                    lemma_fundamental_div_mod_converse(k as int, w as int, row as int, col as int);
                }
                r.push(Placement { x: xs[col].0, y, tile: self.tile_refs[k] });
                col += 1;
            }
            assert((row + 1) * w == row * w + w) by (nonlinear_arith);
            row += 1;
        }
        assert(h * w == w * h) by (nonlinear_arith);
        r
    }
}

/// A cell of a grid has an index below the number of cells.
proof fn lemma_cell_in_grid(row: int, col: int, w: int, h: int)
    requires
        0 <= row < h,
        0 <= col < w,
    ensures
        0 <= row * w + col < w * h,
{
    assert(row * w + col < w * h) by (nonlinear_arith)
        requires
            0 <= row <= h - 1,
            0 <= col < w,
    ;
    assert(0 <= row * w) by (nonlinear_arith)
        requires
            0 <= row,
            0 <= w,
    ;
}

/// Tiles of the rounded-up width reach the image's end together, and the
/// last of them starts less than one grid width past it.
pub proof fn lemma_ceil_div_fits(img_size: u32, grid_size: u32)
    ensures
        grid_size >= 1 ==> img_size <= grid_size * ceil_div(img_size, grid_size),
        grid_size >= 1 ==> (grid_size - 1) * ceil_div(img_size, grid_size) <= img_size
            + grid_size,
        img_size + grid_size <= u32::MAX ==> axis_fits(
            grid_size,
            ceil_div(img_size, grid_size),
        ),
{
    if grid_size >= 1 {
        let t = ceil_div(img_size, grid_size) as int;
        let g = grid_size as int;
        let a = img_size as int;
        let q = a / g;
        let m = a % g;
        assert(a == q * g + m && 0 <= m < g && 0 <= q && q + m <= a) by (nonlinear_arith)
            requires
                q == a / g,
                m == a % g,
                g > 0,
                a >= 0,
        ;
        assert(t == (if m == 0 {
            q
        } else {
            q + 1
        }));
        assert(a <= g * t && (g - 1) * t <= a + g) by (nonlinear_arith)
            requires
                a == q * g + m,
                0 <= m < g,
                0 <= q,
                t == (if m == 0 {
                    q
                } else {
                    q + 1
                }),
        ;
    }
}

/// Where the tiles cover the image with none empty, their ranges partition
/// it: the first starts at 0, each starts where the one before ends, none
/// is empty, and the last ends at the image's edge.
pub proof fn lemma_ranges_partition(img_size: u32, grid_size: u32, tile_size: u32)
    requires
        axis_covers(img_size, grid_size, tile_size),
    ensures
        span(img_size, tile_size, 0).0 == 0,
        span(img_size, tile_size, grid_size - 1).1 == img_size,
        forall|i: int|
            0 <= i < grid_size ==> (#[trigger] span(img_size, tile_size, i)).0 < span(
                img_size,
                tile_size,
                i,
            ).1,
        forall|i: int|
            0 <= i < grid_size - 1 ==> (#[trigger] span(img_size, tile_size, i)).1 == span(
                img_size,
                tile_size,
                i + 1,
            ).0,
{
    let g = grid_size as int;
    let t = tile_size as int;
    assert((g - 1) * t + t == g * t) by (nonlinear_arith);
    assert(t > 0) by (nonlinear_arith)
        requires
            img_size <= g * t,
            (g - 1) * t < img_size,
            g >= 1,
    ;
    assert forall|i: int| 0 <= i < grid_size implies (#[trigger] span(img_size, tile_size, i)).0
        < span(img_size, tile_size, i).1 by {
        assert(i * t <= (g - 1) * t) by (nonlinear_arith)
            requires
                0 <= i <= g - 1,
                t >= 0,
        ;
    }
    assert forall|i: int| 0 <= i < grid_size - 1 implies (#[trigger] span(
        img_size,
        tile_size,
        i,
    )).1 == span(img_size, tile_size, i + 1).0 by {
        assert((i + 1) * t <= (g - 1) * t) by (nonlinear_arith)
            requires
                0 <= i + 1 <= g - 1,
                t >= 0,
        ;
        assert((i + 1) * t == i * t + t) by (nonlinear_arith);
    }
}

} // verus!

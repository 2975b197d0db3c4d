//! The affine projection from grid coordinates to the screen, in fixed point.
//!
//! Screen positions are integers that count 1/65536 of a pixel. A projection
//! is an origin and one displacement for each axis of the grid; from them
//! follow, for every cell, the screen column where the cell begins and the
//! screen row that its elevated centre reaches.

use vstd::prelude::*;
use crate::terrain::{SIZE, sample_height, height_of};

verus! {

/// One pixel, in fixed-point units.
pub const ONE: i64 = 0x1_0000;

/// A screen point or displacement. Both components count 1/65536 of a pixel.
#[derive(Clone, Copy, Debug, PartialEq, Eq)]
pub struct Fixed2 {
    pub x: i32,
    pub y: i32,
}

/// The projection of the grid onto the screen.
///
/// `origin` is where the grid's corner lands. `axes[0]` and `axes[1]` are the
/// displacements of one step along a row and from one row to the next.
/// Of `axes[2]` only `y` is read: the vertical displacement of one unit of
/// elevation.
#[derive(Clone, Copy, Debug)]
pub struct RenderParams {
    pub origin: Fixed2,
    pub axes: [Fixed2; 3],
}

/// Half of `v`, rounded toward zero.
pub open spec fn half_toward_zero(v: int) -> int {
    if v >= 0 {
        v / 2
    } else {
        -((-v) / 2)
    }
}

/// The screen column that holds the fixed-point abscissa `v`, once `v` is
/// brought into a screen of `width` columns; `width` itself stands for
/// everything right of the screen.
pub open spec fn to_column(v: int, width: int) -> int {
    if v < 0 {
        0
    } else if v > width * ONE {
        width
    } else {
        v / (ONE as int)
    }
}

/// The screen row that holds the fixed-point ordinate `v`; everything above
/// the screen counts as row 0.
pub open spec fn to_row(v: int) -> int {
    if v < 0 {
        0
    } else {
        v / (ONE as int)
    }
}

impl RenderParams {
    /// Horizontal displacement of half a step along a row.
    pub open spec fn half_step_x(&self) -> int {
        half_toward_zero(self.axes[0].x as int)
    }

    /// Vertical displacement of half a step along a row.
    pub open spec fn half_step_y(&self) -> int {
        half_toward_zero(self.axes[0].y as int)
    }

    /// Abscissa of the point half a row past the start of row `row`.
    pub open spec fn row_origin_x(&self, row: int) -> int {
        self.origin.x + (self.axes[1].x * (2 * row + 1)) / 2
    }

    /// Ordinate of the point half a row past the start of row `row`.
    pub open spec fn row_origin_y(&self, row: int) -> int {
        self.origin.y + (self.axes[1].y * (2 * row + 1)) / 2
    }

    /// Whether cells further along a row lie further right on the screen.
    pub open spec fn sweeps_right(&self) -> bool {
        self.axes[0].x > 0
    }

    /// The screen column where row `row` begins.
    pub open spec fn row_start(&self, width: int, row: int) -> int {
        to_column(self.row_origin_x(row), width)
    }

    /// The screen column where cell `col` of row `row` begins.
    pub open spec fn cell_edge(&self, width: int, row: int, col: int) -> int {
        to_column(self.row_origin_x(row) + self.half_step_x() * (2 * col), width)
    }

    /// The screen row that the centre of cell `col` of row `row` reaches when
    /// the cell stands `elevation` high.
    pub open spec fn cell_top(&self, row: int, col: int, elevation: int) -> int {
        to_row(
            self.row_origin_y(row) + self.half_step_y() * (2 * col + 1) + elevation
                * self.axes[2].y,
        )
    }

    /// Half a step along a row.
    pub fn half_step(&self) -> (s: (i64, i64))
        ensures
            s.0 == self.half_step_x(),
            s.1 == self.half_step_y(),
            -0x4000_0000 <= s.0 <= 0x4000_0000,
            -0x4000_0000 <= s.1 <= 0x4000_0000,
    {
        let x: i64 = self.axes[0].x as i64;
        let y: i64 = self.axes[0].y as i64;
        (x / 2, y / 2)
    }

    /// The point half a row past the start of row `row`.
    pub fn row_origin(&self, row: usize) -> (o: (i64, i64))
        requires
            row < SIZE,
        ensures
            o.0 == self.row_origin_x(row as int),
            o.1 == self.row_origin_y(row as int),
            -0x1000_0000_0000 <= o.0 <= 0x1000_0000_0000,
            -0x1000_0000_0000 <= o.1 <= 0x1000_0000_0000,
    {
        let k: i64 = 2 * (row as i64) + 1;
        let x: i64 = self.origin.x as i64 + floor_half_of_product(self.axes[1].x, k);
        let y: i64 = self.origin.y as i64 + floor_half_of_product(self.axes[1].y, k);
        (x, y)
    }

    /// The screen column where row `row` begins.
    pub fn project_start(&self, width: u32, row: usize) -> (sx: u32)
        requires
            row < SIZE,
        ensures
            sx == self.row_start(width as int, row as int),
            sx <= width,
    {
        let o = self.row_origin(row);
        column_of(o.0, width)
    }

    /// The screen column where cell `col` of row `row` begins.
    pub fn project_edge(&self, width: u32, row: usize, col: usize) -> (sx: u32)
        requires
            row < SIZE,
            col < SIZE,
        ensures
            sx == self.cell_edge(width as int, row as int, col as int),
            sx <= width,
    {
        let o = self.row_origin(row);
        let h = self.half_step();
        column_of(o.0 + scaled(h.0, 2 * (col as i64)), width)
    }

    /// The screen row that the centre of cell `col` of row `row` reaches,
    /// given the cell's sample.
    pub fn project_top(&self, row: usize, col: usize, sample: u32) -> (y: i64)
        requires
            row < SIZE,
            col < SIZE,
        ensures
            y == self.cell_top(row as int, col as int, sample_height(sample)),
            0 <= y,
    {
        let o = self.row_origin(row);
        let h = self.half_step();
        let lift: i64 = scaled(self.axes[2].y as i64, height_of(sample) as i64);
        row_of(o.1 + scaled(h.1, 2 * (col as i64) + 1) + lift)
    }
}

/// `a * k` for a small factor `k`.
pub(crate) fn scaled(a: i64, k: i64) -> (p: i64)
    requires
        -0x8000_0000 <= a <= 0x8000_0000,
        0 <= k <= 4096,
    ensures
        p == a * k,
        -0x800_0000_0000 <= p <= 0x800_0000_0000,
{
    assert(-0x8000_0000 * 4096 <= a * k <= 0x8000_0000 * 4096) by (nonlinear_arith)
        requires
            -0x8000_0000 <= a <= 0x8000_0000,
            0 <= k <= 4096,
    ;
    a * k
}

/// `a * k / 2`, rounded down.
fn floor_half_of_product(a: i32, k: i64) -> (h: i64)
    requires
        0 <= k <= 4096,
    ensures
        h == (a * k) / 2,
        -0x800_0000_0000 <= h <= 0x800_0000_0000,
{
    let n: i64 = scaled(a as i64, k);
    if n >= 0 {
        n / 2
    } else {
        -((1 - n) / 2)
    }
}

/// The screen column that holds abscissa `v`.
pub(crate) fn column_of(v: i64, width: u32) -> (sx: u32)
    ensures
        sx == to_column(v as int, width as int),
        sx <= width,
{
    let limit: i64 = (width as i64) * ONE;
    if v < 0 {
        0
    } else if v > limit {
        width
    } else {
        (v / ONE) as u32
    }
}

/// The screen row that holds ordinate `v`.
pub(crate) fn row_of(v: i64) -> (y: i64)
    ensures
        y == to_row(v as int),
        0 <= y,
{
    if v < 0 {
        0
    } else {
        v / ONE
    }
}

} // verus!

//! What a frame shows, stated without reference to how it is painted.
//!
//! Rows of the grid are taken nearest first. In each row, a screen column is
//! claimed by at most one cell, its painter: the first cell of the row whose
//! edge lies past the column. A row covers a pixel if the painter of the
//! pixel's column rises at least to the pixel. A pixel shows the nearest row
//! that covers it, and the background if none does.
//!
//! The horizon of a column is the highest top among its painters so far. It
//! takes no part in what a frame shows; it is how painting finds, without
//! comparing depths, the pixels that no nearer row has covered.

use vstd::prelude::*;
use crate::projection::RenderParams;
use crate::terrain::{SIZE, CELLS, sample_height};

verus! {

/// The colour of a pixel that no cell paints.
pub const BACKGROUND: u32 = 0xff2f_2f2f;

/// The bits that make a pixel opaque.
pub const OPAQUE: u32 = 0xff00_0000;

/// Everything a frame depends on.
pub struct Scene {
    pub params: RenderParams,
    pub terrain: Seq<u32>,
    pub width: int,
    pub height: int,
}

impl Scene {
    /// A full grid and a screen of non-negative size.
    pub open spec fn wf(self) -> bool {
        &&& self.terrain.len() == CELLS
        &&& 0 <= self.width
        &&& 0 <= self.height
    }

    /// The sample of cell `col` of row `row`.
    pub open spec fn sample(self, row: int, col: int) -> u32 {
        self.terrain[row * SIZE + col]
    }

    /// The screen column where row `row` begins.
    pub open spec fn start(self, row: int) -> int {
        self.params.row_start(self.width, row)
    }

    /// The screen column where cell `col` of row `row` begins.
    pub open spec fn edge(self, row: int, col: int) -> int {
        self.params.cell_edge(self.width, row, col)
    }

    /// The screen row that cell `col` of row `row` reaches.
    pub open spec fn top(self, row: int, col: int) -> int {
        self.params.cell_top(row, col, sample_height(self.sample(row, col)))
    }

    /// Whether screen column `sx` lies between the start of row `row` and the
    /// edge of its cell `col`, on the side to which the row runs.
    pub open spec fn reaches(self, row: int, col: int, sx: int) -> bool {
        if self.params.sweeps_right() {
            self.start(row) <= sx < self.edge(row, col)
        } else {
            self.edge(row, col) <= sx < self.start(row)
        }
    }

    /// The first cell of row `row`, from `from` on, that reaches `sx`; `SIZE`
    /// if there is none.
    pub open spec fn first_reaching(self, row: int, sx: int, from: int) -> int
        decreases SIZE - from,
    {
        if from >= SIZE {
            SIZE as int
        } else if self.reaches(row, from, sx) {
            from
        } else {
            self.first_reaching(row, sx, from + 1)
        }
    }

    /// The cell of row `row` that claims screen column `sx`: the first that
    /// reaches it. `SIZE` if the row leaves the column alone.
    pub open spec fn painter(self, row: int, sx: int) -> int {
        self.first_reaching(row, sx, 0)
    }

    /// Whether row `row` claims column `sx` with a cell that rises to `y` or
    /// above.
    pub open spec fn covers(self, row: int, sx: int, y: int) -> bool {
        &&& self.painter(row, sx) < SIZE
        &&& self.top(row, self.painter(row, sx)) <= y
    }

    /// The first of the rows `from..rows` that covers pixel `(sx, y)`; `rows`
    /// if none of them does.
    pub open spec fn first_covering(self, sx: int, y: int, from: int, rows: int) -> int
        decreases rows - from,
    {
        if from >= rows {
            rows
        } else if self.covers(from, sx, y) {
            from
        } else {
            self.first_covering(sx, y, from + 1, rows)
        }
    }

    /// The nearest of the first `rows` rows that covers pixel `(sx, y)`;
    /// `rows` if none of them does.
    pub open spec fn nearest(self, sx: int, y: int, rows: int) -> int {
        self.first_covering(sx, y, 0, rows)
    }

    /// What pixel `(sx, y)` shows of the first `rows` rows: the painter of
    /// the nearest row that covers it, or the background.
    pub open spec fn pixel(self, sx: int, y: int, rows: int) -> u32 {
        let row = self.nearest(sx, y, rows);
        if y < self.height && row < rows {
            self.sample(row, self.painter(row, sx))
        } else {
            BACKGROUND
        }
    }

    /// What pixel `(sx, y)` of the finished frame holds.
    pub open spec fn frame_pixel(self, sx: int, y: int) -> u32 {
        self.pixel(sx, y, SIZE as int) | OPAQUE
    }

    /// The horizon of column `sx` once the first `rows` rows are painted: the
    /// highest top among their painters of the column, or the bottom of the
    /// screen.
    pub open spec fn horizon(self, sx: int, rows: int) -> int
        decreases rows,
    {
        if rows <= 0 {
            self.height
        } else {
            let before = self.horizon(sx, rows - 1);
            let col = self.painter(rows - 1, sx);
            if col < SIZE && self.top(rows - 1, col) < before {
                self.top(rows - 1, col)
            } else {
                before
            }
        }
    }
}

/// Cells that do not reach a column can be passed over in the search for its
/// painter.
pub proof fn lemma_first_reaching_skips(scene: Scene, row: int, sx: int, from: int, to: int)
    requires
        0 <= from <= to <= SIZE,
        forall|j: int| from <= j < to ==> !scene.reaches(row, j, sx),
    ensures
        scene.first_reaching(row, sx, from) == scene.first_reaching(row, sx, to),
    decreases to - from,
{
    if from < to {
        lemma_first_reaching_skips(scene, row, sx, from + 1, to);
    }
}

/// The painter of a column is the first cell of the row that reaches it.
pub proof fn lemma_painter_found(scene: Scene, row: int, sx: int, col: int)
    requires
        0 <= col < SIZE,
        scene.reaches(row, col, sx),
        forall|j: int| 0 <= j < col ==> !scene.reaches(row, j, sx),
    ensures
        scene.painter(row, sx) == col,
{
    lemma_first_reaching_skips(scene, row, sx, 0, col);
}

/// A column that no cell of the row reaches has no painter in it.
pub proof fn lemma_painter_none(scene: Scene, row: int, sx: int)
    requires
        forall|j: int| 0 <= j < SIZE ==> !scene.reaches(row, j, sx),
    ensures
        scene.painter(row, sx) == SIZE,
{
    lemma_first_reaching_skips(scene, row, sx, 0, SIZE as int);
}

/// What `first_reaching` finds reaches the column, and nothing it passed
/// over does.
pub proof fn lemma_first_reaching(scene: Scene, row: int, sx: int, from: int)
    requires
        0 <= from <= SIZE,
    ensures
        from <= scene.first_reaching(row, sx, from) <= SIZE,
        scene.first_reaching(row, sx, from) < SIZE ==> scene.reaches(
            row,
            scene.first_reaching(row, sx, from),
            sx,
        ),
        forall|j: int|
            from <= j < scene.first_reaching(row, sx, from) ==> !scene.reaches(row, j, sx),
    decreases SIZE - from,
{
    if from < SIZE && !scene.reaches(row, from, sx) {
        lemma_first_reaching(scene, row, sx, from + 1);
    }
}

/// A painter is a cell of the row that reaches the column, and the first
/// that does. Painted columns lie on the screen.
pub proof fn lemma_painter(scene: Scene, row: int, sx: int)
    requires
        0 <= scene.width,
    ensures
        0 <= scene.painter(row, sx) <= SIZE,
        scene.painter(row, sx) < SIZE ==> scene.reaches(row, scene.painter(row, sx), sx),
        scene.painter(row, sx) < SIZE ==> 0 <= sx < scene.width,
        forall|j: int| 0 <= j < scene.painter(row, sx) ==> !scene.reaches(row, j, sx),
{
    lemma_first_reaching(scene, row, sx, 0);
}

/// A horizon lies on the screen or at its bottom edge.
pub proof fn lemma_horizon_bounds(scene: Scene, sx: int, rows: int)
    requires
        0 <= scene.height,
    ensures
        0 <= scene.horizon(sx, rows) <= scene.height,
    decreases rows,
{
    if rows > 0 {
        lemma_horizon_bounds(scene, sx, rows - 1);
    }
}

/// What `first_covering` finds covers the pixel, and nothing it passed over
/// does.
pub proof fn lemma_first_covering(scene: Scene, sx: int, y: int, from: int, rows: int)
    requires
        from <= rows,
    ensures
        from <= scene.first_covering(sx, y, from, rows) <= rows,
        scene.first_covering(sx, y, from, rows) < rows ==> scene.covers(
            scene.first_covering(sx, y, from, rows),
            sx,
            y,
        ),
        forall|r: int|
            from <= r < scene.first_covering(sx, y, from, rows) ==> !scene.covers(r, sx, y),
    decreases rows - from,
{
    if from < rows && !scene.covers(from, sx, y) {
        lemma_first_covering(scene, sx, y, from + 1, rows);
    }
}

/// One more row changes the first covering row only where none was found.
pub proof fn lemma_first_covering_extends(scene: Scene, sx: int, y: int, from: int, rows: int)
    requires
        from <= rows,
    ensures
        scene.first_covering(sx, y, from, rows + 1) == (if scene.first_covering(
            sx,
            y,
            from,
            rows,
        ) < rows {
            scene.first_covering(sx, y, from, rows)
        } else if scene.covers(rows, sx, y) {
            rows
        } else {
            rows + 1
        }),
    decreases rows - from,
{
    if from < rows {
        if !scene.covers(from, sx, y) {
            lemma_first_covering_extends(scene, sx, y, from + 1, rows);
        }
    } else {
        assert(scene.first_covering(sx, y, rows + 1, rows + 1) == rows + 1);
    }
}

/// The horizon of a column separates the pixels that some row has covered
/// from those that none has: a pixel on the screen lies above the horizon
/// exactly if no row so far covers it.
pub proof fn lemma_horizon_divides(scene: Scene, sx: int, y: int, rows: int)
    requires
        0 <= rows,
    ensures
        y < scene.horizon(sx, rows) <==> y < scene.height && scene.nearest(sx, y, rows) == rows,
    decreases rows,
{
    if rows > 0 {
        lemma_horizon_divides(scene, sx, y, rows - 1);
        lemma_first_covering_extends(scene, sx, y, 0, rows - 1);
        lemma_first_covering(scene, sx, y, 0, rows - 1);
    }
}

/// What one more row does to a pixel: the row's painter takes it if it
/// rises to the pixel and the pixel lies above the horizon; otherwise the
/// pixel stays as it is.
pub proof fn lemma_pixel_step(scene: Scene, sx: int, y: int, row: int)
    requires
        0 <= row,
    ensures
        scene.pixel(sx, y, row + 1) == (if scene.covers(row, sx, y) && y < scene.horizon(
            sx,
            row,
        ) {
            scene.sample(row, scene.painter(row, sx))
        } else {
            scene.pixel(sx, y, row)
        }),
{
    lemma_horizon_divides(scene, sx, y, row);
    lemma_first_covering_extends(scene, sx, y, 0, row);
    lemma_first_covering(scene, sx, y, 0, row);
}

} // verus!

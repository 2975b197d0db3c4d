//! How rows hide one another: what holds of horizons and pixels as row after
//! row is painted.

use vstd::prelude::*;
use crate::scene::{
    Scene,
    BACKGROUND,
    OPAQUE,
    lemma_horizon_bounds,
    lemma_horizon_divides,
    lemma_painter,
    lemma_first_covering,
    lemma_pixel_step,
};
use crate::terrain::{SIZE, CELLS};

verus! {

/// A horizon never moves down: whatever rows are painted after the first
/// `earlier`, the horizon of a column stands where it stood or higher.
pub proof fn lemma_horizon_never_descends(scene: Scene, sx: int, earlier: int, later: int)
    requires
        earlier <= later,
    ensures
        scene.horizon(sx, later) <= scene.horizon(sx, earlier),
    decreases later - earlier,
{
    if earlier < later {
        lemma_horizon_never_descends(scene, sx, earlier, later - 1);
    }
}

/// A row whose painter does not rise above the horizon of a column is
/// hidden there: it moves neither the horizon nor any pixel of the column.
pub proof fn lemma_hidden_row_paints_nothing(scene: Scene, sx: int, y: int, row: int)
    requires
        0 <= row,
        !scene.covers(row, sx, scene.horizon(sx, row) - 1),
    ensures
        scene.horizon(sx, row + 1) == scene.horizon(sx, row),
        scene.pixel(sx, y, row + 1) == scene.pixel(sx, y, row),
{
    lemma_pixel_step(scene, sx, y, row);
}

/// A pixel at or below the horizon of its column is finished: no later row
/// changes it.
pub proof fn lemma_painted_pixel_stays(scene: Scene, sx: int, y: int, earlier: int, later: int)
    requires
        0 <= earlier <= later,
        scene.horizon(sx, earlier) <= y,
    ensures
        scene.pixel(sx, y, later) == scene.pixel(sx, y, earlier),
    decreases later - earlier,
{
    if earlier < later {
        lemma_painted_pixel_stays(scene, sx, y, earlier, later - 1);
        lemma_horizon_never_descends(scene, sx, earlier, later - 1);
        lemma_pixel_step(scene, sx, y, later - 1);
    }
}

/// A column whose horizon has reached the top of the screen is closed: its
/// horizon stays at 0, and no later row paints any of its pixels.
pub proof fn lemma_closed_column_is_final(scene: Scene, sx: int, y: int, earlier: int, later: int)
    requires
        0 <= scene.height,
        0 <= earlier <= later,
        scene.horizon(sx, earlier) == 0,
        0 <= y,
    ensures
        scene.horizon(sx, later) == 0,
        scene.pixel(sx, y, later) == scene.pixel(sx, y, earlier),
{
    lemma_horizon_never_descends(scene, sx, earlier, later);
    lemma_horizon_bounds(scene, sx, later);
    lemma_painted_pixel_stays(scene, sx, y, earlier, later);
}

/// Above the horizon of its column, and off the screen, a pixel is
/// background.
pub proof fn lemma_unpainted_is_background(scene: Scene, sx: int, y: int, rows: int)
    requires
        0 <= rows,
        y < scene.horizon(sx, rows) || scene.height <= y,
    ensures
        scene.pixel(sx, y, rows) == BACKGROUND,
{
    lemma_horizon_divides(scene, sx, y, rows);
}

/// A pixel that no row covers is background.
pub proof fn lemma_uncovered_is_background(scene: Scene, sx: int, y: int, rows: int)
    requires
        forall|r: int| 0 <= r < rows ==> !scene.covers(r, sx, y),
    ensures
        scene.pixel(sx, y, rows) == BACKGROUND,
{
    if 0 <= rows {
        lemma_first_covering(scene, sx, y, 0, rows);
    }
}

/// A pixel on the screen shows the nearest row that covers it: the sample of
/// that row's painter, whatever the rows behind it hold.
pub proof fn lemma_pixel_shows_nearest_cover(scene: Scene, sx: int, y: int, row: int, rows: int)
    requires
        0 <= row < rows,
        y < scene.height,
        scene.covers(row, sx, y),
        forall|r: int| 0 <= r < row ==> !scene.covers(r, sx, y),
    ensures
        scene.pixel(sx, y, rows) == scene.sample(row, scene.painter(row, sx)),
{
    lemma_first_covering(scene, sx, y, 0, rows);
}

/// A heightfield drawn in one colour shows that colour wherever it covers the
/// screen, from the horizon of each column down, and background elsewhere.
pub proof fn lemma_uniform_terrain(scene: Scene, shade: u32, sx: int, y: int, rows: int)
    requires
        scene.wf(),
        forall|i: int| 0 <= i < CELLS ==> scene.terrain[i] == shade,
        0 <= rows <= SIZE,
    ensures
        scene.pixel(sx, y, rows) == (if scene.horizon(sx, rows) <= y < scene.height {
            shade
        } else {
            BACKGROUND
        }),
{
    lemma_horizon_divides(scene, sx, y, rows);
    lemma_first_covering(scene, sx, y, 0, rows);
    let row = scene.nearest(sx, y, rows);
    if row < rows {
        lemma_painter(scene, row, sx);
        let i = row * SIZE + scene.painter(row, sx);
        assert(0 <= i < CELLS);
    }
}

/// Every pixel of a frame is opaque, so no value with a clear top byte is
/// left in a rendered buffer.
pub proof fn lemma_frame_is_opaque(scene: Scene, sx: int, y: int)
    ensures
        scene.frame_pixel(sx, y) & OPAQUE == OPAQUE,
{
    let v = scene.pixel(sx, y, SIZE as int);
    assert((v | 0xff00_0000u32) & 0xff00_0000u32 == 0xff00_0000u32) by (bit_vector);
}

} // verus!

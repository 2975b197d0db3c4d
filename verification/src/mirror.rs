//! Left and right: a projection and its mirror image draw mirrored frames.

use vstd::prelude::*;
use crate::projection::{RenderParams, ONE, to_column};
use crate::scene::Scene;
use crate::terrain::SIZE;

verus! {

/// Whether `q` is `p` reflected about the vertical centre line of a screen
/// `width` columns wide: every abscissa `x` becomes `width - x`, every
/// horizontal displacement changes sign, and nothing vertical changes.
pub open spec fn mirrors(p: RenderParams, q: RenderParams, width: int) -> bool {
    &&& q.origin.x == width * ONE - p.origin.x
    &&& q.origin.y == p.origin.y
    &&& q.axes[0].x == -p.axes[0].x
    &&& q.axes[0].y == p.axes[0].y
    &&& q.axes[1].x == -p.axes[1].x
    &&& q.axes[1].y == p.axes[1].y
    &&& q.axes[2].y == p.axes[2].y
}

/// Whether every row begins, and every cell ends, exactly between two pixels.
pub open spec fn on_whole_pixels(p: RenderParams) -> bool {
    &&& (2 * p.half_step_x()) % (ONE as int) == 0
    &&& forall|row: int| 0 <= row < SIZE ==> #[trigger] p.row_origin_x(row) % (ONE as int) == 0
}

/// `p` seen in a mirror: the scene of `s` with projection `q`.
pub open spec fn reflected(s: Scene, q: RenderParams) -> Scene {
    Scene { params: q, terrain: s.terrain, width: s.width, height: s.height }
}

/// A whole number of pixels stays one when it is reflected.
proof fn lemma_to_column_reflects(v: int, width: int)
    requires
        0 <= width,
        v % (ONE as int) == 0,
    ensures
        to_column(width * ONE - v, width) == width - to_column(v, width),
{
}

/// A multiple of a whole pixel is a whole pixel.
proof fn lemma_whole_steps(h: int, col: int)
    requires
        (2 * h) % (ONE as int) == 0,
    ensures
        (h * (2 * col)) % (ONE as int) == 0,
        (-h) * (2 * col) == -(h * (2 * col)),
{
    let k = (2 * h) / (ONE as int);
    assert(2 * h == k * ONE);
    assert(h * (2 * col) == (k * col) * ONE && (-h) * (2 * col) == -(h * (2 * col)))
        by (nonlinear_arith)
        requires
            2 * h == k * ONE,
    ;
    vstd::arithmetic::div_mod::lemma_mod_multiples_basic(k * col, ONE as int);
}

/// Rows and cells of the mirrored projection lie where the mirror puts them.
proof fn lemma_geometry_reflects(p: RenderParams, q: RenderParams, width: int, row: int, col: int)
    requires
        0 <= width,
        mirrors(p, q, width),
        on_whole_pixels(p),
        0 <= row < SIZE,
    ensures
        q.half_step_x() == -p.half_step_x(),
        q.half_step_y() == p.half_step_y(),
        q.row_origin_x(row) == width * ONE - p.row_origin_x(row),
        q.row_origin_y(row) == p.row_origin_y(row),
        q.row_start(width, row) == width - p.row_start(width, row),
        q.cell_edge(width, row, col) == width - p.cell_edge(width, row, col),
        forall|elevation: int| q.cell_top(row, col, elevation) == p.cell_top(row, col, elevation),
{
    let a = p.axes[1].x as int;
    let r0 = p.row_origin_x(0);
    let r1 = p.row_origin_x(1);
    assert(r0 % (ONE as int) == 0);
    assert(r1 % (ONE as int) == 0);
    assert(a * (2 * 0 + 1) == a && a * (2 * 1 + 1) == 3 * a) by (nonlinear_arith);
    assert(r1 - r0 == a);
    assert(a == 2 * (((r1 / (ONE as int)) - (r0 / (ONE as int))) * 32768));
    assert(a % 2 == 0);
    let t = (a / 2) * (2 * row + 1);
    assert(a * (2 * row + 1) == 2 * t && (-a) * (2 * row + 1) == -2 * t) by (nonlinear_arith)
        requires
            a == 2 * (a / 2),
            t == (a / 2) * (2 * row + 1),
    ;
    assert(q.axes[1].x as int == -a);
    assert(p.row_origin_x(row) == p.origin.x + (2 * t) / 2);
    assert(q.row_origin_x(row) == q.origin.x + (-2 * t) / 2);
    assert(q.row_origin_x(row) == width * ONE - p.row_origin_x(row));
    assert(p.row_origin_x(row) % (ONE as int) == 0);
    lemma_to_column_reflects(p.row_origin_x(row), width);
    lemma_whole_steps(p.half_step_x(), col);
    let v = p.row_origin_x(row) + p.half_step_x() * (2 * col);
    assert(v % (ONE as int) == 0);
    lemma_to_column_reflects(v, width);
}

/// A cell reaches a column exactly if its mirror image reaches the mirrored
/// column.
proof fn lemma_reaches_reflects(s: Scene, q: RenderParams, row: int, col: int, sx: int)
    requires
        0 <= s.width,
        mirrors(s.params, q, s.width),
        on_whole_pixels(s.params),
        0 <= row < SIZE,
    ensures
        reflected(s, q).reaches(row, col, s.width - 1 - sx) == s.reaches(row, col, sx),
{
    lemma_geometry_reflects(s.params, q, s.width, row, col);
    lemma_geometry_reflects(s.params, q, s.width, row, 0);
    if s.params.half_step_x() == 0 {
        assert(s.edge(row, col) == s.start(row));
    }
}

/// The same cell paints a column and, in the mirror, the mirrored column.
proof fn lemma_first_reaching_reflects(s: Scene, q: RenderParams, row: int, sx: int, from: int)
    requires
        0 <= s.width,
        mirrors(s.params, q, s.width),
        on_whole_pixels(s.params),
        0 <= row < SIZE,
        0 <= from,
    ensures
        reflected(s, q).first_reaching(row, s.width - 1 - sx, from) == s.first_reaching(
            row,
            sx,
            from,
        ),
    decreases SIZE - from,
{
    if from < SIZE {
        lemma_reaches_reflects(s, q, row, from, sx);
        lemma_first_reaching_reflects(s, q, row, sx, from + 1);
    }
}

/// A row covers a pixel exactly if, in the mirror, it covers the mirrored
/// pixel, and the same cell paints both.
proof fn lemma_covers_reflects(s: Scene, q: RenderParams, row: int, sx: int, y: int)
    requires
        0 <= s.width,
        mirrors(s.params, q, s.width),
        on_whole_pixels(s.params),
        0 <= row < SIZE,
    ensures
        reflected(s, q).painter(row, s.width - 1 - sx) == s.painter(row, sx),
        reflected(s, q).covers(row, s.width - 1 - sx, y) == s.covers(row, sx, y),
{
    lemma_first_reaching_reflects(s, q, row, sx, 0);
    lemma_geometry_reflects(s.params, q, s.width, row, s.painter(row, sx));
}

/// The same row is the first to cover a pixel and, in the mirror, the
/// mirrored pixel.
proof fn lemma_first_covering_reflects(
    s: Scene,
    q: RenderParams,
    sx: int,
    y: int,
    from: int,
    rows: int,
)
    requires
        0 <= s.width,
        mirrors(s.params, q, s.width),
        on_whole_pixels(s.params),
        0 <= from,
        rows <= SIZE,
    ensures
        reflected(s, q).first_covering(s.width - 1 - sx, y, from, rows) == s.first_covering(
            sx,
            y,
            from,
            rows,
        ),
    decreases rows - from,
{
    if from < rows {
        lemma_covers_reflects(s, q, from, sx, y);
        lemma_first_covering_reflects(s, q, sx, y, from + 1, rows);
    }
}

/// After any number of rows, a column and its mirror image hold the same
/// pixels.
proof fn lemma_rows_reflect(s: Scene, q: RenderParams, sx: int, y: int, rows: int)
    requires
        0 <= s.width,
        mirrors(s.params, q, s.width),
        on_whole_pixels(s.params),
        rows <= SIZE,
    ensures
        reflected(s, q).pixel(s.width - 1 - sx, y, rows) == s.pixel(sx, y, rows),
{
    lemma_first_covering_reflects(s, q, sx, y, 0, rows);
    let row = s.nearest(sx, y, rows);
    if 0 <= row < rows {
        lemma_covers_reflects(s, q, row, sx, y);
    }
    if 0 <= rows {
        crate::scene::lemma_first_covering(s, sx, y, 0, rows);
    }
}

/// Mirrored projections draw mirrored frames.
///
/// Where `q` is the mirror image of the projection of `s`, and rows and cells
/// of `s` begin on whole pixels, the frame of `s` seen through `q` holds in
/// column `width - 1 - sx` what the frame of `s` holds in column `sx`. So the
/// sweep to the right and the sweep to the left agree.
pub proof fn lemma_mirrored_frames(s: Scene, q: RenderParams, sx: int, y: int)
    requires
        0 <= s.width,
        mirrors(s.params, q, s.width),
        on_whole_pixels(s.params),
    ensures
        reflected(s, q).frame_pixel(s.width - 1 - sx, y) == s.frame_pixel(sx, y),
{
    lemma_rows_reflect(s, q, sx, y, SIZE as int);
}

} // verus!

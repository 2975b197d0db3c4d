//! The rasterizer: paints a heightfield into a pixel buffer, nearest row
//! first, one screen column at a time, with no depth buffer.
//!
//! Painting happens in an intermediate buffer laid out column by column, so
//! that each run of pixels a cell paints is contiguous. The finished columns
//! are transposed into the destination at the end.

use vstd::prelude::*;
pub use crate::projection::RenderParams;
use crate::projection::{column_of, row_of, scaled};
use crate::scene::{
    Scene,
    BACKGROUND,
    OPAQUE,
    lemma_painter_found,
    lemma_painter_none,
    lemma_horizon_bounds,
    lemma_pixel_step,
};
use crate::surface::{PixelBuffer, Image};
use crate::terrain::{SIZE, CELLS, height_of};

verus! {

/// The scene that `terrain` and `params` make on a screen laid out as
/// `image`.
pub open spec fn scene_of(image: Image, terrain: Seq<u32>, params: RenderParams) -> Scene {
    Scene { params, terrain, width: image.width, height: image.height }
}

/// The pixel in row `y` of column `sx` of a column-major buffer.
spec fn cell(cells: Seq<u32>, height: int, sx: int, y: int) -> u32 {
    cells[sx * height + y]
}

/// Whether the buffers have the size of the scene's screen.
spec fn canvas_fits(cells: Seq<u32>, horizons: Seq<u32>, scene: Scene) -> bool {
    &&& cells.len() == scene.width * scene.height
    &&& horizons.len() == scene.width
}

/// Whether column `sx` of the buffers is as the scene has it after `rows`
/// rows.
spec fn column_shows(
    cells: Seq<u32>,
    horizons: Seq<u32>,
    scene: Scene,
    sx: int,
    rows: int,
) -> bool {
    &&& horizons[sx] == scene.horizon(sx, rows)
    &&& forall|y: int|
        0 <= y < scene.height ==> #[trigger] cell(cells, scene.height, sx, y) == scene.pixel(
            sx,
            y,
            rows,
        )
}

/// Whether column `sx` is the same in both pairs of buffers.
spec fn same_column(
    cells: Seq<u32>,
    horizons: Seq<u32>,
    cells2: Seq<u32>,
    horizons2: Seq<u32>,
    height: int,
    sx: int,
) -> bool {
    &&& horizons2[sx] == horizons[sx]
    &&& forall|y: int|
        0 <= y < height ==> #[trigger] cell(cells2, height, sx, y) == cell(cells, height, sx, y)
}

/// Whether the buffers are as the scene has them while row `row` is swept:
/// the columns `lo..hi` show the row, all others show the rows before it.
spec fn swept(
    cells: Seq<u32>,
    horizons: Seq<u32>,
    scene: Scene,
    row: int,
    lo: int,
    hi: int,
) -> bool {
    &&& canvas_fits(cells, horizons, scene)
    &&& forall|sx: int|
        0 <= sx < scene.width && lo <= sx < hi ==> #[trigger] column_shows(
            cells,
            horizons,
            scene,
            sx,
            row + 1,
        )
    &&& forall|sx: int|
        0 <= sx < scene.width && !(lo <= sx < hi) ==> #[trigger] column_shows(
            cells,
            horizons,
            scene,
            sx,
            row,
        )
}

/// Every pixel of a column-major buffer has a place of its own.
proof fn lemma_cell_place(width: int, height: int, sx: int, y: int)
    requires
        0 <= sx < width,
        0 <= y < height,
    ensures
        0 <= sx * height,
        sx * height + height <= width * height,
        0 <= sx * height + y < width * height,
{
    assert(0 <= sx * height && sx * height + height <= width * height) by (nonlinear_arith)
        requires
            0 <= sx < width,
            0 < height,
    ;
}

/// Different pixels of a column-major buffer have different places.
proof fn lemma_cell_apart(height: int, a: int, b: int, sx: int, y: int)
    requires
        0 <= b < height,
        0 <= y < height,
        a != sx || b != y,
    ensures
        a * height + b != sx * height + y,
{
    if a < sx {
        assert(a * height + height <= sx * height) by (nonlinear_arith)
            requires
                a < sx,
                0 < height,
        ;
    } else if a > sx {
        assert(sx * height + height <= a * height) by (nonlinear_arith)
            requires
                sx < a,
                0 < height,
        ;
    }
}

/// Paints column `sx` with `sample` from its horizon up to row `top`, and
/// moves the horizon there. Above `top` and in other columns nothing changes.
fn paint_column(
    cells: &mut Vec<u32>,
    horizons: &mut Vec<u32>,
    height: usize,
    sx: usize,
    top: i64,
    sample: u32,
    Ghost(width): Ghost<int>,
)
    requires
        old(cells).len() == width * height,
        old(horizons).len() == width,
        sx < width,
        0 <= top,
        old(horizons)[sx as int] <= height,
    ensures
        final(cells).len() == old(cells).len(),
        final(horizons)@ == old(horizons)@.update(
            sx as int,
            if top < old(horizons)[sx as int] {
                top as u32
            } else {
                old(horizons)[sx as int]
            },
        ),
        forall|a: int, b: int|
            0 <= a < width && 0 <= b < height ==> #[trigger] cell(
                final(cells)@,
                height as int,
                a,
                b,
            ) == (if a == sx && top <= b < old(horizons)[sx as int] {
                sample
            } else {
                cell(old(cells)@, height as int, a, b)
            }),
{
    let ghost cells0 = cells@;
    let before: u32 = horizons[sx];
    if before as i64 <= top {
        return ;
    }
    proof {
        lemma_cell_place(width, height as int, sx as int, 0);
    }
    let base: usize = sx * height;
    let mut m: u32 = before;
    while m as i64 > top
        invariant
            0 <= top <= m <= before <= height,
            sx < width,
            base == sx * height,
            base + height <= cells.len(),
            cells.len() == width * height,
            cells0.len() == width * height,
            forall|a: int, b: int|
                0 <= a < width && 0 <= b < height ==> #[trigger] cell(cells@, height as int, a, b)
                    == (if a == sx && m <= b < before {
                    sample
                } else {
                    cell(cells0, height as int, a, b)
                }),
        decreases m,
    {
        m = m - 1;
        let ghost cells1 = cells@;
        cells[base + m as usize] = sample;
        proof {
            assert forall|a: int, b: int| 0 <= a < width && 0 <= b < height implies #[trigger] cell(
                cells@,
                height as int,
                a,
                b,
            ) == (if a == sx && m <= b < before {
                sample
            } else {
                cell(cells0, height as int, a, b)
            }) by {
                lemma_cell_place(width, height as int, a, b);
                if a != sx || b != m {
                    lemma_cell_apart(height as int, a, b, sx as int, m as int);
                    assert(cell(cells@, height as int, a, b) == cell(cells1, height as int, a, b));
                }
            }
        }
    }
    horizons[sx] = m;
}

/// A column that is the same in two pairs of buffers shows the same.
proof fn lemma_same_column_shows(
    cells: Seq<u32>,
    horizons: Seq<u32>,
    cells2: Seq<u32>,
    horizons2: Seq<u32>,
    scene: Scene,
    sx: int,
    rows: int,
)
    requires
        same_column(cells, horizons, cells2, horizons2, scene.height, sx),
        column_shows(cells, horizons, scene, sx, rows),
    ensures
        column_shows(cells2, horizons2, scene, sx, rows),
{
    assert forall|y: int| 0 <= y < scene.height implies #[trigger] cell(
        cells2,
        scene.height,
        sx,
        y,
    ) == scene.pixel(sx, y, rows) by {
        assert(cell(cells, scene.height, sx, y) == scene.pixel(sx, y, rows));
    }
}

/// Lets cell `col` of row `row`, the painter of column `sx`, paint it. The
/// column lies next to the columns `lo..hi` that the row has swept, and joins
/// them.
fn claim_column(
    cells: &mut Vec<u32>,
    horizons: &mut Vec<u32>,
    height: usize,
    sx: usize,
    top: i64,
    sample: u32,
    Ghost(scene): Ghost<Scene>,
    Ghost(row): Ghost<int>,
    Ghost(col): Ghost<int>,
    Ghost(lo): Ghost<int>,
    Ghost(hi): Ghost<int>,
)
    requires
        scene.height == height,
        sx < scene.width,
        0 <= row,
        0 <= col < SIZE,
        scene.painter(row, sx as int) == col,
        top == scene.top(row, col),
        sample == scene.sample(row, col),
        lo <= hi,
        sx == hi || sx + 1 == lo,
        swept(old(cells)@, old(horizons)@, scene, row, lo, hi),
    ensures
        swept(
            final(cells)@,
            final(horizons)@,
            scene,
            row,
            if sx == hi {
                lo
            } else {
                sx as int
            },
            if sx == hi {
                hi + 1
            } else {
                hi
            },
        ),
{
    let ghost cells0 = cells@;
    let ghost horizons0 = horizons@;
    proof {
        assert(column_shows(cells0, horizons0, scene, sx as int, row));
        lemma_horizon_bounds(scene, sx as int, row);
    }
    paint_column(cells, horizons, height, sx, top, sample, Ghost(scene.width));
    proof {
        assert forall|y: int| 0 <= y < scene.height implies #[trigger] cell(
            cells@,
            scene.height,
            sx as int,
            y,
        ) == scene.pixel(sx as int, y, row + 1) by {
            assert(cell(cells0, scene.height, sx as int, y) == scene.pixel(sx as int, y, row));
            lemma_pixel_step(scene, sx as int, y, row);
        }
        let lo2 = if sx == hi {
            lo
        } else {
            sx as int
        };
        let hi2 = if sx == hi {
            hi + 1
        } else {
            hi
        };
        assert forall|a: int|
            0 <= a < scene.width && lo2 <= a < hi2 implies #[trigger] column_shows(
            cells@,
            horizons@,
            scene,
            a,
            row + 1,
        ) by {
            if a != sx {
                assert(column_shows(cells0, horizons0, scene, a, row + 1));
                assert(same_column(cells0, horizons0, cells@, horizons@, scene.height, a));
                lemma_same_column_shows(cells0, horizons0, cells@, horizons@, scene, a, row + 1);
            }
        }
        assert forall|a: int|
            0 <= a < scene.width && !(lo2 <= a < hi2) implies #[trigger] column_shows(
            cells@,
            horizons@,
            scene,
            a,
            row,
        ) by {
            assert(column_shows(cells0, horizons0, scene, a, row));
            assert(same_column(cells0, horizons0, cells@, horizons@, scene.height, a));
            lemma_same_column_shows(cells0, horizons0, cells@, horizons@, scene, a, row);
        }
    }
}

/// Once a row has swept all the columns that it claims, every column shows
/// the row.
proof fn lemma_row_swept(
    cells: Seq<u32>,
    horizons: Seq<u32>,
    scene: Scene,
    row: int,
    lo: int,
    hi: int,
)
    requires
        0 <= row,
        swept(cells, horizons, scene, row, lo, hi),
        forall|sx: int|
            0 <= sx < scene.width && !(lo <= sx < hi) ==> #[trigger] scene.painter(row, sx)
                == SIZE,
    ensures
        swept(cells, horizons, scene, row + 1, 0, 0),
{
    assert forall|sx: int| 0 <= sx < scene.width implies #[trigger] column_shows(
        cells,
        horizons,
        scene,
        sx,
        row + 1,
    ) by {
        if !(lo <= sx < hi) {
            assert(scene.painter(row, sx) == SIZE);
            assert(column_shows(cells, horizons, scene, sx, row));
            assert forall|y: int| 0 <= y < scene.height implies #[trigger] cell(
                cells,
                scene.height,
                sx,
                y,
            ) == scene.pixel(sx, y, row + 1) by {
                assert(cell(cells, scene.height, sx, y) == scene.pixel(sx, y, row));
                lemma_pixel_step(scene, sx, y, row);
            }
        }
    }
}

/// Paints row `row` of the heightfield over what the rows before it left.
fn paint_row(
    cells: &mut Vec<u32>,
    horizons: &mut Vec<u32>,
    width: u32,
    height: u32,
    terrain: &Vec<u32>,
    params: &RenderParams,
    row: usize,
    Ghost(scene): Ghost<Scene>,
)
    requires
        scene.params == *params,
        scene.terrain == terrain@,
        scene.width == width,
        scene.height == height,
        terrain.len() == CELLS,
        row < SIZE,
        swept(old(cells)@, old(horizons)@, scene, row as int, 0, 0),
    ensures
        swept(final(cells)@, final(horizons)@, scene, row + 1, 0, 0),
{
    let origin = params.row_origin(row);
    let half = params.half_step();
    let start: usize = column_of(origin.0, width) as usize;
    let mut cursor: usize = start;
    let mut col: usize = 0;
    assert(swept(cells@, horizons@, scene, row as int, start as int, start as int));
    if params.axes[0].x > 0 {
        while col < SIZE
            invariant
                scene.params == *params,
                scene.terrain == terrain@,
                scene.width == width,
                scene.height == height,
                terrain.len() == CELLS,
                row < SIZE,
                col <= SIZE,
                origin.0 == params.row_origin_x(row as int),
                origin.1 == params.row_origin_y(row as int),
                -0x1000_0000_0000 <= origin.0 <= 0x1000_0000_0000,
                -0x1000_0000_0000 <= origin.1 <= 0x1000_0000_0000,
                half.0 == params.half_step_x(),
                half.1 == params.half_step_y(),
                -0x4000_0000 <= half.0 <= 0x4000_0000,
                -0x4000_0000 <= half.1 <= 0x4000_0000,
                scene.params.sweeps_right(),
                start == scene.start(row as int),
                start <= cursor <= width,
                forall|j: int| 0 <= j < col ==> scene.edge(row as int, j) <= cursor,
                swept(cells@, horizons@, scene, row as int, start as int, cursor as int),
            decreases SIZE - col,
        {
            let sample: u32 = terrain[row * SIZE + col];
            let edge: usize = column_of(origin.0 + scaled(half.0, 2 * (col as i64)), width)
                as usize;
            let lift: i64 = scaled(params.axes[2].y as i64, height_of(sample) as i64);
            let top: i64 = row_of(origin.1 + scaled(half.1, 2 * (col as i64) + 1) + lift);
            while cursor < edge
                invariant
                    scene.width == width,
                    scene.height == height,
                    row < SIZE,
                    col < SIZE,
                    scene.params.sweeps_right(),
                    start == scene.start(row as int),
                    edge == scene.edge(row as int, col as int),
                    top == scene.top(row as int, col as int),
                    sample == scene.sample(row as int, col as int),
                    start <= cursor <= width,
                    edge <= width,
                    forall|j: int| 0 <= j < col ==> scene.edge(row as int, j) <= cursor,
                    swept(cells@, horizons@, scene, row as int, start as int, cursor as int),
                decreases edge - cursor,
            {
                proof {
                    assert(scene.reaches(row as int, col as int, cursor as int));
                    lemma_painter_found(scene, row as int, cursor as int, col as int);
                }
                claim_column(
                    cells,
                    horizons,
                    height as usize,
                    cursor,
                    top,
                    sample,
                    Ghost(scene),
                    Ghost(row as int),
                    Ghost(col as int),
                    Ghost(start as int),
                    Ghost(cursor as int),
                );
                cursor += 1;
            }
            col += 1;
        }
        proof {
            assert forall|sx: int|
                0 <= sx < scene.width && !(start <= sx < cursor) implies #[trigger] scene.painter(
                row as int,
                sx,
            ) == SIZE by {
                lemma_painter_none(scene, row as int, sx);
            }
            lemma_row_swept(cells@, horizons@, scene, row as int, start as int, cursor as int);
        }
    } else {
        while col < SIZE
            invariant
                scene.params == *params,
                scene.terrain == terrain@,
                scene.width == width,
                scene.height == height,
                terrain.len() == CELLS,
                row < SIZE,
                col <= SIZE,
                origin.0 == params.row_origin_x(row as int),
                origin.1 == params.row_origin_y(row as int),
                -0x1000_0000_0000 <= origin.0 <= 0x1000_0000_0000,
                -0x1000_0000_0000 <= origin.1 <= 0x1000_0000_0000,
                half.0 == params.half_step_x(),
                half.1 == params.half_step_y(),
                -0x4000_0000 <= half.0 <= 0x4000_0000,
                -0x4000_0000 <= half.1 <= 0x4000_0000,
                !scene.params.sweeps_right(),
                start == scene.start(row as int),
                cursor <= start <= width,
                forall|j: int| 0 <= j < col ==> cursor <= scene.edge(row as int, j),
                swept(cells@, horizons@, scene, row as int, cursor as int, start as int),
            decreases SIZE - col,
        {
            let sample: u32 = terrain[row * SIZE + col];
            let edge: usize = column_of(origin.0 + scaled(half.0, 2 * (col as i64)), width)
                as usize;
            let lift: i64 = scaled(params.axes[2].y as i64, height_of(sample) as i64);
            let top: i64 = row_of(origin.1 + scaled(half.1, 2 * (col as i64) + 1) + lift);
            while cursor > edge
                invariant
                    scene.width == width,
                    scene.height == height,
                    row < SIZE,
                    col < SIZE,
                    !scene.params.sweeps_right(),
                    start == scene.start(row as int),
                    edge == scene.edge(row as int, col as int),
                    top == scene.top(row as int, col as int),
                    sample == scene.sample(row as int, col as int),
                    cursor <= start <= width,
                    forall|j: int| 0 <= j < col ==> cursor <= scene.edge(row as int, j),
                    swept(cells@, horizons@, scene, row as int, cursor as int, start as int),
                decreases cursor - edge,
            {
                proof {
                    assert(scene.reaches(row as int, col as int, cursor - 1));
                    lemma_painter_found(scene, row as int, cursor - 1, col as int);
                }
                claim_column(
                    cells,
                    horizons,
                    height as usize,
                    cursor - 1,
                    top,
                    sample,
                    Ghost(scene),
                    Ghost(row as int),
                    Ghost(col as int),
                    Ghost(cursor as int),
                    Ghost(start as int),
                );
                cursor -= 1;
            }
            col += 1;
        }
        proof {
            assert forall|sx: int|
                0 <= sx < scene.width && !(cursor <= sx < start) implies #[trigger] scene.painter(
                row as int,
                sx,
            ) == SIZE by {
                lemma_painter_none(scene, row as int, sx);
            }
            lemma_row_swept(cells@, horizons@, scene, row as int, cursor as int, start as int);
        }
    }
}

/// Copies the finished columns into the destination, row by row, and makes
/// every pixel opaque.
fn transpose(cells: &Vec<u32>, surf: &mut PixelBuffer, Ghost(scene): Ghost<Scene>)
    requires
        scene.width == old(surf)@.width,
        scene.height == old(surf)@.height,
        cells.len() == scene.width * scene.height,
        forall|sx: int, y: int|
            0 <= sx < scene.width && 0 <= y < scene.height ==> #[trigger] cell(
                cells@,
                scene.height,
                sx,
                y,
            ) == scene.pixel(sx, y, SIZE as int),
    ensures
        final(surf)@.wf(),
        final(surf)@.same_layout(old(surf)@),
        forall|x: int, y: int|
            0 <= x < scene.width && 0 <= y < scene.height ==> #[trigger] final(surf)@.pixel(x, y)
                == scene.frame_pixel(x, y),
        forall|i: int|
            old(surf)@.is_padding(i) ==> final(surf)@.words[i] == old(surf)@.words[i],
{
    let size = surf.size();
    let width: u32 = size.0;
    let height: u32 = size.1;
    let mut y: u32 = 0;
    while y < height
        invariant
            y <= height,
            scene.width == width,
            scene.height == height,
            cells.len() == scene.width * scene.height,
            forall|sx: int, b: int|
                0 <= sx < scene.width && 0 <= b < scene.height ==> #[trigger] cell(
                    cells@,
                    scene.height,
                    sx,
                    b,
                ) == scene.pixel(sx, b, SIZE as int),
            surf@.wf(),
            surf@.same_layout(old(surf)@),
            surf@.width == width,
            surf@.height == height,
            forall|a: int, b: int|
                0 <= a < width && 0 <= b < y ==> #[trigger] surf@.pixel(a, b) == scene.frame_pixel(
                    a,
                    b,
                ),
            forall|i: int| old(surf)@.is_padding(i) ==> surf@.words[i] == old(surf)@.words[i],
        decreases height - y,
    {
        let mut x: u32 = 0;
        while x < width
            invariant
                x <= width,
                y < height,
                scene.width == width,
                scene.height == height,
                cells.len() == scene.width * scene.height,
                forall|sx: int, b: int|
                    0 <= sx < scene.width && 0 <= b < scene.height ==> #[trigger] cell(
                        cells@,
                        scene.height,
                        sx,
                        b,
                    ) == scene.pixel(sx, b, SIZE as int),
                surf@.wf(),
                surf@.same_layout(old(surf)@),
                surf@.width == width,
                surf@.height == height,
                forall|a: int, b: int|
                    0 <= a < width && 0 <= b < y ==> #[trigger] surf@.pixel(a, b)
                        == scene.frame_pixel(a, b),
                forall|a: int|
                    0 <= a < x ==> #[trigger] surf@.pixel(a, y as int) == scene.frame_pixel(
                        a,
                        y as int,
                    ),
                forall|i: int| old(surf)@.is_padding(i) ==> surf@.words[i] == old(surf)@.words[i],
            decreases width - x,
        {
            proof {
                lemma_cell_place(width as int, height as int, x as int, y as int);
                assert(cell(cells@, scene.height, x as int, y as int) == scene.pixel(
                    x as int,
                    y as int,
                    SIZE as int,
                ));
            }
            let value: u32 = cells[x as usize * height as usize + y as usize] | OPAQUE;
            let ghost image = surf@;
            surf.put(x, y, value);
            proof {
                assert forall|i: int| old(surf)@.is_padding(i) implies surf@.words[i] == old(
                    surf,
                )@.words[i] by {
                    assert(image.is_padding(i));
                }
            }
            x += 1;
        }
        y += 1;
    }
}

/// Renders `terrain` as `params` projects it into `surf`.
///
/// Every pixel of the buffer is set: to the colour of the nearest cell that
/// covers it, made opaque, or to the background where no cell does. The
/// padding behind the rows is left as it was.
pub fn render_to(surf: &mut PixelBuffer, terrain: &Vec<u32>, params: &RenderParams)
    requires
        terrain.len() == CELLS,
    ensures
        final(surf)@.wf(),
        final(surf)@.same_layout(old(surf)@),
        forall|x: int, y: int|
            0 <= x < old(surf)@.width && 0 <= y < old(surf)@.height
                ==> #[trigger] final(surf)@.pixel(x, y)
                    == scene_of(old(surf)@, terrain@, *params).frame_pixel(x, y),
        forall|i: int|
            old(surf)@.is_padding(i) ==> #[trigger] final(surf)@.words[i] == old(surf)@.words[i],
{
    let size = surf.size();
    let width: u32 = size.0;
    let height: u32 = size.1;
    let ghost scene = scene_of(surf@, terrain@, *params);
    let room: usize = surf.words().len();
    assert(width * height <= room) by (nonlinear_arith)
        requires
            0 <= width <= surf@.stride(),
            0 <= height,
            room == surf@.stride() * height,
    ;
    let mut cells: Vec<u32> = vec![BACKGROUND; width as usize * height as usize];
    let mut horizons: Vec<u32> = vec![height; width as usize];
    let mut row: usize = 0;
    proof {
        assert forall|sx: int| 0 <= sx < width implies #[trigger] column_shows(
            cells@,
            horizons@,
            scene,
            sx,
            0,
        ) by {
            assert forall|y: int| 0 <= y < scene.height implies #[trigger] cell(
                cells@,
                scene.height,
                sx,
                y,
            ) == scene.pixel(sx, y, 0) by {
                lemma_cell_place(width as int, height as int, sx, y);
            }
        }
    }
    while row < SIZE
        invariant
            row <= SIZE,
            scene == scene_of(old(surf)@, terrain@, *params),
            scene.width == width,
            scene.height == height,
            terrain.len() == CELLS,
            swept(cells@, horizons@, scene, row as int, 0, 0),
        decreases SIZE - row,
    {
        paint_row(&mut cells, &mut horizons, width, height, terrain, params, row, Ghost(scene));
        row += 1;
    }
    proof {
        assert forall|sx: int, y: int|
            0 <= sx < scene.width && 0 <= y < scene.height implies #[trigger] cell(
            cells@,
            scene.height,
            sx,
            y,
        ) == scene.pixel(sx, y, SIZE as int) by {
            assert(column_shows(cells@, horizons@, scene, sx, SIZE as int));
        }
    }
    transpose(&cells, surf, Ghost(scene));
}

} // verus!

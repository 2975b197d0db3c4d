//! The heightfield: a square grid of packed samples.
//!
//! A sample is a 32-bit word. Its top byte is the elevation of the cell, its
//! low three bytes are the colour the cell is drawn with. The grid is stored
//! row by row, `SIZE` samples to a row.

use vstd::prelude::*;

verus! {

/// Binary logarithm of the grid's side length.
pub const SIZE_BITS: usize = 11;

/// Side length of the grid, in cells: 2 to the power of `SIZE_BITS`.
pub const SIZE: usize = 2048;

/// Number of samples in a grid: `SIZE` rows of `SIZE` cells.
pub const CELLS: usize = 4_194_304;

/// The elevation that a packed sample carries in its top byte.
pub open spec fn sample_height(sample: u32) -> int {
    sample as int / 0x100_0000
}

/// The sample that stands for elevation `h` drawn in the gray of the same
/// brightness: `h` repeated in all four bytes.
pub open spec fn gray(h: int) -> int {
    h * 0x0101_0101
}

/// Reads the elevation out of a packed sample.
pub fn height_of(sample: u32) -> (h: u32)
    ensures
        h == sample_height(sample),
        h <= 255,
{
    assert(sample >> 24 == sample / 0x100_0000) by (bit_vector);
    assert(sample >> 24 <= 255) by (bit_vector);
    sample >> 24
}

/// Packs elevation `h` into a gray sample.
pub fn gray_sample(h: u8) -> (sample: u32)
    ensures
        sample == gray(h as int),
        sample_height(sample) == h,
{
    let wide: u32 = h as u32;
    wide * 0x0101_0101
}

/// Builds a heightfield out of one elevation per cell, each cell drawn in the
/// gray of its elevation.
pub fn terrain_from_heights(heights: &Vec<u8>) -> (terrain: Vec<u32>)
    ensures
        terrain.len() == heights.len(),
        forall|i: int| 0 <= i < heights.len() ==> terrain[i] == gray(#[trigger] heights[i] as int),
{
    let mut terrain: Vec<u32> = Vec::with_capacity(heights.len());
    let mut i: usize = 0;
    while i < heights.len()
        invariant
            i <= heights.len(),
            terrain.len() == i,
            forall|j: int| 0 <= j < i ==> terrain[j] == gray(#[trigger] heights[j] as int),
        decreases heights.len() - i,
    {
        terrain.push(gray_sample(heights[i]));
        i += 1;
    }
    terrain
}

} // verus!

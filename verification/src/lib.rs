//! Rendering of a heightfield without a depth buffer.
//!
//! A square grid of elevation samples is projected onto the screen row by
//! row, nearest row first. Every screen column keeps a horizon, the lowest
//! row not yet painted; a cell paints its columns from the horizon up to its
//! own top and no further, so what is nearer hides what is farther without
//! any comparison of depths.
//!
//! - [`terrain`]: the grid and its packed samples.
//! - [`projection`]: the fixed-point projection of cells onto the screen.
//! - [`surface`]: the pixel buffer a frame is written to.
//! - [`scene`]: what a frame shows, as a mathematical statement.
//! - [`renderer`]: the rasterizer, proved to paint what [`scene`] states.
//! - [`occlusion`] and [`mirror`]: what follows for every frame.
//! - [`input`]: what pointer and keyboard events ask of the camera.

pub mod input;
pub mod mirror;
pub mod occlusion;
pub mod projection;
pub mod renderer;
pub mod scene;
pub mod surface;
pub mod terrain;

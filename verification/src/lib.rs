//! Adaptive tiling of an escape-time fractal.
//!
//! The plane is cut into a quadtree of square regions. Each frame decides,
//! region by region, whether one tile of fixed resolution shows all the
//! detail the screen can take, or whether the region is split into four;
//! tiles are computed off the render path and coarser tiles stand in until
//! the finer ones are there.
//!
//! The crate computes and decides; it neither opens a window nor starts a
//! thread. [`fractal::FractalNode::draw`] takes the viewport and the list of
//! tiles that have finished, and gives the host the list of things to do.
//! [`fractal::render_tile`] is what a worker runs.
//!
//! All arithmetic is exact: integers, and fixed point with 52 fractional
//! bits for the plane, the scale and the orbit; see [`fixed`].
//!
//! - [`escape`]: the escape-time evaluator
//! - [`color`]: the gradient
//! - [`region`]: squares and their quadrants
//! - [`pixels`] and [`util`]: the tile image and its rasterizer
//! - [`viewport`]: level of detail, visibility, placement
//! - [`fractal`]: the tree and its frames
//! - [`frame`] and [`cache`]: what holds of every frame

pub mod cache;
pub mod color;
pub mod escape;
pub mod fixed;
pub mod fractal;
pub mod frame;
pub mod pixels;
pub mod region;
pub mod util;
pub mod viewport;

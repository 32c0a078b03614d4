//! Integer line rasterisation on a grid.
//!
//! [`LineIter`] walks the cells of a straight line between two grid points
//! with integer arithmetic alone. [`geometry`] says what that line is, and
//! [`laws`] holds what is proved of every line.

pub mod geometry;
pub mod laws;
pub mod line_iter;
mod rounding;

pub use line_iter::{make_delta, LineIter};

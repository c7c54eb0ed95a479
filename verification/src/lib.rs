//! Conway's Game of Life on a bounded (non-wrapping) rectangular grid.
//!
//! The grid stores a dense row-major sequence of binary cells. Each
//! generation is computed from the full previous snapshot: neighbor
//! counting uses the Moore neighborhood clipped at the grid edges, and
//! the classic birth/survival rule decides every cell simultaneously.

pub mod grid;
pub mod render;
pub mod seed;

pub use grid::Cell;
pub use grid::Grid;

//! Conway's Game of Life on a fixed-size toroidal (wrap-around) square grid.
//!
//! The engine keeps a `size x size` grid of cells, recomputes every cell's
//! live-neighbor count from the current generation, and then advances every
//! cell according to the standard B3/S23 rule. Rendering and input pacing are
//! left to the caller.

pub mod board;
pub mod cell;
pub mod point;

pub use board::Board;
pub use board::SeedOutOfRange;
pub use cell::Cell;
pub use point::Point;
pub use point::wrap_index;

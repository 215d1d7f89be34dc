//! Conway's Game of Life on a fixed-size toroidal grid, one bit per cell.
//!
//! The grid is stored in a [`fixedbitset::FixedBitSet`]. Every operation is
//! specified over a mathematical model of the grid, [`grid::Grid`], and the
//! executable code is proved against that model.

pub mod bitset;
pub mod grid;
pub mod laws;
pub mod universe;

pub use universe::Universe;
pub use universe::UniverseError;

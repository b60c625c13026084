//! A simplified falling-block puzzle on a fixed 10 x 100 grid.
//!
//! Pieces from a catalog of seven tetromino shapes are dropped straight down
//! into a chosen column, come to rest on the stack beneath them, and fully
//! occupied rows are cleared. [`Grid`] holds the board state and exposes the
//! one mutating operation, [`Grid::place`]; [`solve`] runs a whole
//! comma-separated list of placement tokens and reports the final height.

pub mod grid;
pub mod puzzle;
pub mod shape;

pub use grid::Grid;
pub use puzzle::solve;
pub use shape::Error;
pub use shape::Placement;
pub use shape::Shape;

//! Conway's Game of Life on a toroidal board of 64 by 64 cells.
//!
//! The board, [`Universe`], stores one bit per cell in a `bitvec` bit vector.
//! Every operation on it is specified against a mathematical model of the
//! board, [`grid::Grid`], and proved to agree with the model. The other
//! modules prove what the model implies: how cells count their neighbours
//! across the edges, which patterns die or stay, how the glider travels, and
//! what the picture of a board looks like.

pub mod bits;
pub mod glider;
pub mod grid;
pub mod neighbors;
pub mod packing;
pub mod picture;
pub mod still_life;
pub mod universe;

pub use universe::Universe;

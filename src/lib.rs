//! The N×N sliding-tile puzzle: a square grid of distinct numbered tiles and
//! one blank cell, where a tile beside the blank may slide into it.

pub mod board;
pub mod coordinates;
pub mod laws;
pub mod error;
pub mod text;
pub mod util;

pub use board::Board;
pub use coordinates::Coordinates;
pub use error::Error;
pub use util::get_starting_index;

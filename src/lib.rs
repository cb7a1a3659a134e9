//! Hexagonal-grid coordinates: integer cube cells, rounding of fractional
//! cube coordinates to cells, and a sparse map from cells to paint.
pub mod color;
pub mod grid;
pub mod hex;
pub mod round;

pub use color::Color;
pub use grid::Grid;
pub use hex::Hex;
pub use round::FracHex;

//! A fixed-size two-dimensional grid in one contiguous buffer, with checked
//! access by coordinate pair, a walk over all cells, and a binary wire format.

pub mod bounds;
pub mod codec;
pub mod grid;
pub mod ieee;
pub mod laws;
pub mod wire;

pub use bounds::OutOfBounds;
pub use codec::{DecodeError, FromToBytes};
pub use grid::Vec2D;
pub use ieee::Binary64;

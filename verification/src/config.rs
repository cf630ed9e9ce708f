//! What can be wrong with the parameters of a board or a piece.
use vstd::prelude::*;

verus! {

/// Why a board or a piece cannot be built from the parameters given.
#[derive(Debug, Clone, Copy, PartialEq, Eq, Structural)]
pub enum ConfigError {
    /// A board dimension is zero, or the sections do not cover the board.
    InvalidDimensions,
    /// The cells handed to a board are not one per position of the grid.
    InvalidFieldCount,
    /// A piece is wider than the grid it is laid on, or has no cell.
    InvalidGeometry,
}

} // verus!

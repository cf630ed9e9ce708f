//! Positions on the board, and the position that a dragged piece snaps to.
use vstd::prelude::*;
use crate::board::Board;

verus! {

/// A position of the board: a column and a row, counted from the top left.
#[derive(Debug, Clone, Copy, PartialEq, Eq, Structural)]
pub struct TilePos {
    /// The column.
    pub x: u32,
    /// The row.
    pub y: u32,
}

/// The position of the board that a dragged piece would be put at, if there
/// is one.
#[derive(Debug, Clone, Copy, PartialEq, Eq, Structural)]
pub struct TileCoords {
    /// The position, or `None` while the piece cannot be put.
    pub tile_coords: Option<TilePos>,
}

impl Default for TileCoords {
    /// No position.
    fn default() -> (coords: TileCoords)
        ensures
            coords.tile_coords is None,
    {
        TileCoords { tile_coords: None }
    }
}

/// Takes over the position `dragged` over which a piece hovers, if `piece`
/// can be put there, and no position otherwise.
pub fn update_tile_coords(
    coords: &mut TileCoords,
    dragged: Option<TilePos>,
    board: &Board,
    piece: &[usize],
)
    ensures
        final(coords).tile_coords == (if dragged matches Some(at) && board@.place_error(
            at.x as int,
            at.y as int,
            piece@,
        ) is None {
            dragged
        } else {
            None
        }),
{
    let mut target: Option<TilePos> = dragged;
    if let Some(at) = dragged {
        if board.can_place_piece(at.x as usize, at.y as usize, piece).is_err() {
            target = None;
        }
    }
    coords.tile_coords = target;
}

} // verus!

//! A grid placement and clearing engine for block puzzles.
//!
//! A [`board::Board`] is a fixed grid of cells, cut into square sections.
//! Pieces, described by [`piece::PieceFields`], are placed onto it; every
//! row, column or section that a placement fills up is reported as a
//! [`board::BoardClear`] and waits in a [`board::BoardClearQueue`] until it
//! is worked off, which earns the player cards and empties the cells again.
//!
//! The contracts are stated over [`grid::Grid`], the board as a mathematical
//! value; [`laws`] holds what follows from them for every board.
pub mod board;
pub mod card;
pub mod config;
pub mod coords;
pub mod grid;
pub mod laws;
pub mod level;
pub mod piece;
pub mod pieces;
pub mod tile_placement;

//! The course of the levels: what follows when a level is over.
use vstd::prelude::*;

verus! {

/// The states of the game.
#[derive(Debug, Clone, Copy, PartialEq, Eq, Hash, Structural)]
pub enum GameState {
    /// The assets are being loaded.
    Loading,
    /// A level is being played.
    Playing,
    /// The last level has been won.
    Won,
    /// The menu is shown.
    Menu,
}

/// The steps in the course of a level.
#[derive(Debug, Clone, Copy, PartialEq, Eq, Structural)]
pub enum LevelEv {
    /// The level is announced.
    LevelIn,
    /// The level begins.
    LevelStart,
    /// The level has ended.
    LevelOver {
        /// Whether the player has won it.
        won: bool,
    },
    /// The level is taken away.
    LevelOut,
}

impl LevelEv {
    /// Whether `other` is the same step of a level, whatever it carries.
    pub open spec fn same_step(self, other: LevelEv) -> bool {
        match self {
            LevelEv::LevelIn => other is LevelIn,
            LevelEv::LevelStart => other is LevelStart,
            LevelEv::LevelOver { .. } => other is LevelOver,
            LevelEv::LevelOut => other is LevelOut,
        }
    }

    /// Whether `other` is the same step of a level, whatever it carries.
    pub fn eq(&self, other: &Self) -> (same: bool)
        ensures
            same == self.same_step(*other),
    {
        match (self, other) {
            (LevelEv::LevelIn, LevelEv::LevelIn) => true,
            (LevelEv::LevelStart, LevelEv::LevelStart) => true,
            (LevelEv::LevelOver { .. }, LevelEv::LevelOver { .. }) => true,
            (LevelEv::LevelOut, LevelEv::LevelOut) => true,
            _ => false,
        }
    }
}

/// What follows a level that is over.
#[derive(Debug, Clone, Copy, PartialEq, Eq, Structural)]
pub struct NextLevel {
    /// The number of the level that is played next.
    pub level_index: usize,
    /// Whether that level is played again because it was lost.
    pub retry: bool,
    /// The state that the game goes to.
    pub state: GameState,
}

/// What follows level `level_index` of `level_count` levels: a lost level is
/// played again; a won level is followed by the next one; after the last
/// level the game is won, and the first level comes next.
pub open spec fn level_after(level_index: int, level_count: int, won: bool) -> NextLevel {
    if !won {
        NextLevel { level_index: level_index as usize, retry: true, state: GameState::Playing }
    } else if level_index >= level_count - 1 {
        NextLevel { level_index: 0, retry: false, state: GameState::Won }
    } else {
        NextLevel {
            level_index: (level_index + 1) as usize,
            retry: false,
            state: GameState::Playing,
        }
    }
}

/// What follows level `level_index` of `level_count` levels, which the player
/// has won or lost.
pub fn on_level_over(level_index: usize, level_count: usize, won: bool) -> (next: NextLevel)
    requires
        level_count > 0,
    ensures
        next == level_after(level_index as int, level_count as int, won),
{
    if won {
        if level_index >= level_count - 1 {
            NextLevel { level_index: 0, retry: false, state: GameState::Won }
        } else {
            NextLevel { level_index: level_index + 1, retry: false, state: GameState::Playing }
        }
    } else {
        NextLevel { level_index, retry: true, state: GameState::Playing }
    }
}

} // verus!

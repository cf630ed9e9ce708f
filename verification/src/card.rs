//! Cards: what a clear of the game's board earns the player.
use vstd::prelude::*;
use crate::board::BoardClear;

verus! {

/// The most cards that a player can hold.
pub const MAX_CARDS: usize = 5;

/// What a card carries.
#[derive(Debug, Clone, Copy, PartialEq, Eq, Hash, Structural)]
pub enum Ingredient {
    Pumpkin,
    Potato,
    Tomato,
    Eggplant,
    Mushroom,
    Garlic,
}

impl Ingredient {
    /// The place of the ingredient's picture on the sprite sheet.
    pub open spec fn sprite_index(self) -> usize {
        match self {
            Ingredient::Eggplant => 0,
            Ingredient::Pumpkin => 1,
            Ingredient::Potato => 2,
            Ingredient::Mushroom => 3,
            Ingredient::Garlic => 4,
            Ingredient::Tomato => 5,
        }
    }

    /// The place of the ingredient's picture on the sprite sheet.
    pub fn get_sprite_index(&self) -> (index: usize)
        ensures
            index == self.sprite_index(),
    {
        match self {
            Ingredient::Eggplant => 0,
            Ingredient::Pumpkin => 1,
            Ingredient::Potato => 2,
            Ingredient::Mushroom => 3,
            Ingredient::Garlic => 4,
            Ingredient::Tomato => 5,
        }
    }

    /// The number of the ingredient, from 1 in the order of declaration: the
    /// common ones come first, the rare ones from `Eggplant` on.
    pub open spec fn rank(self) -> u8 {
        match self {
            Ingredient::Pumpkin => 1,
            Ingredient::Potato => 2,
            Ingredient::Tomato => 3,
            Ingredient::Eggplant => 4,
            Ingredient::Mushroom => 5,
            Ingredient::Garlic => 6,
        }
    }

    /// The number of the ingredient, from 1 in the order of declaration.
    pub fn number(&self) -> (n: u8)
        ensures
            n == self.rank(),
    {
        match self {
            Ingredient::Pumpkin => 1,
            Ingredient::Potato => 2,
            Ingredient::Tomato => 3,
            Ingredient::Eggplant => 4,
            Ingredient::Mushroom => 5,
            Ingredient::Garlic => 6,
        }
    }
}

/// Whether `clear` names a row, a column or a section of the game's board of
/// nine by nine cells, so that it earns a card.
pub open spec fn earns_card(clear: BoardClear) -> bool {
    match clear {
        BoardClear::Row(row) => row <= 8,
        BoardClear::Column(col) => col <= 8,
        BoardClear::Section { section_index, .. } => section_index <= 8,
    }
}

/// The ingredient of the card that `clear` earns. Rows give tomato, potato
/// and pumpkin from the top band of three down, columns give pumpkin, potato
/// and tomato from the left band of three on, and each section has its own.
pub open spec fn clear_ingredient(clear: BoardClear) -> Ingredient {
    match clear {
        BoardClear::Row(row) => if row <= 2 {
            Ingredient::Tomato
        } else if row <= 5 {
            Ingredient::Potato
        } else {
            Ingredient::Pumpkin
        },
        BoardClear::Column(col) => if col <= 2 {
            Ingredient::Pumpkin
        } else if col <= 5 {
            Ingredient::Potato
        } else {
            Ingredient::Tomato
        },
        BoardClear::Section { section_index, .. } => if section_index == 0 {
            Ingredient::Eggplant
        } else if section_index == 1 || section_index == 5 {
            Ingredient::Pumpkin
        } else if section_index == 2 || section_index == 6 {
            Ingredient::Potato
        } else if section_index == 3 || section_index == 7 {
            Ingredient::Tomato
        } else if section_index == 4 {
            Ingredient::Mushroom
        } else {
            Ingredient::Garlic
        },
    }
}

/// Whether `clear` names a row, a column or a section of the game's board, so
/// that it earns a card.
pub fn earns_a_card(clear: &BoardClear) -> (earns: bool)
    ensures
        earns == earns_card(*clear),
{
    match clear {
        BoardClear::Row(row) => *row <= 8,
        BoardClear::Column(col) => *col <= 8,
        BoardClear::Section { section_index, .. } => *section_index <= 8,
    }
}

/// The ingredient of the card that `clear` earns.
pub fn card_ingredient(clear: &BoardClear) -> (ingredient: Ingredient)
    requires
        earns_card(*clear),
    ensures
        ingredient == clear_ingredient(*clear),
{
    match clear {
        BoardClear::Row(row) => match *row {
            0..=2 => Ingredient::Tomato,
            3..=5 => Ingredient::Potato,
            _ => Ingredient::Pumpkin,
        },
        BoardClear::Column(col) => match *col {
            0..=2 => Ingredient::Pumpkin,
            3..=5 => Ingredient::Potato,
            _ => Ingredient::Tomato,
        },
        BoardClear::Section { section_index, .. } => match *section_index {
            0 => Ingredient::Eggplant,
            1 | 5 => Ingredient::Pumpkin,
            2 | 6 => Ingredient::Potato,
            3 | 7 => Ingredient::Tomato,
            4 => Ingredient::Mushroom,
            _ => Ingredient::Garlic,
        },
    }
}

} // verus!

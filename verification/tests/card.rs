use board_engine::board::BoardClear;
use board_engine::card::card_ingredient;
use board_engine::card::earns_a_card;
use board_engine::card::Ingredient;
use board_engine::card::MAX_CARDS;

fn section(index: usize) -> BoardClear {
    BoardClear::Section {
        section_index: index,
        used_special: false,
    }
}

#[test]
fn rows_earn_by_band() {
    assert_eq!(card_ingredient(&BoardClear::Row(0)), Ingredient::Tomato);
    assert_eq!(card_ingredient(&BoardClear::Row(2)), Ingredient::Tomato);
    assert_eq!(card_ingredient(&BoardClear::Row(3)), Ingredient::Potato);
    assert_eq!(card_ingredient(&BoardClear::Row(5)), Ingredient::Potato);
    assert_eq!(card_ingredient(&BoardClear::Row(6)), Ingredient::Pumpkin);
    assert_eq!(card_ingredient(&BoardClear::Row(8)), Ingredient::Pumpkin);
}

#[test]
fn columns_earn_by_band() {
    assert_eq!(card_ingredient(&BoardClear::Column(0)), Ingredient::Pumpkin);
    assert_eq!(card_ingredient(&BoardClear::Column(2)), Ingredient::Pumpkin);
    assert_eq!(card_ingredient(&BoardClear::Column(3)), Ingredient::Potato);
    assert_eq!(card_ingredient(&BoardClear::Column(5)), Ingredient::Potato);
    assert_eq!(card_ingredient(&BoardClear::Column(6)), Ingredient::Tomato);
    assert_eq!(card_ingredient(&BoardClear::Column(8)), Ingredient::Tomato);
}

#[test]
fn sections_earn_each_their_own() {
    let expected = [
        Ingredient::Eggplant,
        Ingredient::Pumpkin,
        Ingredient::Potato,
        Ingredient::Tomato,
        Ingredient::Mushroom,
        Ingredient::Pumpkin,
        Ingredient::Potato,
        Ingredient::Tomato,
        Ingredient::Garlic,
    ];
    for (index, ingredient) in expected.iter().enumerate() {
        assert_eq!(card_ingredient(&section(index)), *ingredient);
        assert_eq!(
            card_ingredient(&BoardClear::Section {
                section_index: index,
                used_special: true
            }),
            *ingredient
        );
    }
}

#[test]
fn sprite_indices() {
    assert_eq!(Ingredient::Eggplant.get_sprite_index(), 0);
    assert_eq!(Ingredient::Pumpkin.get_sprite_index(), 1);
    assert_eq!(Ingredient::Potato.get_sprite_index(), 2);
    assert_eq!(Ingredient::Mushroom.get_sprite_index(), 3);
    assert_eq!(Ingredient::Garlic.get_sprite_index(), 4);
    assert_eq!(Ingredient::Tomato.get_sprite_index(), 5);
}

#[test]
fn numbers_follow_the_declaration() {
    assert_eq!(Ingredient::Pumpkin.number(), 1);
    assert_eq!(Ingredient::Potato.number(), 2);
    assert_eq!(Ingredient::Tomato.number(), 3);
    assert_eq!(Ingredient::Eggplant.number(), 4);
    assert_eq!(Ingredient::Mushroom.number(), 5);
    assert_eq!(Ingredient::Garlic.number(), 6);
    assert_eq!(MAX_CARDS, 5);
}

#[test]
fn only_lines_of_the_game_board_earn_cards() {
    assert!(earns_a_card(&BoardClear::Row(0)));
    assert!(earns_a_card(&BoardClear::Row(8)));
    assert!(!earns_a_card(&BoardClear::Row(9)));
    assert!(earns_a_card(&BoardClear::Column(8)));
    assert!(!earns_a_card(&BoardClear::Column(9)));
    assert!(earns_a_card(&section(8)));
    assert!(!earns_a_card(&section(9)));
}

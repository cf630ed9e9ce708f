use board_engine::board::Board;
use board_engine::board::BoardClear;
use board_engine::board::PlaceError;
use board_engine::coords::TilePos;
use board_engine::config::ConfigError;

fn board_with(width: usize, height: usize, section_size: usize, taken: &[usize]) -> Board {
    let mut fields = vec![false; width * height];
    for i in taken {
        fields[*i] = true;
    }
    Board::with_fields(width, height, section_size, fields).unwrap()
}

fn section(index: usize) -> BoardClear {
    BoardClear::Section {
        section_index: index,
        used_special: false,
    }
}

#[test]
fn new_accepts_dimensions_that_sections_cover() {
    assert!(Board::new(1, 1, 1).is_ok());
    assert!(Board::new(3, 3, 1).is_ok());
    assert!(Board::new(3, 3, 3).is_ok());
    assert!(Board::new(12, 9, 3).is_ok());
}

#[test]
fn new_rejects_sections_that_do_not_cover() {
    assert_eq!(Board::new(10, 10, 3).err(), Some(ConfigError::InvalidDimensions));
}

#[test]
fn new_rejects_zero_dimensions() {
    assert_eq!(Board::new(0, 1, 1).err(), Some(ConfigError::InvalidDimensions));
    assert_eq!(Board::new(1, 0, 1).err(), Some(ConfigError::InvalidDimensions));
    assert_eq!(Board::new(1, 1, 0).err(), Some(ConfigError::InvalidDimensions));
}

#[test]
fn new_board_is_empty() {
    let board = Board::new(12, 9, 3).unwrap();
    assert_eq!(board.width(), 12);
    assert_eq!(board.height(), 9);
    assert_eq!(board.section_size(), 3);
    assert_eq!(board.fields(), vec![false; 108].as_slice());
}

#[test]
fn default_board_is_nine_by_nine() {
    let board = Board::default();
    assert_eq!(board.width(), 9);
    assert_eq!(board.height(), 9);
    assert_eq!(board.section_size(), 3);
    assert_eq!(board.fields(), vec![false; 81].as_slice());
}

#[test]
fn new_with_fields() {
    let board = Board::with_fields(2, 1, 1, vec![true, false]).unwrap();
    assert_eq!(board.fields(), [true, false].as_slice());
    assert!(board.is_occupied(0));
    assert!(!board.is_occupied(1));
}

#[test]
fn new_with_fields_of_wrong_length() {
    assert_eq!(
        Board::with_fields(2, 1, 1, vec![true]).err(),
        Some(ConfigError::InvalidFieldCount)
    );
}

#[test]
fn with_fields_looks_at_dimensions_first() {
    assert_eq!(
        Board::with_fields(10, 10, 3, vec![true]).err(),
        Some(ConfigError::InvalidDimensions)
    );
    assert_eq!(
        Board::with_fields(0, 1, 1, Vec::new()).err(),
        Some(ConfigError::InvalidDimensions)
    );
}

#[test]
fn can_place_l_piece() {
    let board = Board::new(6, 9, 3).unwrap();
    // L piece
    let piece = [0, 6, 12, 13];
    assert!(matches!(board.can_place_piece(0, 0, &piece), Ok(_)));
    assert!(matches!(board.can_place_piece(3, 3, &piece), Ok(_)));
    assert!(matches!(board.can_place_piece(4, 6, &piece), Ok(_)));
    assert!(matches!(
        board.can_place_piece(5, 0, &piece),
        Err(PlaceError::OutOfBounds)
    ));
    assert!(matches!(
        board.can_place_piece(50, 0, &piece),
        Err(PlaceError::OutOfBounds)
    ));
    assert!(matches!(
        board.can_place_piece(0, 7, &piece),
        Err(PlaceError::OutOfBounds)
    ));
    assert!(matches!(
        board.can_place_piece(0, 50, &piece),
        Err(PlaceError::OutOfBounds)
    ));
}

#[test]
fn can_place_square_piece_maybe_taken() {
    // square piece
    let piece = [0, 1, 6, 7];
    let board = board_with(6, 9, 3, &piece);
    assert!(matches!(board.can_place_piece(0, 0, &piece), Err(PlaceError::Taken)));
    assert!(matches!(board.can_place_piece(1, 0, &piece), Err(PlaceError::Taken)));
    assert!(matches!(board.can_place_piece(0, 1, &piece), Err(PlaceError::Taken)));
    assert!(matches!(board.can_place_piece(2, 2, &piece), Ok(_)));
    assert!(matches!(board.can_place_piece(4, 4, &piece), Ok(_)));
}

#[test]
fn out_of_bounds_wins_over_taken() {
    // the first cell is taken, the last one leaves the board
    let board = board_with(6, 9, 3, &[5]);
    assert_eq!(
        board.can_place_piece(5, 0, &[0, 1]),
        Err(PlaceError::OutOfBounds)
    );
    assert_eq!(board.can_place_piece(5, 0, &[0]), Err(PlaceError::Taken));
    // an offset past the last cell
    assert_eq!(
        board.can_place_piece(0, 0, &[54]),
        Err(PlaceError::OutOfBounds)
    );
    // sums that do not fit in a machine word
    assert_eq!(
        board.can_place_piece(0, 0, &[usize::MAX]),
        Err(PlaceError::OutOfBounds)
    );
    assert_eq!(
        board.can_place_piece(usize::MAX, 0, &[1]),
        Err(PlaceError::OutOfBounds)
    );
    assert_eq!(
        board.can_place_piece(0, usize::MAX, &[1]),
        Err(PlaceError::OutOfBounds)
    );
}

#[test]
fn can_place_the_empty_piece_anywhere() {
    let board = Board::new(6, 9, 3).unwrap();
    assert_eq!(board.can_place_piece(50, 50, &[]), Ok(()));
}

#[test]
fn get_column() {
    let board = Board::new(4, 2, 2).unwrap();
    assert_eq!(board.get_column(0), vec![0, 4]);
    assert_eq!(board.get_column(1), vec![1, 5]);
    assert_eq!(board.get_column(2), vec![2, 6]);
}

#[test]
fn get_column_3_x_3() {
    let board = Board::new(3, 3, 3).unwrap();
    assert_eq!(board.get_column(0), vec![0, 3, 6]);
    assert_eq!(board.get_column(1), vec![1, 4, 7]);
    assert_eq!(board.get_column(2), vec![2, 5, 8]);
}

#[test]
fn get_row_range() {
    let board = Board::new(4, 3, 2).unwrap();
    assert_eq!(board.get_row_range(0), 0..4);
    assert_eq!(board.get_row_range(2), 8..12);
}

#[test]
fn get_row_range_3_x_3() {
    let board = Board::new(3, 3, 3).unwrap();
    assert_eq!(board.get_row_range(0), 0..3);
    assert_eq!(board.get_row_range(1), 3..6);
    assert_eq!(board.get_row_range(2), 6..9);
}

#[test]
fn get_section() {
    let board = Board::new(4, 4, 2).unwrap();
    assert_eq!(board.get_section(0, 0), (0, vec![0, 1, 4, 5]));
    assert_eq!(board.get_section(1, 1), (0, vec![0, 1, 4, 5]));
    assert_eq!(board.get_section(2, 0), (1, vec![2, 3, 6, 7]));
    assert_eq!(board.get_section(0, 2), (2, vec![8, 9, 12, 13]));
    assert_eq!(board.get_section(2, 2), (3, vec![10, 11, 14, 15]));
}

#[test]
fn get_section_coords_from_section_index() {
    let board = Board::new(6, 4, 2).unwrap();
    assert_eq!(board.get_section_coords_from_section_index(0), (0, 0));
    assert_eq!(board.get_section_coords_from_section_index(2), (4, 0));
    assert_eq!(board.get_section_coords_from_section_index(5), (4, 2));
    assert_eq!(board.get_section_coords_from_section_index(6), (0, 4));
    let board = Board::new(6, 2, 2).unwrap();
    assert_eq!(board.get_section_coords_from_section_index(2), (4, 0));
}

#[test]
fn get_section_by_section_index() {
    let board = Board::new(4, 4, 2).unwrap();
    assert_eq!(board.get_section_by_section_index(0), vec![0, 1, 4, 5]);
    assert_eq!(board.get_section_by_section_index(1), vec![2, 3, 6, 7]);
    assert_eq!(board.get_section_by_section_index(2), vec![8, 9, 12, 13]);
    assert_eq!(board.get_section_by_section_index(3), vec![10, 11, 14, 15]);
}

#[test]
fn get_section_by_section_index_wide_board() {
    let board = Board::new(6, 2, 2).unwrap();
    assert_eq!(board.get_section_by_section_index(0), vec![0, 1, 6, 7]);
    assert_eq!(board.get_section_by_section_index(1), vec![2, 3, 8, 9]);
    assert_eq!(board.get_section_by_section_index(2), vec![4, 5, 10, 11]);
}

#[test]
fn section_by_index_is_section_by_position() {
    let board = Board::new(6, 9, 3).unwrap();
    for y in 0..9 {
        for x in 0..6 {
            let (index, indices) = board.get_section(x, y);
            assert_eq!(index, 2 * (y / 3) + x / 3);
            assert_eq!(board.get_section_by_section_index(index), indices);
            assert!(indices.contains(&(y * 6 + x)));
            let origin = board.get_section_coords_from_section_index(index);
            assert_eq!(origin, (x / 3 * 3, y / 3 * 3));
            assert_eq!(board.get_section(origin.0, origin.1), (index, indices));
        }
    }
}

#[test]
fn row_done() {
    let board = Board::with_fields(2, 2, 2, vec![true, true, true, false]).unwrap();
    assert!(board.row_done(0));
    assert!(!board.row_done(1));
}

#[test]
fn column_done() {
    let board = Board::with_fields(2, 2, 2, vec![true, true, true, false]).unwrap();
    assert!(board.column_done(0));
    assert!(!board.column_done(1));
}

#[test]
fn section_done() {
    let board = Board::with_fields(
        2,
        4,
        2,
        vec![true, true, true, true, true, true, false, false],
    )
    .unwrap();
    assert_eq!(board.section_done(0, 0), (0, true));
    assert_eq!(board.section_done(1, 1), (0, true));
    assert_eq!(board.section_done(0, 2), (1, false));
}

#[test]
fn is_section_empty() {
    let board = board_with(4, 4, 2, &[0, 11]);
    assert!(!board.is_section_empty(0));
    assert!(board.is_section_empty(1));
    assert!(board.is_section_empty(2));
    assert!(!board.is_section_empty(3));
}

#[test]
fn tile_coords_to_tile_index() {
    let board = Board::new(6, 9, 3).unwrap();
    assert_eq!(board.tile_coords_to_tile_index(TilePos { x: 0, y: 0 }), 0);
    assert_eq!(board.tile_coords_to_tile_index(TilePos { x: 5, y: 0 }), 5);
    assert_eq!(board.tile_coords_to_tile_index(TilePos { x: 2, y: 3 }), 20);
    assert_eq!(board.tile_coords_to_tile_index(TilePos { x: 5, y: 8 }), 53);
}

#[test]
fn clear_column() {
    let mut board = Board::with_fields(2, 2, 2, vec![true; 4]).unwrap();
    assert_eq!(board.clear_column(0), vec![0, 2]);
    assert_eq!(board.fields(), [false, true, false, true].as_slice());

    let mut board = Board::with_fields(2, 2, 2, vec![true; 4]).unwrap();
    assert_eq!(board.clear_column(1), vec![1, 3]);
    assert_eq!(board.fields(), [true, false, true, false].as_slice());
}

#[test]
fn clear_row() {
    let mut board = Board::with_fields(2, 2, 2, vec![true; 4]).unwrap();
    assert_eq!(board.clear_row(0), vec![0, 1]);
    assert_eq!(board.fields(), [false, false, true, true].as_slice());

    let mut board = Board::with_fields(2, 2, 2, vec![true; 4]).unwrap();
    assert_eq!(board.clear_row(1), vec![2, 3]);
    assert_eq!(board.fields(), [true, true, false, false].as_slice());
}

#[test]
fn clear_section() {
    let mut board = Board::with_fields(4, 2, 2, vec![true; 8]).unwrap();
    assert_eq!(board.clear_section(0), vec![0, 1, 4, 5]);
    assert_eq!(
        board.fields(),
        [false, false, true, true, false, false, true, true].as_slice()
    );

    let mut board = Board::with_fields(4, 2, 2, vec![true; 8]).unwrap();
    assert_eq!(board.clear_section(1), vec![2, 3, 6, 7]);
    assert_eq!(
        board.fields(),
        [true, true, false, false, true, true, false, false].as_slice()
    );
}

#[test]
fn clear_leaves_other_cells_alone() {
    let mut board = board_with(4, 4, 2, &[0, 5, 6, 10, 15]);
    board.clear_row(1);
    assert_eq!(board.fields(), board_with(4, 4, 2, &[0, 10, 15]).fields());
    board.clear_column(2);
    assert_eq!(board.fields(), board_with(4, 4, 2, &[0, 15]).fields());
    board.clear_section(3);
    assert_eq!(board.fields(), board_with(4, 4, 2, &[0]).fields());
    // clearing what is empty changes nothing
    board.clear_section(3);
    board.clear_row(2);
    board.clear_column(1);
    assert_eq!(board.fields(), board_with(4, 4, 2, &[0]).fields());
}

#[test]
fn clear_all() {
    let mut board = board_with(4, 4, 2, &[0, 5, 6, 10, 15]);
    board.clear();
    assert_eq!(board.fields(), vec![false; 16].as_slice());
    let mut board = Board::with_fields(3, 3, 3, vec![true; 9]).unwrap();
    board.clear();
    assert_eq!(board.fields(), vec![false; 9].as_slice());
    board.clear();
    assert_eq!(board.fields(), vec![false; 9].as_slice());
}

fn place_corner(taken: &[usize]) -> Vec<BoardClear> {
    let mut board = board_with(4, 4, 2, taken);
    // corner piece
    board.place_piece(0, 0, &[0, 1, 4]).unwrap()
}

#[test]
fn place_piece() {
    assert_eq!(place_corner(&[]), Vec::<BoardClear>::new());
    assert_eq!(place_corner(&[6, 7, 10, 11, 15]), Vec::<BoardClear>::new());
    assert_eq!(place_corner(&[2, 3]), vec![BoardClear::Row(0)]);
    assert_eq!(place_corner(&[8, 12]), vec![BoardClear::Column(0)]);
    assert_eq!(place_corner(&[5]), vec![section(0)]);
    assert_eq!(
        place_corner(&[2, 3, 5, 8, 12]),
        vec![BoardClear::Row(0), BoardClear::Column(0), section(0)]
    );
}

#[test]
fn place_piece_occupies_its_cells() {
    let mut board = board_with(6, 9, 3, &[0]);
    assert_eq!(board.place_piece(4, 6, &[0, 6, 12, 13]), Ok(Vec::new()));
    assert_eq!(board.fields(), board_with(6, 9, 3, &[0, 40, 46, 52, 53]).fields());
}

#[test]
fn place_piece_reports_column_before_row_before_section() {
    // one cell completes all three
    let mut board = board_with(2, 2, 2, &[1, 2, 3]);
    assert_eq!(
        board.place_piece(0, 0, &[0]),
        Ok(vec![BoardClear::Column(0), BoardClear::Row(0), section(0)])
    );
}

#[test]
fn place_piece_follows_the_order_of_the_offsets() {
    let mut board = board_with(4, 4, 2, &[2, 3, 5, 8, 12]);
    assert_eq!(
        board.place_piece(0, 0, &[4, 1, 0]),
        Ok(vec![BoardClear::Column(0), BoardClear::Row(0), section(0)])
    );
    let mut board = board_with(4, 4, 2, &[2, 3, 5, 8, 12]);
    assert_eq!(
        board.place_piece(0, 0, &[4, 0, 1]),
        Ok(vec![BoardClear::Column(0), BoardClear::Row(0), section(0)])
    );
    let mut board = board_with(4, 4, 2, &[2, 3, 5, 8, 12]);
    assert_eq!(
        board.place_piece(0, 0, &[1, 4, 0]),
        Ok(vec![BoardClear::Column(0), BoardClear::Row(0), section(0)])
    );
    let mut board = board_with(4, 4, 2, &[2, 3, 5, 8, 12]);
    assert_eq!(
        board.place_piece(0, 0, &[0, 4, 1]),
        Ok(vec![BoardClear::Column(0), BoardClear::Row(0), section(0)])
    );
}

#[test]
fn place_piece_that_cannot_go_leaves_the_board_alone() {
    let mut board = board_with(6, 9, 3, &[0, 1, 6, 7]);
    assert_eq!(board.place_piece(1, 0, &[0, 1, 6, 7]), Err(PlaceError::Taken));
    assert_eq!(board.fields(), board_with(6, 9, 3, &[0, 1, 6, 7]).fields());
    assert_eq!(
        board.place_piece(5, 0, &[0, 1, 6, 7]),
        Err(PlaceError::OutOfBounds)
    );
    assert_eq!(board.fields(), board_with(6, 9, 3, &[0, 1, 6, 7]).fields());
}

#[test]
fn place_piece_reports_no_line_that_was_full_before() {
    let mut board = board_with(3, 3, 3, &[0, 1, 2]);
    assert_eq!(board.place_piece(0, 1, &[0, 1, 2]), Ok(vec![BoardClear::Row(1)]));
    assert_eq!(
        board.place_piece(0, 2, &[0, 1, 2]),
        Ok(vec![
            BoardClear::Column(0),
            BoardClear::Column(1),
            BoardClear::Column(2),
            BoardClear::Row(2),
            section(0)
        ])
    );
}

#[test]
fn place_piece_cross() {
    let mut board = board_with(3, 3, 3, &[0, 2, 6, 8]);
    // cross piece
    let res = board.place_piece(0, 0, &[1, 3, 4, 5, 7]).unwrap();

    assert_eq!(vec![true; 9].as_slice(), board.fields());

    let expected = vec![
        BoardClear::Row(0),
        BoardClear::Row(1),
        BoardClear::Row(2),
        BoardClear::Column(0),
        BoardClear::Column(1),
        BoardClear::Column(2),
        section(0),
    ];
    for e in expected.iter() {
        assert!(res.contains(e));
    }
    assert_eq!(res.len(), 7);
    assert_eq!(
        res,
        vec![
            BoardClear::Row(0),
            BoardClear::Column(0),
            BoardClear::Column(2),
            BoardClear::Row(1),
            BoardClear::Column(1),
            BoardClear::Row(2),
            section(0),
        ]
    );
}

#[test]
fn place_piece_double_corner() {
    let mut board = board_with(3, 3, 3, &[2, 5, 6, 7]);
    // square piece
    let res = board.place_piece(0, 0, &[0, 1, 3, 4]).unwrap();

    let mut expected_flds = vec![true; 9];
    expected_flds[8] = false;

    assert_eq!(expected_flds.as_slice(), board.fields());

    let expected = vec![
        BoardClear::Row(0),
        BoardClear::Row(1),
        BoardClear::Column(0),
        BoardClear::Column(1),
    ];
    for e in expected.iter() {
        assert!(res.contains(e));
    }
    assert_eq!(res.len(), 4);
}

#[test]
fn a_piece_that_was_put_cannot_be_put_again() {
    let mut board = Board::new(6, 9, 3).unwrap();
    let piece = [0, 6, 12, 13];
    for (x, y) in [(0, 0), (3, 3), (4, 6)] {
        assert_eq!(board.can_place_piece(x, y, &piece), Ok(()));
        assert_eq!(board.place_piece(x, y, &piece), Ok(Vec::new()));
        assert_eq!(board.can_place_piece(x, y, &piece), Err(PlaceError::Taken));
        assert_eq!(board.place_piece(x, y, &piece), Err(PlaceError::Taken));
    }
}

#[test]
fn a_clear_that_was_reported_can_be_cleared() {
    let mut board = board_with(4, 4, 2, &[2, 3, 5, 8, 12]);
    let cleared = board.place_piece(0, 0, &[0, 1, 4]).unwrap();
    for clear in cleared.iter() {
        assert!(board.has_line(clear));
    }
    assert!(board.is_tiled());
    assert_eq!(board.section_count(), 4);
    assert!(!board.has_line(&BoardClear::Row(4)));
    assert!(!board.has_line(&BoardClear::Column(4)));
    assert!(!board.has_line(&section(4)));
    assert!(board.has_line(&section(3)));
    assert!(!Board::new(4, 3, 2).unwrap().is_tiled());
}

#[test]
fn clearing_twice_is_clearing_once() {
    let mut board = board_with(4, 4, 2, &[0, 1, 2, 3, 5, 9, 10, 15]);
    assert_eq!(board.clear_row(0), vec![0, 1, 2, 3]);
    let once = board.fields().to_vec();
    assert_eq!(board.clear_row(0), vec![0, 1, 2, 3]);
    assert_eq!(board.fields(), once.as_slice());
    assert_eq!(board.clear_column(1), vec![1, 5, 9, 13]);
    let once = board.fields().to_vec();
    assert_eq!(board.clear_column(1), vec![1, 5, 9, 13]);
    assert_eq!(board.fields(), once.as_slice());
    assert_eq!(board.clear_section(3), vec![10, 11, 14, 15]);
    assert_eq!(board.clear_section(3), vec![10, 11, 14, 15]);
    assert_eq!(board.fields(), vec![false; 16].as_slice());
}

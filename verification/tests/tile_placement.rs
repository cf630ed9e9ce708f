use board_engine::board::Board;
use board_engine::board::BoardClear;
use board_engine::board::BoardClearQueue;
use board_engine::coords::TileCoords;
use board_engine::coords::TilePos;
use board_engine::coords::update_tile_coords;
use board_engine::tile_placement::drop_piece;
use board_engine::tile_placement::process_clear_queue;
use board_engine::tile_placement::Simulation;
use board_engine::tile_placement::CARDS_PER_CLEAR;

fn board_with(width: usize, height: usize, section_size: usize, taken: &[usize]) -> Board {
    let mut fields = vec![false; width * height];
    for i in taken {
        fields[*i] = true;
    }
    Board::with_fields(width, height, section_size, fields).unwrap()
}

fn section(index: usize) -> BoardClear {
    BoardClear::Section {
        section_index: index,
        used_special: false,
    }
}

fn queue_of(clears: &[BoardClear]) -> BoardClearQueue {
    let mut queue = BoardClearQueue::default();
    for c in clears {
        queue.queue.push_back(*c);
    }
    queue
}

#[test]
fn draining_an_empty_queue_does_nothing() {
    let mut board = board_with(4, 4, 2, &[0, 5, 6, 10, 15]);
    let mut queue = BoardClearQueue::default();
    let outcome = process_clear_queue(&mut queue, &mut board, 0);
    assert!(outcome.cards.is_empty());
    assert!(outcome.cleared_indices.is_empty());
    assert!(queue.queue.is_empty());
    assert_eq!(board.fields(), board_with(4, 4, 2, &[0, 5, 6, 10, 15]).fields());

    // a second time, and with a full hand
    let outcome = process_clear_queue(&mut queue, &mut board, 5);
    assert!(outcome.cards.is_empty());
    assert!(outcome.cleared_indices.is_empty());
    assert_eq!(board.fields(), board_with(4, 4, 2, &[0, 5, 6, 10, 15]).fields());
}

#[test]
fn every_clear_earns_two_cards() {
    assert_eq!(CARDS_PER_CLEAR, 2);
    let mut board = Board::with_fields(4, 4, 2, vec![true; 16]).unwrap();
    let mut queue = queue_of(&[BoardClear::Row(0), BoardClear::Column(3)]);
    let outcome = process_clear_queue(&mut queue, &mut board, 0);
    assert_eq!(
        outcome.cards,
        vec![
            BoardClear::Row(0),
            BoardClear::Row(0),
            BoardClear::Column(3),
            BoardClear::Column(3)
        ]
    );
    assert_eq!(outcome.cleared_indices, vec![0, 1, 2, 3, 3, 7, 11, 15]);
    assert!(queue.queue.is_empty());
    assert_eq!(
        board.fields(),
        board_with(4, 4, 2, &[4, 5, 6, 8, 9, 10, 12, 13, 14]).fields()
    );
}

#[test]
fn cards_stop_at_a_full_hand() {
    let clears = [BoardClear::Row(1), section(3), BoardClear::Column(0)];

    let mut board = Board::with_fields(4, 4, 2, vec![true; 16]).unwrap();
    let outcome = process_clear_queue(&mut queue_of(&clears), &mut board, 2);
    assert_eq!(
        outcome.cards,
        vec![BoardClear::Row(1), BoardClear::Row(1), section(3)]
    );
    // the cells are cleared all the same
    assert_eq!(
        outcome.cleared_indices,
        vec![4, 5, 6, 7, 10, 11, 14, 15, 0, 4, 8, 12]
    );
    assert_eq!(board.fields(), board_with(4, 4, 2, &[1, 2, 3, 9, 13]).fields());

    let mut board = Board::with_fields(4, 4, 2, vec![true; 16]).unwrap();
    let outcome = process_clear_queue(&mut queue_of(&clears), &mut board, 4);
    assert_eq!(outcome.cards, vec![BoardClear::Row(1)]);

    let mut board = Board::with_fields(4, 4, 2, vec![true; 16]).unwrap();
    let outcome = process_clear_queue(&mut queue_of(&clears), &mut board, 5);
    assert_eq!(outcome.cards, Vec::<BoardClear>::new());
    assert_eq!(outcome.cleared_indices.len(), 12);

    let mut board = Board::with_fields(4, 4, 2, vec![true; 16]).unwrap();
    let outcome = process_clear_queue(&mut queue_of(&clears), &mut board, 7);
    assert_eq!(outcome.cards, Vec::<BoardClear>::new());
    assert_eq!(board.fields(), board_with(4, 4, 2, &[1, 2, 3, 9, 13]).fields());
}

#[test]
fn drop_piece_queues_the_clears() {
    let mut board = board_with(4, 4, 2, &[2, 3, 5, 8, 12]);
    let mut queue = queue_of(&[BoardClear::Row(3)]);
    let placed = drop_piece(
        &mut board,
        &mut queue,
        Some(TilePos { x: 0, y: 0 }),
        &[0, 1, 4],
    );
    assert!(placed);
    let queued: Vec<BoardClear> = queue.queue.iter().copied().collect();
    assert_eq!(
        queued,
        vec![
            BoardClear::Row(3),
            BoardClear::Row(0),
            BoardClear::Column(0),
            section(0)
        ]
    );
    assert_eq!(
        board.fields(),
        board_with(4, 4, 2, &[0, 1, 2, 3, 4, 5, 8, 12]).fields()
    );
}

#[test]
fn drop_piece_without_a_position_or_room_does_nothing() {
    let mut board = board_with(4, 4, 2, &[0]);
    let mut queue = queue_of(&[BoardClear::Row(3)]);
    assert!(!drop_piece(&mut board, &mut queue, None, &[0, 1, 4]));
    assert!(!drop_piece(
        &mut board,
        &mut queue,
        Some(TilePos { x: 0, y: 0 }),
        &[0, 1, 4]
    ));
    assert!(!drop_piece(
        &mut board,
        &mut queue,
        Some(TilePos { x: 3, y: 0 }),
        &[0, 1, 4]
    ));
    assert_eq!(queue.queue.len(), 1);
    assert_eq!(board.fields(), board_with(4, 4, 2, &[0]).fields());
}

#[test]
fn placing_then_draining_clears_what_was_completed() {
    let mut board = board_with(3, 3, 3, &[0, 2, 6, 8]);
    let mut queue = BoardClearQueue::default();
    assert!(drop_piece(
        &mut board,
        &mut queue,
        Some(TilePos { x: 0, y: 0 }),
        &[1, 3, 4, 5, 7]
    ));
    assert_eq!(queue.queue.len(), 7);
    let outcome = process_clear_queue(&mut queue, &mut board, 0);
    assert_eq!(outcome.cards.len(), 5);
    assert_eq!(outcome.cleared_indices.len(), 27);
    assert_eq!(board.fields(), vec![false; 9].as_slice());
}

#[test]
fn tile_coords_follow_the_drag_where_the_piece_fits() {
    let board = board_with(6, 9, 3, &[0, 1, 6, 7]);
    let piece = [0, 1, 6, 7];
    let mut coords = TileCoords::default();
    assert_eq!(coords.tile_coords, None);

    update_tile_coords(&mut coords, Some(TilePos { x: 2, y: 2 }), &board, &piece);
    assert_eq!(coords.tile_coords, Some(TilePos { x: 2, y: 2 }));

    // taken
    update_tile_coords(&mut coords, Some(TilePos { x: 1, y: 0 }), &board, &piece);
    assert_eq!(coords.tile_coords, None);

    update_tile_coords(&mut coords, Some(TilePos { x: 4, y: 4 }), &board, &piece);
    assert_eq!(coords.tile_coords, Some(TilePos { x: 4, y: 4 }));

    // over the edge
    update_tile_coords(&mut coords, Some(TilePos { x: 5, y: 4 }), &board, &piece);
    assert_eq!(coords.tile_coords, None);

    update_tile_coords(&mut coords, Some(TilePos { x: 4, y: 7 }), &board, &piece);
    assert_eq!(coords.tile_coords, Some(TilePos { x: 4, y: 7 }));

    // off the board
    update_tile_coords(&mut coords, None, &board, &piece);
    assert_eq!(coords.tile_coords, None);
}

#[test]
fn a_turn_puts_a_piece_and_works_off_its_clears() {
    let mut game = Simulation::new(board_with(4, 4, 2, &[2, 3, 5, 8, 12]));
    assert!(game.clear_queue.queue.is_empty());

    // nothing waits: nothing happens
    let outcome = game.process_clear_queue(0);
    assert!(outcome.cards.is_empty());
    assert!(outcome.cleared_indices.is_empty());
    assert_eq!(game.board.fields(), board_with(4, 4, 2, &[2, 3, 5, 8, 12]).fields());

    assert!(!game.drop_piece(None, &[0, 1, 4]));
    assert!(!game.drop_piece(Some(TilePos { x: 2, y: 0 }), &[0, 1, 4]));
    assert!(game.clear_queue.queue.is_empty());

    assert!(game.drop_piece(Some(TilePos { x: 0, y: 0 }), &[0, 1, 4]));
    let queued: Vec<BoardClear> = game.clear_queue.queue.iter().copied().collect();
    assert_eq!(
        queued,
        vec![BoardClear::Row(0), BoardClear::Column(0), section(0)]
    );

    let outcome = game.process_clear_queue(1);
    assert_eq!(
        outcome.cards,
        vec![
            BoardClear::Row(0),
            BoardClear::Row(0),
            BoardClear::Column(0),
            BoardClear::Column(0)
        ]
    );
    assert_eq!(
        outcome.cleared_indices,
        vec![0, 1, 2, 3, 0, 4, 8, 12, 0, 1, 4, 5]
    );
    assert!(game.clear_queue.queue.is_empty());
    assert_eq!(game.board.fields(), vec![false; 16].as_slice());
}

use board_engine::config::ConfigError;
use board_engine::piece::PieceFields;

fn remapped(fields: &[usize], width: usize, padded_width: usize) -> Vec<usize> {
    PieceFields::new(fields, width, padded_width)
        .unwrap()
        .get_fields()
        .to_vec()
}

#[test]
fn new() {
    assert_eq!(remapped(&[0, 1, 2, 5, 6], 3, 3), vec![0, 1, 2, 5, 6]);
    assert_eq!(remapped(&[0, 1, 2, 5, 6], 3, 5), vec![0, 1, 2, 7, 10]);
    assert_eq!(remapped(&[0, 1, 2, 3], 2, 3), vec![0, 1, 3, 4]);
}

#[test]
fn new_rejects_a_piece_wider_than_the_grid() {
    assert_eq!(
        PieceFields::new(&[0, 1, 2, 5, 6], 3, 2).err(),
        Some(ConfigError::InvalidGeometry)
    );
}

#[test]
fn new_rejects_a_piece_without_cells() {
    assert_eq!(
        PieceFields::new(&[], 1, 9).err(),
        Some(ConfigError::InvalidGeometry)
    );
    assert_eq!(
        PieceFields::new(&[], 3, 2).err(),
        Some(ConfigError::InvalidGeometry)
    );
}

#[test]
fn accessors() {
    let piece = PieceFields::new(&[0, 1, 2, 4], 2, 9).unwrap();
    assert_eq!(piece.get_fields(), [0, 1, 9, 18].as_slice());
    assert_eq!(piece.get_width(), 2);
    assert_eq!(piece.get_padded_width(), 9);
    assert_eq!(piece.get_height(), 3);
}

#[test]
fn height_is_the_row_of_the_largest_offset() {
    assert_eq!(PieceFields::new(&[0, 1], 2, 9).unwrap().get_height(), 1);
    assert_eq!(PieceFields::new(&[0, 1], 1, 9).unwrap().get_height(), 2);
    assert_eq!(PieceFields::new(&[8], 9, 9).unwrap().get_height(), 1);
    assert_eq!(PieceFields::new(&[9], 9, 9).unwrap().get_height(), 2);
    // the offsets need not be in order
    assert_eq!(PieceFields::new(&[4, 8, 0], 3, 9).unwrap().get_height(), 3);
    assert_eq!(
        PieceFields::new(&[1, 3, 4, 5, 7], 3, 9).unwrap().get_fields(),
        [1, 9, 10, 11, 19].as_slice()
    );
}

#[test]
fn clone_keeps_the_piece() {
    let piece = PieceFields::new(&[0, 3, 4, 5], 3, 9).unwrap();
    let copy = piece.clone();
    assert_eq!(copy.get_fields(), piece.get_fields());
    assert_eq!(copy.get_width(), 3);
    assert_eq!(copy.get_padded_width(), 9);
    assert_eq!(copy.get_height(), 2);
}

#[test]
fn field_coords_are_column_and_row_in_the_padded_grid() {
    let piece = PieceFields::new(&[1, 3, 4, 5, 7], 3, 9).unwrap();
    assert_eq!(
        piece.get_field_coords(),
        vec![(1, 0), (0, 1), (1, 1), (2, 1), (1, 2)]
    );
    let piece = PieceFields::new(&[0, 1], 1, 9).unwrap();
    assert_eq!(piece.get_field_coords(), vec![(0, 0), (0, 1)]);
    let piece = PieceFields::new(&[2, 0], 3, 3).unwrap();
    assert_eq!(piece.get_field_coords(), vec![(2, 0), (0, 0)]);
}

#[test]
fn can_build_tells_when_new_can_be_asked() {
    assert!(PieceFields::can_build(&[0, 1, 2, 5, 6], 3, 5));
    // too wide, or without cells: `new` can be asked, and refuses
    assert!(PieceFields::can_build(&[0, 1, 2, 5, 6], 3, 2));
    assert!(PieceFields::can_build(&[], 0, 9));
    assert_eq!(
        PieceFields::new(&[], 0, 9).err(),
        Some(ConfigError::InvalidGeometry)
    );
    // cells, but no width
    assert!(!PieceFields::can_build(&[0], 0, 9));
    // offsets that do not fit once they are remapped
    assert!(!PieceFields::can_build(&[usize::MAX], 1, 2));
    assert!(!PieceFields::can_build(&[usize::MAX / 2 + 1], 1, 2));
    assert!(!PieceFields::can_build(&[usize::MAX], 1, 1));
    assert!(PieceFields::can_build(&[usize::MAX - 1], 1, 1));
    assert!(PieceFields::can_build(&[usize::MAX], 2, 2));
    assert_eq!(
        PieceFields::new(&[usize::MAX], 2, 2).unwrap().get_height(),
        usize::MAX / 2 + 1
    );
}

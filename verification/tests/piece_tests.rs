use tet_rust::board::Board;
use tet_rust::piece::{
    check_move_down_allowed, check_move_lat_allowed, check_rotate_allowed, draw, generate_bag,
    move_down, move_lat, new_piece, rotate, Piece, PieceType,
};

const ALL: [PieceType; 7] = [
    PieceType::I,
    PieceType::O,
    PieceType::T,
    PieceType::S,
    PieceType::Z,
    PieceType::J,
    PieceType::L,
];

fn cells(piece: &Piece) -> Vec<(i32, i32)> {
    (0..4).map(|i| piece.block(i)).collect()
}

fn fall(piece: &mut Piece, board: &Board, rows: usize) {
    for _ in 0..rows {
        assert!(check_move_down_allowed(piece, board));
        move_down(piece);
    }
}

fn shift(piece: &mut Piece, board: &Board, dx: i32, times: usize) {
    for _ in 0..times {
        assert!(check_move_lat_allowed(piece, board, dx));
        move_lat(piece, dx);
    }
}

#[test]
fn catalog_shapes() {
    assert_eq!(PieceType::I.shape(), vec![(-2, 0), (-1, 0), (0, 0), (1, 0)]);
    assert_eq!(PieceType::O.shape(), vec![(0, 0), (1, 0), (0, 1), (1, 1)]);
    assert_eq!(PieceType::T.shape(), vec![(-1, 0), (0, 0), (1, 0), (0, -1)]);
    assert_eq!(PieceType::S.shape(), vec![(0, 0), (1, 0), (0, -1), (-1, -1)]);
    assert_eq!(PieceType::Z.shape(), vec![(0, 0), (-1, 0), (0, -1), (1, -1)]);
    assert_eq!(PieceType::J.shape(), vec![(-1, 0), (0, 0), (1, 0), (1, -1)]);
    assert_eq!(PieceType::L.shape(), vec![(-1, 0), (0, 0), (1, 0), (-1, -1)]);
}

#[test]
fn new_piece_spawns_above_the_board() {
    for kind in ALL {
        let piece = new_piece(kind);
        assert_eq!(piece.piece_type(), kind);
        assert_eq!(piece.x(), 5);
        assert_eq!(piece.y(), -2);
        assert_eq!(*piece.shape(), kind.shape());
    }
}

#[test]
fn block_gives_board_positions() {
    let piece = new_piece(PieceType::T);
    assert_eq!(cells(&piece), vec![(4, -2), (5, -2), (6, -2), (5, -3)]);
}

#[test]
fn occupies_tells_covered_cells() {
    let board = Board::new();
    let mut piece = new_piece(PieceType::O);
    fall(&mut piece, &board, 5);
    // Origin at (5, 3): cells (5,3), (6,3), (5,4), (6,4) as (column, row).
    assert!(piece.occupies(3, 5));
    assert!(piece.occupies(3, 6));
    assert!(piece.occupies(4, 5));
    assert!(piece.occupies(4, 6));
    assert!(!piece.occupies(5, 5));
    assert!(!piece.occupies(3, 4));
    assert!(!piece.occupies(5, 3));
}

#[test]
fn occupies_is_false_for_a_piece_above_the_board() {
    let piece = new_piece(PieceType::I);
    for row in 0..20 {
        for col in 0..10 {
            assert!(!piece.occupies(row, col));
        }
    }
}

#[test]
fn move_down_adds_one_row() {
    let mut piece = new_piece(PieceType::S);
    move_down(&mut piece);
    assert_eq!(piece.y(), -1);
    assert_eq!(piece.x(), 5);
    assert_eq!(*piece.shape(), PieceType::S.shape());
    move_down(&mut piece);
    assert_eq!(piece.y(), 0);
}

#[test]
fn move_lat_shifts_the_column() {
    let mut piece = new_piece(PieceType::J);
    move_lat(&mut piece, -1);
    assert_eq!(piece.x(), 4);
    assert_eq!(piece.y(), -2);
    move_lat(&mut piece, 1);
    move_lat(&mut piece, 1);
    assert_eq!(piece.x(), 6);
    assert_eq!(*piece.shape(), PieceType::J.shape());
}

#[test]
fn rotate_turns_each_offset_by_a_quarter() {
    let mut piece = new_piece(PieceType::T);
    rotate(&mut piece);
    assert_eq!(*piece.shape(), vec![(0, -1), (0, 0), (0, 1), (1, 0)]);
    assert_eq!(piece.x(), 5);
    assert_eq!(piece.y(), -2);

    let mut piece = new_piece(PieceType::I);
    rotate(&mut piece);
    assert_eq!(*piece.shape(), vec![(0, -2), (0, -1), (0, 0), (0, 1)]);
}

#[test]
fn two_rotations_turn_the_shape_upside_down() {
    let mut piece = new_piece(PieceType::L);
    rotate(&mut piece);
    rotate(&mut piece);
    assert_eq!(*piece.shape(), vec![(1, 0), (0, 0), (-1, 0), (1, 1)]);
}

#[test]
fn four_rotations_restore_the_shape() {
    for kind in ALL {
        let mut piece = new_piece(kind);
        for _ in 0..4 {
            rotate(&mut piece);
        }
        assert_eq!(*piece.shape(), kind.shape());
        assert_eq!(piece.x(), 5);
        assert_eq!(piece.y(), -2);
    }
}

#[test]
fn the_square_never_rotates() {
    let board = Board::new();
    let mut piece = new_piece(PieceType::O);
    assert!(!check_rotate_allowed(&piece, &board));
    fall(&mut piece, &board, 10);
    assert!(!check_rotate_allowed(&piece, &board));
}

#[test]
fn rotation_is_refused_while_a_cell_would_be_above_the_board() {
    let board = Board::new();
    for kind in ALL {
        let piece = new_piece(kind);
        assert!(!check_rotate_allowed(&piece, &board));
    }
    // The T at y == 0 would turn its first cell into row -1.
    let mut piece = new_piece(PieceType::T);
    fall(&mut piece, &board, 2);
    assert_eq!(piece.y(), 0);
    assert!(!check_rotate_allowed(&piece, &board));
    fall(&mut piece, &board, 1);
    assert!(check_rotate_allowed(&piece, &board));
}

#[test]
fn rotation_is_allowed_in_the_open() {
    let board = Board::new();
    for kind in [PieceType::I, PieceType::T, PieceType::S, PieceType::Z, PieceType::J, PieceType::L]
    {
        let mut piece = new_piece(kind);
        fall(&mut piece, &board, 8);
        assert!(check_rotate_allowed(&piece, &board));
    }
}

#[test]
fn rotation_is_refused_at_the_left_wall() {
    let board = Board::new();
    let mut piece = new_piece(PieceType::I);
    fall(&mut piece, &board, 4);
    assert!(check_rotate_allowed(&piece, &board));
    rotate(&mut piece);
    shift(&mut piece, &board, -1, 5);
    assert_eq!(piece.x(), 0);
    // The next turn would put a cell into column -1.
    assert!(!check_rotate_allowed(&piece, &board));
    shift(&mut piece, &board, 1, 1);
    assert!(check_rotate_allowed(&piece, &board));
}

#[test]
fn rotation_is_refused_at_the_right_wall() {
    let board = Board::new();
    let mut piece = new_piece(PieceType::I);
    fall(&mut piece, &board, 4);
    rotate(&mut piece);
    shift(&mut piece, &board, 1, 4);
    assert_eq!(piece.x(), 9);
    // The next turn would put a cell into column 11.
    assert!(!check_rotate_allowed(&piece, &board));
    shift(&mut piece, &board, -1, 2);
    assert!(check_rotate_allowed(&piece, &board));
}

#[test]
fn rotation_is_refused_at_the_floor() {
    let board = Board::new();
    let mut piece = new_piece(PieceType::I);
    fall(&mut piece, &board, 21);
    assert_eq!(piece.y(), 19);
    // The vertical shape would reach row 20.
    assert!(!check_rotate_allowed(&piece, &board));
}

#[test]
fn rotation_is_refused_onto_a_block() {
    let mut board = Board::new();
    board.set(9, 5, true);
    let mut piece = new_piece(PieceType::T);
    fall(&mut piece, &board, 10);
    assert_eq!(piece.y(), 8);
    // The turned T would hold (5, 9) as (column, row).
    assert!(!check_rotate_allowed(&piece, &board));
    board.set(9, 5, false);
    assert!(check_rotate_allowed(&piece, &board));
}

#[test]
fn move_down_is_allowed_from_spawn_on_an_empty_board() {
    let board = Board::new();
    for kind in ALL {
        assert!(check_move_down_allowed(&new_piece(kind), &board));
    }
}

#[test]
fn move_down_is_refused_at_the_floor() {
    let board = Board::new();
    let mut piece = new_piece(PieceType::O);
    // The lower cells of the square are one row below its origin.
    fall(&mut piece, &board, 20);
    assert_eq!(piece.y(), 18);
    assert!(!check_move_down_allowed(&piece, &board));
}

#[test]
fn move_down_is_refused_onto_a_block() {
    let mut board = Board::new();
    board.set(10, 6, true);
    let mut piece = new_piece(PieceType::I);
    fall(&mut piece, &board, 11);
    assert_eq!(piece.y(), 9);
    assert!(!check_move_down_allowed(&piece, &board));
    board.set(10, 6, false);
    board.set(10, 7, true);
    assert!(check_move_down_allowed(&piece, &board));
}

#[test]
fn move_down_checks_the_top_row_for_a_piece_above_the_board() {
    let mut board = Board::new();
    board.set(0, 4, true);
    let piece = new_piece(PieceType::I);
    // Two rows above the board, yet held against row 0 of its columns.
    assert!(!check_move_down_allowed(&piece, &board));
    board.set(0, 4, false);
    board.set(0, 7, true);
    assert!(check_move_down_allowed(&piece, &board));
}

#[test]
fn move_lat_is_refused_at_the_walls() {
    let board = Board::new();
    let mut piece = new_piece(PieceType::I);
    shift(&mut piece, &board, -1, 3);
    assert_eq!(piece.x(), 2);
    assert!(!check_move_lat_allowed(&piece, &board, -1));
    assert!(check_move_lat_allowed(&piece, &board, 1));

    shift(&mut piece, &board, 1, 6);
    assert_eq!(piece.x(), 8);
    assert!(!check_move_lat_allowed(&piece, &board, 1));
    assert!(check_move_lat_allowed(&piece, &board, -1));
}

#[test]
fn move_lat_is_refused_onto_a_block() {
    let mut board = Board::new();
    board.set(5, 2, true);
    let mut piece = new_piece(PieceType::I);
    fall(&mut piece, &board, 7);
    assert_eq!(piece.y(), 5);
    assert!(!check_move_lat_allowed(&piece, &board, -1));
    assert!(check_move_lat_allowed(&piece, &board, 1));
}

#[test]
fn move_lat_ignores_blocks_for_cells_above_the_board() {
    let mut board = Board::new();
    board.set(0, 2, true);
    board.set(0, 7, true);
    let mut piece = new_piece(PieceType::I);
    assert!(check_move_lat_allowed(&piece, &board, -1));
    assert!(check_move_lat_allowed(&piece, &board, 1));
    fall(&mut piece, &board, 2);
    assert_eq!(piece.y(), 0);
    assert!(!check_move_lat_allowed(&piece, &board, -1));
    assert!(!check_move_lat_allowed(&piece, &board, 1));
}

#[test]
fn move_lat_by_a_long_way_is_refused() {
    let board = Board::new();
    let piece = new_piece(PieceType::T);
    assert!(!check_move_lat_allowed(&piece, &board, 100));
    assert!(!check_move_lat_allowed(&piece, &board, -100));
    assert!(!check_move_lat_allowed(&piece, &board, i32::MAX));
    assert!(!check_move_lat_allowed(&piece, &board, i32::MIN));
    assert!(check_move_lat_allowed(&piece, &board, 0));
    assert!(check_move_lat_allowed(&piece, &board, 3));
}

#[test]
fn generate_bag_holds_each_variant_once() {
    for _ in 0..100 {
        let bag = generate_bag();
        assert_eq!(bag.len(), 7);
        for kind in ALL {
            assert_eq!(bag.iter().filter(|k| **k == kind).count(), 1);
        }
    }
}

#[test]
fn generate_bag_shuffles() {
    // One bag in 5040 comes out in the order written down; fifty in a row
    // do not.
    let shuffled = (0..50).any(|_| generate_bag() != ALL.to_vec());
    assert!(shuffled);
}

#[test]
fn draw_takes_the_last_piece() {
    let mut bag = vec![PieceType::S, PieceType::T, PieceType::I];
    assert_eq!(draw(&mut bag), PieceType::I);
    assert_eq!(bag, vec![PieceType::S, PieceType::T]);
    assert_eq!(draw(&mut bag), PieceType::T);
    assert_eq!(draw(&mut bag), PieceType::S);
    assert!(bag.is_empty());
}

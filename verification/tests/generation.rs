use chess::board::Board;
use chess::legal_moves::find_basic_legal_moves;
use chess::piece::{Color, Piece, PieceType};
use chess::position::{Move, SpecialMoveType, Square};

fn empty_board() -> Board {
    [[Piece { piece: PieceType::Null, color: Color::Null }; 8]; 8]
}

fn put(board: &mut Board, file: usize, rank: usize, piece: PieceType, color: Color) {
    board[rank][file] = Piece { piece, color };
}

fn has_move(moves: &[Move], from: (usize, usize), to: (usize, usize)) -> bool {
    moves.iter().any(|m| {
        m.from == Square { file: from.0, rank: from.1 } && m.to == Square { file: to.0, rank: to.1 }
    })
}

fn tag_of(moves: &[Move], from: (usize, usize), to: (usize, usize)) -> Option<SpecialMoveType> {
    moves
        .iter()
        .find(|m| {
            m.from == Square { file: from.0, rank: from.1 } && m.to == Square {
                file: to.0,
                rank: to.1,
            }
        })
        .expect("move not generated")
        .special_move
}

#[test]
fn rook_ray_stops_at_first_occupied_square() {
    let mut board = empty_board();
    put(&mut board, 0, 0, PieceType::Rook, Color::White);
    put(&mut board, 0, 3, PieceType::Pawn, Color::White);
    put(&mut board, 3, 0, PieceType::Pawn, Color::Black);
    let moves = find_basic_legal_moves(&board, Color::White);
    // Up the file: free squares before the friendly pawn, nothing beyond.
    assert!(has_move(&moves, (0, 0), (0, 1)));
    assert!(has_move(&moves, (0, 0), (0, 2)));
    assert!(!has_move(&moves, (0, 0), (0, 3)));
    assert!(!has_move(&moves, (0, 0), (0, 4)));
    // Along the rank: the enemy pawn is captured, nothing beyond it.
    assert!(has_move(&moves, (0, 0), (1, 0)));
    assert!(has_move(&moves, (0, 0), (2, 0)));
    assert!(has_move(&moves, (0, 0), (3, 0)));
    assert!(!has_move(&moves, (0, 0), (4, 0)));
}

#[test]
fn lone_rook_covers_fourteen_squares() {
    let mut board = empty_board();
    put(&mut board, 3, 3, PieceType::Rook, Color::White);
    assert_eq!(find_basic_legal_moves(&board, Color::White).len(), 14);
}

#[test]
fn lone_bishop_covers_thirteen_squares() {
    let mut board = empty_board();
    put(&mut board, 3, 3, PieceType::Bishop, Color::White);
    assert_eq!(find_basic_legal_moves(&board, Color::White).len(), 13);
}

#[test]
fn lone_queen_covers_twenty_seven_squares() {
    let mut board = empty_board();
    put(&mut board, 3, 3, PieceType::Queen, Color::Black);
    assert_eq!(find_basic_legal_moves(&board, Color::Black).len(), 27);
}

#[test]
fn knight_in_the_center_and_in_the_corner() {
    let mut board = empty_board();
    put(&mut board, 3, 3, PieceType::Knight, Color::White);
    assert_eq!(find_basic_legal_moves(&board, Color::White).len(), 8);
    let mut corner = empty_board();
    put(&mut corner, 0, 0, PieceType::Knight, Color::White);
    let moves = find_basic_legal_moves(&corner, Color::White);
    assert_eq!(moves.len(), 2);
    assert!(has_move(&moves, (0, 0), (1, 2)));
    assert!(has_move(&moves, (0, 0), (2, 1)));
}

#[test]
fn king_steps_and_friendly_occupancy() {
    let mut board = empty_board();
    put(&mut board, 3, 3, PieceType::King, Color::White);
    put(&mut board, 3, 4, PieceType::Pawn, Color::White);
    put(&mut board, 4, 4, PieceType::Pawn, Color::Black);
    let moves = find_basic_legal_moves(&board, Color::White);
    assert!(!has_move(&moves, (3, 3), (3, 4)));
    assert!(has_move(&moves, (3, 3), (4, 4)));
    assert!(has_move(&moves, (3, 3), (2, 2)));
}

#[test]
fn pawn_on_starting_rank_has_single_and_tagged_double_step() {
    let mut board = empty_board();
    put(&mut board, 4, 1, PieceType::Pawn, Color::White);
    let moves = find_basic_legal_moves(&board, Color::White);
    assert_eq!(moves.len(), 2);
    // The single step is listed before the double step.
    assert_eq!(moves[0].to, Square { file: 4, rank: 2 });
    assert_eq!(moves[1].to, Square { file: 4, rank: 3 });
    assert_eq!(tag_of(&moves, (4, 1), (4, 2)), None);
    assert_eq!(tag_of(&moves, (4, 1), (4, 3)), Some(SpecialMoveType::PawnLongMove));

    let mut black = empty_board();
    put(&mut black, 4, 6, PieceType::Pawn, Color::Black);
    let moves = find_basic_legal_moves(&black, Color::Black);
    assert_eq!(moves.len(), 2);
    assert_eq!(tag_of(&moves, (4, 6), (4, 5)), None);
    assert_eq!(tag_of(&moves, (4, 6), (4, 4)), Some(SpecialMoveType::PawnLongMove));
}

#[test]
fn pawn_blocked_directly_ahead() {
    let mut board = empty_board();
    put(&mut board, 4, 1, PieceType::Pawn, Color::White);
    put(&mut board, 4, 2, PieceType::Pawn, Color::Black);
    let moves = find_basic_legal_moves(&board, Color::White);
    // The single step onto an occupied square is refused; the double step
    // examines only its destination square, so it is still offered.
    assert!(!has_move(&moves, (4, 1), (4, 2)));
    assert!(has_move(&moves, (4, 1), (4, 3)));
}

#[test]
fn pawn_double_step_blocked_on_its_destination() {
    let mut board = empty_board();
    put(&mut board, 4, 1, PieceType::Pawn, Color::White);
    put(&mut board, 4, 3, PieceType::Pawn, Color::Black);
    let moves = find_basic_legal_moves(&board, Color::White);
    assert!(has_move(&moves, (4, 1), (4, 2)));
    assert!(!has_move(&moves, (4, 1), (4, 3)));
}

#[test]
fn pawn_captures_diagonally_only_enemies() {
    let mut board = empty_board();
    put(&mut board, 4, 3, PieceType::Pawn, Color::White);
    put(&mut board, 3, 4, PieceType::Pawn, Color::Black);
    put(&mut board, 5, 4, PieceType::Pawn, Color::White);
    let moves = find_basic_legal_moves(&board, Color::White);
    assert!(has_move(&moves, (4, 3), (3, 4)));
    assert!(!has_move(&moves, (4, 3), (5, 4)));
    assert!(has_move(&moves, (4, 3), (4, 4)));
}

#[test]
fn pawn_reaching_the_far_rank_is_tagged_promote() {
    let mut board = empty_board();
    put(&mut board, 2, 6, PieceType::Pawn, Color::White);
    put(&mut board, 3, 7, PieceType::Rook, Color::Black);
    let moves = find_basic_legal_moves(&board, Color::White);
    assert_eq!(tag_of(&moves, (2, 6), (2, 7)), Some(SpecialMoveType::Promote));
    assert_eq!(tag_of(&moves, (2, 6), (3, 7)), Some(SpecialMoveType::Promote));

    let mut black = empty_board();
    put(&mut black, 2, 1, PieceType::Pawn, Color::Black);
    let moves = find_basic_legal_moves(&black, Color::Black);
    assert_eq!(tag_of(&moves, (2, 1), (2, 0)), Some(SpecialMoveType::Promote));
}

#[test]
fn no_moves_for_a_side_with_no_pieces() {
    let mut board = empty_board();
    put(&mut board, 3, 3, PieceType::Queen, Color::White);
    assert_eq!(find_basic_legal_moves(&board, Color::Black).len(), 0);
}

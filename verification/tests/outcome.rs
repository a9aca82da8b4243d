use chess::board::{setup_board, Board};
use chess::game::{evaluate_win_draw, GameOutcome};
use chess::legal_moves::find_all_legal_moves;
use chess::piece::{Color, Piece, PieceType};
use chess::position::MoveHistoryEntry;

fn empty_board() -> Board {
    [[Piece { piece: PieceType::Null, color: Color::Null }; 8]; 8]
}

fn put(board: &mut Board, file: usize, rank: usize, piece: PieceType, color: Color) {
    board[rank][file] = Piece { piece, color };
}

fn kings(white: (usize, usize), black: (usize, usize)) -> Board {
    let mut board = empty_board();
    put(&mut board, white.0, white.1, PieceType::King, Color::White);
    put(&mut board, black.0, black.1, PieceType::King, Color::Black);
    board
}

fn outcome(turn: Color, board: &Board) -> GameOutcome {
    let history: Vec<MoveHistoryEntry> = Vec::new();
    let legal = find_all_legal_moves(board, turn, &history);
    evaluate_win_draw(turn, board, &legal)
}

#[test]
fn bare_kings_draw_regardless_of_turn() {
    let board = kings((0, 0), (7, 7));
    assert_eq!(outcome(Color::White, &board), GameOutcome::DrawInsufficientMaterial);
    assert_eq!(outcome(Color::Black, &board), GameOutcome::DrawInsufficientMaterial);
}

#[test]
fn king_and_single_minor_piece_draw() {
    let mut board = kings((0, 0), (7, 7));
    put(&mut board, 3, 3, PieceType::Bishop, Color::White);
    assert_eq!(outcome(Color::Black, &board), GameOutcome::DrawInsufficientMaterial);

    let mut board = kings((0, 0), (7, 7));
    put(&mut board, 3, 3, PieceType::Knight, Color::Black);
    assert_eq!(outcome(Color::White, &board), GameOutcome::DrawInsufficientMaterial);
}

#[test]
fn king_and_rook_is_not_drawn_material() {
    let mut board = kings((0, 0), (7, 7));
    put(&mut board, 3, 3, PieceType::Rook, Color::White);
    assert_eq!(outcome(Color::White, &board), GameOutcome::Ongoing);
}

#[test]
fn two_bishops_on_same_colored_squares_draw() {
    let mut board = kings((0, 0), (7, 7));
    // (0+2) and (2+4) are both even: same square color.
    put(&mut board, 2, 0, PieceType::Bishop, Color::White);
    put(&mut board, 4, 2, PieceType::Bishop, Color::Black);
    assert_eq!(outcome(Color::White, &board), GameOutcome::DrawInsufficientMaterial);
}

#[test]
fn two_bishops_on_opposite_colored_squares_play_on() {
    let mut board = kings((0, 0), (7, 7));
    put(&mut board, 2, 0, PieceType::Bishop, Color::White);
    put(&mut board, 3, 2, PieceType::Bishop, Color::Black);
    assert_eq!(outcome(Color::White, &board), GameOutcome::Ongoing);
}

#[test]
fn checkmate_is_a_win_for_the_opponent() {
    // White king cornered on a1, black queen on b2 guarded by the black
    // king on c3: White has no legal move and stands in check.
    let mut board = kings((0, 0), (2, 2));
    put(&mut board, 1, 1, PieceType::Queen, Color::Black);
    let history: Vec<MoveHistoryEntry> = Vec::new();
    let legal = find_all_legal_moves(&board, Color::White, &history);
    assert_eq!(legal.len(), 0);
    assert_eq!(
        evaluate_win_draw(Color::White, &board, &legal),
        GameOutcome::Win(Color::Black)
    );
}

#[test]
fn stalemate_is_a_draw() {
    // White king on a1, black queen on b3: every king move is covered but
    // the king is not in check.
    let mut board = kings((0, 0), (7, 7));
    put(&mut board, 1, 2, PieceType::Queen, Color::Black);
    let history: Vec<MoveHistoryEntry> = Vec::new();
    let legal = find_all_legal_moves(&board, Color::White, &history);
    assert_eq!(legal.len(), 0);
    assert_eq!(
        evaluate_win_draw(Color::White, &board, &legal),
        GameOutcome::DrawStalemate
    );
}

#[test]
fn a_position_with_moves_goes_on() {
    let mut board = empty_board();
    setup_board(&mut board);
    let history: Vec<MoveHistoryEntry> = Vec::new();
    let legal = find_all_legal_moves(&board, Color::White, &history);
    assert!(legal.len() > 0);
    assert_eq!(evaluate_win_draw(Color::White, &board, &legal), GameOutcome::Ongoing);
}

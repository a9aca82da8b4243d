use chess::board::Board;
use chess::game::{apply_promotion, play_move};
use chess::legal_moves::{
    black_can_castle_long, black_can_castle_short, find_castling_moves, find_en_passant_moves,
    white_can_castle_long, white_can_castle_short,
};
use chess::piece::{Color, Piece, PieceType};
use chess::position::{Move, MoveHistoryEntry, SpecialMoveType, Square};

fn empty_board() -> Board {
    [[Piece { piece: PieceType::Null, color: Color::Null }; 8]; 8]
}

fn put(board: &mut Board, file: usize, rank: usize, piece: PieceType, color: Color) {
    board[rank][file] = Piece { piece, color };
}

fn sq(file: usize, rank: usize) -> Square {
    Square { file, rank }
}

fn entry(mv: Move, board: Board) -> MoveHistoryEntry {
    MoveHistoryEntry { moveEntry: mv, boardState: board, isCaptureMove: false }
}

fn black_double_step_to(file: usize) -> Move {
    Move {
        from: sq(file, 6),
        to: sq(file, 4),
        piece: Piece { piece: PieceType::Pawn, color: Color::Black },
        special_move: Some(SpecialMoveType::PawnLongMove),
    }
}

#[test]
fn en_passant_after_a_double_step() {
    let mut board = empty_board();
    put(&mut board, 3, 4, PieceType::Pawn, Color::Black);
    put(&mut board, 2, 4, PieceType::Pawn, Color::White);
    let history = vec![entry(black_double_step_to(3), empty_board())];
    let moves = find_en_passant_moves(&board, Color::White, &history);
    assert_eq!(moves.len(), 1);
    assert_eq!(moves[0].from, sq(2, 4));
    assert_eq!(moves[0].to, sq(3, 5));
    assert_eq!(moves[0].special_move, Some(SpecialMoveType::EnPassant));
}

#[test]
fn en_passant_from_both_neighbors() {
    let mut board = empty_board();
    put(&mut board, 3, 4, PieceType::Pawn, Color::Black);
    put(&mut board, 2, 4, PieceType::Pawn, Color::White);
    put(&mut board, 4, 4, PieceType::Pawn, Color::White);
    let history = vec![entry(black_double_step_to(3), empty_board())];
    let moves = find_en_passant_moves(&board, Color::White, &history);
    assert_eq!(moves.len(), 2);
    // The capture from the right neighbor is listed first.
    assert_eq!(moves[0].from, sq(4, 4));
    assert_eq!(moves[1].from, sq(2, 4));
    assert!(moves.iter().all(|m| m.to == sq(3, 5)));
}

#[test]
fn en_passant_needs_a_double_step_as_the_last_entry() {
    let mut board = empty_board();
    put(&mut board, 3, 4, PieceType::Pawn, Color::Black);
    put(&mut board, 2, 4, PieceType::Pawn, Color::White);
    // Same squares, but the pawn arrived by a single step.
    let single = Move {
        from: sq(3, 5),
        to: sq(3, 4),
        piece: Piece { piece: PieceType::Pawn, color: Color::Black },
        special_move: None,
    };
    let history = vec![entry(single, empty_board())];
    assert_eq!(find_en_passant_moves(&board, Color::White, &history).len(), 0);
    assert_eq!(find_en_passant_moves(&board, Color::White, &Vec::new()).len(), 0);
}

#[test]
fn en_passant_for_black() {
    let mut board = empty_board();
    put(&mut board, 4, 3, PieceType::Pawn, Color::White);
    put(&mut board, 5, 3, PieceType::Pawn, Color::Black);
    let white_double = Move {
        from: sq(4, 1),
        to: sq(4, 3),
        piece: Piece { piece: PieceType::Pawn, color: Color::White },
        special_move: Some(SpecialMoveType::PawnLongMove),
    };
    let history = vec![entry(white_double, empty_board())];
    let moves = find_en_passant_moves(&board, Color::Black, &history);
    assert_eq!(moves.len(), 1);
    assert_eq!(moves[0].from, sq(5, 3));
    assert_eq!(moves[0].to, sq(4, 2));
    assert_eq!(moves[0].special_move, Some(SpecialMoveType::EnPassant));
}

fn castle_ready_board() -> Board {
    let mut board = empty_board();
    put(&mut board, 4, 0, PieceType::King, Color::White);
    put(&mut board, 0, 0, PieceType::Rook, Color::White);
    put(&mut board, 7, 0, PieceType::Rook, Color::White);
    put(&mut board, 4, 7, PieceType::King, Color::Black);
    put(&mut board, 0, 7, PieceType::Rook, Color::Black);
    put(&mut board, 7, 7, PieceType::Rook, Color::Black);
    board
}

#[test]
fn both_castles_with_clear_path_and_no_attacks() {
    let board = castle_ready_board();
    let history: Vec<MoveHistoryEntry> = Vec::new();
    assert!(white_can_castle_long(&board, &history));
    assert!(white_can_castle_short(&board, &history));
    assert!(black_can_castle_long(&board, &history));
    assert!(black_can_castle_short(&board, &history));
    let moves = find_castling_moves(&board, Color::White, &history);
    assert_eq!(moves.len(), 2);
    // Long castle is listed before short castle.
    assert_eq!(moves[0].to, sq(2, 0));
    assert_eq!(moves[0].special_move, Some(SpecialMoveType::CastleLong));
    assert_eq!(moves[1].to, sq(6, 0));
    assert_eq!(moves[1].special_move, Some(SpecialMoveType::CastleShort));
}

#[test]
fn a_king_move_in_history_revokes_castling_for_good() {
    let board = castle_ready_board();
    // The king left its home square and a piece was later placed back:
    // the board looks castle-ready, but the history says otherwise.
    let king_shuffle = Move {
        from: sq(4, 0),
        to: sq(4, 1),
        piece: Piece { piece: PieceType::King, color: Color::White },
        special_move: None,
    };
    let history = vec![entry(king_shuffle, empty_board())];
    assert!(!white_can_castle_long(&board, &history));
    assert!(!white_can_castle_short(&board, &history));
    assert_eq!(find_castling_moves(&board, Color::White, &history).len(), 0);
    // Black's rights are untouched by White's king move.
    assert!(black_can_castle_long(&board, &history));
}

#[test]
fn a_rook_move_from_its_home_square_revokes_one_side_only() {
    let board = castle_ready_board();
    let rook_move = Move {
        from: sq(0, 0),
        to: sq(0, 3),
        piece: Piece { piece: PieceType::Rook, color: Color::White },
        special_move: None,
    };
    let history = vec![entry(rook_move, empty_board())];
    assert!(!white_can_castle_long(&board, &history));
    assert!(white_can_castle_short(&board, &history));
}

#[test]
fn castling_blocked_by_a_piece_between() {
    let mut board = castle_ready_board();
    put(&mut board, 1, 0, PieceType::Knight, Color::White);
    let history: Vec<MoveHistoryEntry> = Vec::new();
    assert!(!white_can_castle_long(&board, &history));
    assert!(white_can_castle_short(&board, &history));
}

#[test]
fn castling_forbidden_through_an_attacked_square() {
    let mut board = castle_ready_board();
    // A black rook on the d-file attacks the long-castle transit square.
    put(&mut board, 3, 6, PieceType::Rook, Color::Black);
    let history: Vec<MoveHistoryEntry> = Vec::new();
    assert!(!white_can_castle_long(&board, &history));
    assert!(white_can_castle_short(&board, &history));
}

#[test]
fn castling_forbidden_while_in_check() {
    let mut board = castle_ready_board();
    // A black rook on the e-file gives check to the white king.
    put(&mut board, 4, 6, PieceType::Rook, Color::Black);
    let history: Vec<MoveHistoryEntry> = Vec::new();
    assert!(!white_can_castle_long(&board, &history));
    assert!(!white_can_castle_short(&board, &history));
}

#[test]
fn play_move_relocates_the_piece() {
    let mut board = empty_board();
    put(&mut board, 0, 0, PieceType::Rook, Color::White);
    let mv = Move {
        from: sq(0, 0),
        to: sq(0, 5),
        piece: Piece { piece: PieceType::Rook, color: Color::White },
        special_move: None,
    };
    play_move(&mut board, mv);
    assert_eq!(board[0][0].piece, PieceType::Null);
    assert_eq!(board[5][0].piece, PieceType::Rook);
    assert_eq!(board[5][0].color, Color::White);
}

#[test]
fn play_move_removes_the_pawn_captured_en_passant() {
    let mut board = empty_board();
    put(&mut board, 3, 4, PieceType::Pawn, Color::Black);
    put(&mut board, 2, 4, PieceType::Pawn, Color::White);
    let mv = Move {
        from: sq(2, 4),
        to: sq(3, 5),
        piece: Piece { piece: PieceType::Pawn, color: Color::White },
        special_move: Some(SpecialMoveType::EnPassant),
    };
    play_move(&mut board, mv);
    assert_eq!(board[5][3].piece, PieceType::Pawn);
    assert_eq!(board[5][3].color, Color::White);
    assert_eq!(board[4][3].piece, PieceType::Null);
    assert_eq!(board[4][2].piece, PieceType::Null);
}

#[test]
fn play_move_relocates_the_rook_on_castling() {
    let mut board = castle_ready_board();
    let short = Move {
        from: sq(4, 0),
        to: sq(6, 0),
        piece: Piece { piece: PieceType::King, color: Color::White },
        special_move: Some(SpecialMoveType::CastleShort),
    };
    play_move(&mut board, short);
    assert_eq!(board[0][6].piece, PieceType::King);
    assert_eq!(board[0][5].piece, PieceType::Rook);
    assert_eq!(board[0][7].piece, PieceType::Null);
    assert_eq!(board[0][4].piece, PieceType::Null);

    let mut board = castle_ready_board();
    let long = Move {
        from: sq(4, 7),
        to: sq(2, 7),
        piece: Piece { piece: PieceType::King, color: Color::Black },
        special_move: Some(SpecialMoveType::CastleLong),
    };
    play_move(&mut board, long);
    assert_eq!(board[7][2].piece, PieceType::King);
    assert_eq!(board[7][3].piece, PieceType::Rook);
    assert_eq!(board[7][0].piece, PieceType::Null);
    assert_eq!(board[7][4].piece, PieceType::Null);
}

#[test]
fn apply_promotion_changes_the_kind_and_keeps_the_side() {
    let mut board = empty_board();
    put(&mut board, 3, 7, PieceType::Pawn, Color::White);
    apply_promotion(&mut board, sq(3, 7), PieceType::Queen);
    assert_eq!(board[7][3].piece, PieceType::Queen);
    assert_eq!(board[7][3].color, Color::White);
}

#[test]
fn castles_survive_the_full_generator() {
    let board = castle_ready_board();
    let history: Vec<MoveHistoryEntry> = Vec::new();
    let legal = chess::legal_moves::find_all_legal_moves(&board, Color::White, &history);
    assert!(legal.iter().any(|m| m.special_move == Some(SpecialMoveType::CastleLong)));
    assert!(legal.iter().any(|m| m.special_move == Some(SpecialMoveType::CastleShort)));
}

#[test]
fn en_passant_survives_the_full_generator() {
    let mut board = empty_board();
    put(&mut board, 3, 4, PieceType::Pawn, Color::Black);
    put(&mut board, 2, 4, PieceType::Pawn, Color::White);
    put(&mut board, 0, 0, PieceType::King, Color::White);
    put(&mut board, 7, 7, PieceType::King, Color::Black);
    let history = vec![entry(black_double_step_to(3), empty_board())];
    let legal = chess::legal_moves::find_all_legal_moves(&board, Color::White, &history);
    assert!(legal.iter().any(|m| m.from == sq(2, 4) && m.to == sq(3, 5) && m.special_move
        == Some(SpecialMoveType::EnPassant)));
}

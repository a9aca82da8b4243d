use chess::board::{setup_board, Board};
use chess::legal_moves::{
    find_all_legal_moves, find_basic_legal_moves, remove_moves_leading_to_check,
};
use chess::game::play_move;
use chess::piece::{Color, Piece, PieceType};
use chess::position::{Move, MoveHistoryEntry, Square};

fn empty_board() -> Board {
    [[Piece { piece: PieceType::Null, color: Color::Null }; 8]; 8]
}

fn put(board: &mut Board, file: usize, rank: usize, piece: PieceType, color: Color) {
    board[rank][file] = Piece { piece, color };
}

fn sq(file: usize, rank: usize) -> Square {
    Square { file, rank }
}

fn has_move(moves: &[Move], from: (usize, usize), to: (usize, usize)) -> bool {
    moves.iter().any(|m| {
        m.from == Square { file: from.0, rank: from.1 } && m.to == Square { file: to.0, rank: to.1 }
    })
}

#[test]
fn a_pinned_rook_may_only_move_along_the_pin() {
    let mut board = empty_board();
    put(&mut board, 4, 0, PieceType::King, Color::White);
    put(&mut board, 4, 1, PieceType::Rook, Color::White);
    put(&mut board, 4, 7, PieceType::Queen, Color::Black);
    put(&mut board, 0, 7, PieceType::King, Color::Black);
    let history: Vec<MoveHistoryEntry> = Vec::new();
    let legal = find_all_legal_moves(&board, Color::White, &history);
    // Along the e-file the rook keeps shielding its king.
    assert!(has_move(&legal, (4, 1), (4, 2)));
    assert!(has_move(&legal, (4, 1), (4, 7)));
    // Leaving the file would expose the king: filtered out.
    assert!(!has_move(&legal, (4, 1), (3, 1)));
    assert!(!has_move(&legal, (4, 1), (5, 1)));
}

#[test]
fn the_king_never_steps_into_an_attacked_square() {
    let mut board = empty_board();
    put(&mut board, 4, 0, PieceType::King, Color::White);
    put(&mut board, 3, 7, PieceType::Rook, Color::Black);
    put(&mut board, 0, 7, PieceType::King, Color::Black);
    let history: Vec<MoveHistoryEntry> = Vec::new();
    let legal = find_all_legal_moves(&board, Color::White, &history);
    assert!(!has_move(&legal, (4, 0), (3, 0)));
    assert!(!has_move(&legal, (4, 0), (3, 1)));
    assert!(has_move(&legal, (4, 0), (5, 0)));
    assert!(has_move(&legal, (4, 0), (5, 1)));
}

#[test]
fn filtering_keeps_the_surviving_order() {
    let mut board = empty_board();
    put(&mut board, 4, 0, PieceType::King, Color::White);
    put(&mut board, 4, 1, PieceType::Rook, Color::White);
    put(&mut board, 4, 7, PieceType::Queen, Color::Black);
    put(&mut board, 0, 7, PieceType::King, Color::Black);
    let mut moves = find_basic_legal_moves(&board, Color::White);
    let before = moves.clone();
    remove_moves_leading_to_check(&mut moves, &board, Color::White);
    assert!(moves.len() < before.len());
    // The kept moves appear in their original relative order.
    let mut cursor = 0;
    for m in moves.iter() {
        while before[cursor] != *m {
            cursor += 1;
        }
        cursor += 1;
    }
}

#[test]
fn no_regenerated_move_starts_from_the_vacated_square() {
    let mut board = empty_board();
    setup_board(&mut board);
    let history: Vec<MoveHistoryEntry> = Vec::new();
    let legal = find_all_legal_moves(&board, Color::White, &history);
    assert!(legal.len() > 0);
    let mv = legal[0];
    let mut after = board;
    play_move(&mut after, mv);
    assert_eq!(after[mv.from.rank][mv.from.file].piece, PieceType::Null);
    let next_history = vec![MoveHistoryEntry {
        moveEntry: mv,
        boardState: board,
        isCaptureMove: false,
    }];
    let replies = find_all_legal_moves(&after, Color::Black, &next_history);
    for reply in replies.iter() {
        assert_ne!(reply.from, mv.from);
    }
}

#[test]
fn every_generated_move_survives_its_own_simulation() {
    // Playing any generated legal move must never leave the mover's king
    // capturable by the opponent's immediate pseudo-legal replies.
    let mut board = empty_board();
    put(&mut board, 4, 0, PieceType::King, Color::White);
    put(&mut board, 0, 1, PieceType::Rook, Color::White);
    put(&mut board, 4, 6, PieceType::Queen, Color::Black);
    put(&mut board, 0, 7, PieceType::King, Color::Black);
    let history: Vec<MoveHistoryEntry> = Vec::new();
    let legal = find_all_legal_moves(&board, Color::White, &history);
    for m in legal.iter() {
        let mut sim = board;
        sim[m.from.rank][m.from.file] = Piece { piece: PieceType::Null, color: Color::Null };
        sim[m.to.rank][m.to.file] = m.piece;
        let replies = find_basic_legal_moves(&sim, Color::Black);
        let mut king = sq(8, 8);
        for rank in 0..8 {
            for file in 0..8 {
                if sim[rank][file].piece == PieceType::King && sim[rank][file].color == Color::White
                {
                    king = sq(file, rank);
                }
            }
        }
        for reply in replies.iter() {
            assert_ne!(reply.to, king);
        }
    }
}

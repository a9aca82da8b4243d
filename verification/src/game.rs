//! Committing moves to the board and classifying terminal game states.

use crate::board::{board_wf, board_set, cell_at, Board};
use crate::piece::{opposite, other_color, Color, Piece, PieceType};
use crate::position::{in_bounds, Move, Square, SpecialMoveType};
use crate::rules::{
    attacked, bishop_of, cell_of, insufficient_material, king_square, lemma_play_board_wf,
    minor_of, nonking_count, nonking_count_upto, nonking_of, piece_count, piece_count_upto,
    play_board, play_input_ok, square_parity,
};
use vstd::prelude::*;

verus! {

broadcast use vstd::array::group_array_axioms;

/// Terminal classification of a position.  The fifty-move and repetition
/// draws are not detected by this engine; their variants exist so that the
/// outcome type covers every draw a fuller engine would report.
#[derive(Debug, Clone, Copy, PartialEq, Eq, Structural)]
pub enum GameOutcome {
    Ongoing,
    Win(Color),
    DrawStalemate,
    DrawInsufficientMaterial,
    DrawFiftyMove,
    DrawRepetition,
}

/// The outcome with `turn` to move, first match wins: drawn material; with
/// no legal move left, a win for the opponent when some pseudo-legal reply
/// captures `turn`'s king and stalemate otherwise; else the game goes on.
pub open spec fn outcome_spec(turn: Color, b: Board, moves: Seq<Move>) -> GameOutcome {
    if insufficient_material(b) {
        GameOutcome::DrawInsufficientMaterial
    } else if moves.len() == 0 {
        if attacked(b, opposite(turn), king_square(b, turn)) {
            GameOutcome::Win(opposite(turn))
        } else {
            GameOutcome::DrawStalemate
        }
    } else {
        GameOutcome::Ongoing
    }
}

/// Commits `input_move` to the board: the destination receives the moving
/// piece, the source is vacated, and the special side effects are replayed
/// (en-passant capture removal, castle rook relocation).  Promotion piece
/// substitution is not performed here; see [`apply_promotion`].
pub fn play_move(board: &mut Board, input_move: Move)
    requires
        play_input_ok(input_move),
    ensures
        *final(board) == play_board(*old(board), input_move),
        board_wf(*old(board)) ==> board_wf(*final(board)),
{
    board[input_move.to.rank][input_move.to.file] =
        board[input_move.from.rank][input_move.from.file];
    board[input_move.from.rank][input_move.from.file] = Piece {
        piece: PieceType::Null,
        color: Color::Null,
    };
    let is_en_passant = match input_move.special_move {
        Some(SpecialMoveType::EnPassant) => true,
        _ => false,
    };
    let is_castle_long = match input_move.special_move {
        Some(SpecialMoveType::CastleLong) => true,
        _ => false,
    };
    let is_castle_short = match input_move.special_move {
        Some(SpecialMoveType::CastleShort) => true,
        _ => false,
    };
    if is_en_passant {
        if input_move.piece.color == Color::White {
            board[input_move.to.rank - 1][input_move.to.file] = Piece {
                piece: PieceType::Null,
                color: Color::Null,
            };
        } else if input_move.piece.color == Color::Black {
            board[input_move.to.rank + 1][input_move.to.file] = Piece {
                piece: PieceType::Null,
                color: Color::Null,
            };
        }
    } else if is_castle_long {
        if input_move.piece.color == Color::White {
            board[0][0] = Piece { piece: PieceType::Null, color: Color::Null };
            board[0][3] = Piece { piece: PieceType::Rook, color: Color::White };
        } else if input_move.piece.color == Color::Black {
            board[7][0] = Piece { piece: PieceType::Null, color: Color::Null };
            board[7][3] = Piece { piece: PieceType::Rook, color: Color::Black };
        }
    } else if is_castle_short {
        if input_move.piece.color == Color::White {
            board[0][7] = Piece { piece: PieceType::Null, color: Color::Null };
            board[0][5] = Piece { piece: PieceType::Rook, color: Color::White };
        } else if input_move.piece.color == Color::Black {
            board[7][7] = Piece { piece: PieceType::Null, color: Color::Null };
            board[7][5] = Piece { piece: PieceType::Rook, color: Color::Black };
        }
    }
    proof {
        assert(*board =~~= play_board(*old(board), input_move));
        if board_wf(*old(board)) {
            lemma_play_board_wf(*old(board), input_move);
        }
    }
}

/// Completes a promotion: the piece standing on `square` (the pawn that
/// just reached the far rank) changes kind to `kind`, keeping its side.
pub fn apply_promotion(board: &mut Board, square: Square, kind: PieceType)
    requires
        in_bounds(square),
        kind != PieceType::Null,
        cell_at(*old(board), square).color != Color::Null,
    ensures
        *final(board) == board_set(
            *old(board),
            square,
            Piece { piece: kind, color: cell_at(*old(board), square).color },
        ),
        board_wf(*old(board)) ==> board_wf(*final(board)),
{
    let color = board[square.rank][square.file].color;
    board[square.rank][square.file] = Piece { piece: kind, color };
    proof {
        assert(*board =~~= board_set(
            *old(board),
            square,
            Piece { piece: kind, color: cell_at(*old(board), square).color },
        ));
        if board_wf(*old(board)) {
            crate::board::lemma_board_set(
                *old(board),
                square,
                Piece { piece: kind, color: cell_at(*old(board), square).color },
            );
        }
    }
}

/// Decides whether the board's material is one of the drawn patterns of
/// [`insufficient_material`], in a single scan.
fn insufficient_material_check(board: &Board) -> (r: bool)
    ensures
        r == insufficient_material(*board),
{
    let mut total: u32 = 0;
    let mut nonking: u32 = 0;
    let mut minor_seen = false;
    let mut nonbishop_nonking_seen = false;
    let mut bishop_seen = false;
    let mut first_bishop_parity: usize = 0;
    let mut parity_uniform = true;
    let mut rank: usize = 0;
    while rank < 8
        invariant
            rank <= 8,
            total as int <= rank as int * 8,
            nonking as int <= rank as int * 8,
            total as nat == piece_count_upto(*board, rank as int * 8),
            nonking as nat == nonking_count_upto(*board, rank as int * 8),
            minor_seen <==> exists|t: int| 0 <= t < rank as int * 8 && #[trigger] minor_of(*board, t),
            nonbishop_nonking_seen <==> exists|t: int|
                0 <= t < rank as int * 8 && #[trigger] nonking_of(*board, t) && !bishop_of(
                    *board,
                    t,
                ),
            bishop_seen <==> exists|t: int| 0 <= t < rank as int * 8 && #[trigger] bishop_of(*board, t),
            first_bishop_parity <= 1,
            parity_uniform ==> forall|t: int|
                0 <= t < rank as int * 8 && #[trigger] bishop_of(*board, t) ==> square_parity(t)
                    == first_bishop_parity as int,
            !parity_uniform ==> exists|t1: int, t2: int|
                0 <= t1 < rank as int * 8 && 0 <= t2 < rank as int * 8 && #[trigger] bishop_of(
                    *board,
                    t1,
                ) && #[trigger] bishop_of(*board, t2) && square_parity(t1) != square_parity(t2),
        decreases 8 - rank,
    {
        let mut file: usize = 0;
        while file < 8
            invariant
                rank < 8,
                file <= 8,
                total as int <= rank as int * 8 + file as int,
                nonking as int <= rank as int * 8 + file as int,
                total as nat == piece_count_upto(*board, rank as int * 8 + file as int),
                nonking as nat == nonking_count_upto(*board, rank as int * 8 + file as int),
                minor_seen <==> exists|t: int|
                    0 <= t < rank as int * 8 + file as int && #[trigger] minor_of(*board, t),
                nonbishop_nonking_seen <==> exists|t: int|
                    0 <= t < rank as int * 8 + file as int && #[trigger] nonking_of(*board, t)
                        && !bishop_of(*board, t),
                bishop_seen <==> exists|t: int|
                    0 <= t < rank as int * 8 + file as int && #[trigger] bishop_of(*board, t),
                first_bishop_parity <= 1,
                parity_uniform ==> forall|t: int|
                    0 <= t < rank as int * 8 + file as int && #[trigger] bishop_of(*board, t)
                        ==> square_parity(t) == first_bishop_parity as int,
                !parity_uniform ==> exists|t1: int, t2: int|
                    0 <= t1 < rank as int * 8 + file as int && 0 <= t2 < rank as int * 8
                        + file as int && #[trigger] bishop_of(*board, t1) && #[trigger] bishop_of(
                        *board,
                        t2,
                    ) && square_parity(t1) != square_parity(t2),
            decreases 8 - file,
        {
            let piece = board[rank][file];
            let ghost n = rank as int * 8 + file as int;
            proof {
                let rr = rank as int;
                let ff = file as int;
                assert((rr * 8 + ff) / 8 == rr && (rr * 8 + ff) % 8 == ff) by (nonlinear_arith)
                    requires
                        0 <= rr < 8,
                        0 <= ff < 8,
                ;
                assert(cell_of(*board, n) == (*board)[rr][ff]);
            }
            if piece.piece != PieceType::Null {
                total = total + 1;
            }
            let is_nonking = piece.piece != PieceType::Null && piece.piece != PieceType::King;
            if is_nonking {
                nonking = nonking + 1;
            }
            if piece.piece == PieceType::Bishop || piece.piece == PieceType::Knight {
                proof {
                    assert(minor_of(*board, n));
                }
                minor_seen = true;
            }
            if is_nonking && piece.piece != PieceType::Bishop {
                proof {
                    assert(nonking_of(*board, n) && !bishop_of(*board, n));
                }
                nonbishop_nonking_seen = true;
            }
            if piece.piece == PieceType::Bishop {
                let par = (rank + file) % 2;
                proof {
                    assert(bishop_of(*board, n));
                    assert(par as int == square_parity(n));
                }
                if !bishop_seen {
                    bishop_seen = true;
                    first_bishop_parity = par;
                } else if par != first_bishop_parity {
                    proof {
                        let ghost t0 = choose|t0: int|
                            0 <= t0 < n && #[trigger] bishop_of(*board, t0);
                        if parity_uniform {
                            assert(square_parity(t0) == first_bishop_parity as int);
                            assert(square_parity(t0) != square_parity(n));
                        }
                    }
                    parity_uniform = false;
                }
            }
            file = file + 1;
        }
        rank = rank + 1;
    }
    let mut result = false;
    if total == 2 {
        result = true;
    }
    if total == 3 && nonking == 1 && minor_seen {
        result = true;
    }
    if total == 4 && nonking == 2 && !nonbishop_nonking_seen && parity_uniform {
        result = true;
    }
    proof {
        if parity_uniform {
            assert forall|n1: int, n2: int|
                0 <= n1 < 64 && 0 <= n2 < 64 && #[trigger] bishop_of(*board, n1)
                    && #[trigger] bishop_of(*board, n2) implies square_parity(n1) == square_parity(
                n2,
            ) by {}
        }
        if !parity_uniform || nonbishop_nonking_seen {
            assert(!(piece_count(*board) == 4 && nonking_count(*board) == 2 && (forall|n: int|
                0 <= n < 64 && #[trigger] nonking_of(*board, n) ==> bishop_of(*board, n)) && (
            forall|n1: int, n2: int|
                0 <= n1 < 64 && 0 <= n2 < 64 && #[trigger] bishop_of(*board, n1)
                    && #[trigger] bishop_of(*board, n2) ==> square_parity(n1) == square_parity(
                    n2,
                ))));
        }
    }
    result
}

/// Classifies the position with `turn` to move, given that side's filtered
/// legal moves: drawn material first, then checkmate or stalemate when no
/// legal move remains, otherwise the game goes on.
pub fn evaluate_win_draw(turn: Color, board: &Board, legal_moves: &Vec<Move>) -> (r: GameOutcome)
    requires
        board_wf(*board),
    ensures
        r == outcome_spec(turn, *board, legal_moves@),
{
    if insufficient_material_check(board) {
        return GameOutcome::DrawInsufficientMaterial;
    }
    let opponent_can_capture_king = crate::legal_moves::king_capturable(board, turn);
    if legal_moves.len() == 0 && opponent_can_capture_king {
        let opponent_turn = other_color(turn);
        return GameOutcome::Win(opponent_turn);
    }
    if legal_moves.len() == 0 {
        return GameOutcome::DrawStalemate;
    }
    GameOutcome::Ongoing
}

} // verus!

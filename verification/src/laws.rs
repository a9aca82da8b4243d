//! The engine's guiding properties, stated and proved against the
//! specification predicates of [`crate::rules`] and [`crate::game`].

use crate::board::{board_wf, board_set, cell_at, empty_piece, lemma_board_set, Board};
use crate::game::{outcome_spec, GameOutcome};
use crate::legal_moves::lemma_mul_small;
use crate::piece::{opposite, Color, Piece, PieceType};
use crate::position::{in_bounds, Move, MoveHistoryEntry, Square, SpecialMoveType};
use crate::rules::{
    attacked, basic_move_ok, bp_double, bp_step, can_castle_ok, castle_move, castle_move_ok,
    entry_keeps_rights, ep_move_ok, home_rank, insufficient_material, king_square, legal_move_ok,
    on_ray, piece_count, play_board, play_input_ok, ray_cell, ray_clear, sim_board, slide_ok,
    wp_double, wp_step,
};
use vstd::prelude::*;

verus! {

broadcast use vstd::array::group_array_axioms;

/// Every legal move, once its primary relocation is played, leaves the
/// mover's own king out of reach of every pseudo-legal reply of the
/// opponent: the defining invariant of the check-safety filter, and the
/// guarantee carried by every move `find_all_legal_moves` returns.
pub proof fn lemma_legal_move_keeps_king_safe(
    b: Board,
    turn: Color,
    hist: Seq<MoveHistoryEntry>,
    m: Move,
)
    requires
        legal_move_ok(b, turn, hist, m),
    ensures
        !attacked(sim_board(b, m), opposite(turn), king_square(sim_board(b, m), turn)),
{
}

/// Two step counts along one ray that reach the same square are the same
/// count.
proof fn lemma_on_ray_unique(from: Square, to: Square, df: int, dr: int, k1: int, k2: int)
    requires
        -1 <= df <= 1,
        -1 <= dr <= 1,
        !(df == 0 && dr == 0),
        on_ray(from, to, df, dr, k1),
        on_ray(from, to, df, dr, k2),
    ensures
        k1 == k2,
{
    lemma_mul_small(k1, df);
    lemma_mul_small(k2, df);
    lemma_mul_small(k1, dr);
    lemma_mul_small(k2, dr);
}

/// A sliding move never passes the first occupied square of its ray: once
/// some square strictly between the source and `to` is occupied, no slide
/// to `to` exists in that direction.
pub proof fn lemma_ray_stops_at_blocker(
    b: Board,
    c: Color,
    from: Square,
    to: Square,
    df: int,
    dr: int,
    j: int,
    k: int,
)
    requires
        -1 <= df <= 1,
        -1 <= dr <= 1,
        !(df == 0 && dr == 0),
        1 <= j < k,
        on_ray(from, to, df, dr, k),
        ray_cell(b, from, df, dr, j).color != Color::Null,
    ensures
        !slide_ok(b, c, from, to, df, dr),
{
    if slide_ok(b, c, from, to, df, dr) {
        let kk = choose|kk: int|
            1 <= kk && #[trigger] on_ray(from, to, df, dr, kk) && in_bounds(to) && ray_clear(
                b,
                from,
                df,
                dr,
                kk,
            ) && cell_at(b, to).color != c;
        lemma_on_ray_unique(from, to, df, dr, k, kk);
        assert(ray_cell(b, from, df, dr, j).color == Color::Null);
    }
}

/// The square where a ray walk stops is itself reachable exactly when it is
/// not occupied by the mover's own side: an empty square or an enemy
/// capture is included, a friendly square is not.
pub proof fn lemma_ray_first_blocker(
    b: Board,
    c: Color,
    from: Square,
    to: Square,
    df: int,
    dr: int,
    k: int,
)
    requires
        -1 <= df <= 1,
        -1 <= dr <= 1,
        !(df == 0 && dr == 0),
        1 <= k,
        on_ray(from, to, df, dr, k),
        in_bounds(to),
        ray_clear(b, from, df, dr, k),
    ensures
        slide_ok(b, c, from, to, df, dr) <==> cell_at(b, to).color != c,
{
    if slide_ok(b, c, from, to, df, dr) {
        let kk = choose|kk: int|
            1 <= kk && #[trigger] on_ray(from, to, df, dr, kk) && in_bounds(to) && ray_clear(
                b,
                from,
                df,
                dr,
                kk,
            ) && cell_at(b, to).color != c;
        lemma_on_ray_unique(from, to, df, dr, k, kk);
    }
}

/// A white pawn on its starting rank with the square one ahead and the
/// square two ahead both empty has both forward moves, the double step
/// tagged `PawnLongMove`.
pub proof fn lemma_white_pawn_double_step(b: Board, f: int)
    requires
        0 <= f < 8,
        cell_at(b, Square { file: f as usize, rank: 1 }) == (Piece {
            piece: PieceType::Pawn,
            color: Color::White,
        }),
        cell_at(b, Square { file: f as usize, rank: 2 }).color == Color::Null,
        cell_at(b, Square { file: f as usize, rank: 3 }).color == Color::Null,
    ensures
        basic_move_ok(
            b,
            Color::White,
            Move {
                from: Square { file: f as usize, rank: 1 },
                to: Square { file: f as usize, rank: 2 },
                piece: Piece { piece: PieceType::Pawn, color: Color::White },
                special_move: None,
            },
        ),
        basic_move_ok(
            b,
            Color::White,
            Move {
                from: Square { file: f as usize, rank: 1 },
                to: Square { file: f as usize, rank: 3 },
                piece: Piece { piece: PieceType::Pawn, color: Color::White },
                special_move: Some(SpecialMoveType::PawnLongMove),
            },
        ),
{
    let pos = Square { file: f as usize, rank: 1 };
    let single = Move {
        from: pos,
        to: Square { file: f as usize, rank: 2 },
        piece: Piece { piece: PieceType::Pawn, color: Color::White },
        special_move: None,
    };
    let double = Move {
        from: pos,
        to: Square { file: f as usize, rank: 3 },
        piece: Piece { piece: PieceType::Pawn, color: Color::White },
        special_move: Some(SpecialMoveType::PawnLongMove),
    };
    assert(wp_step(b, pos, single));
    assert(wp_double(b, pos, double));
}

/// The mirror of [`lemma_white_pawn_double_step`] for a black pawn on rank
/// 6 moving toward rank 0.
pub proof fn lemma_black_pawn_double_step(b: Board, f: int)
    requires
        0 <= f < 8,
        cell_at(b, Square { file: f as usize, rank: 6 }) == (Piece {
            piece: PieceType::Pawn,
            color: Color::Black,
        }),
        cell_at(b, Square { file: f as usize, rank: 5 }).color == Color::Null,
        cell_at(b, Square { file: f as usize, rank: 4 }).color == Color::Null,
    ensures
        basic_move_ok(
            b,
            Color::Black,
            Move {
                from: Square { file: f as usize, rank: 6 },
                to: Square { file: f as usize, rank: 5 },
                piece: Piece { piece: PieceType::Pawn, color: Color::Black },
                special_move: None,
            },
        ),
        basic_move_ok(
            b,
            Color::Black,
            Move {
                from: Square { file: f as usize, rank: 6 },
                to: Square { file: f as usize, rank: 4 },
                piece: Piece { piece: PieceType::Pawn, color: Color::Black },
                special_move: Some(SpecialMoveType::PawnLongMove),
            },
        ),
{
    let pos = Square { file: f as usize, rank: 6 };
    let single = Move {
        from: pos,
        to: Square { file: f as usize, rank: 5 },
        piece: Piece { piece: PieceType::Pawn, color: Color::Black },
        special_move: None,
    };
    let double = Move {
        from: pos,
        to: Square { file: f as usize, rank: 4 },
        piece: Piece { piece: PieceType::Pawn, color: Color::Black },
        special_move: Some(SpecialMoveType::PawnLongMove),
    };
    assert(bp_step(b, pos, single));
    assert(bp_double(b, pos, double));
}

/// Once a side's king has moved, both of that side's castles stay
/// forbidden forever: the rights derive from the history alone, so no later
/// board state — not even one with a piece placed back on the king's home
/// square — restores them.
pub proof fn lemma_king_move_revokes_castling(
    b: Board,
    hist: Seq<MoveHistoryEntry>,
    c: Color,
    i: int,
)
    requires
        0 <= i < hist.len(),
        hist[i].moveEntry.piece.piece == PieceType::King,
        hist[i].moveEntry.piece.color == c,
    ensures
        !can_castle_ok(b, hist, c, true),
        !can_castle_ok(b, hist, c, false),
{
    assert(!entry_keeps_rights(hist[i], c, Square { file: 0, rank: home_rank(c) }));
    assert(!entry_keeps_rights(hist[i], c, Square { file: 7, rank: home_rank(c) }));
}

/// A board holding exactly two pieces is a draw by insufficient material,
/// whichever side is to move and whatever moves it has.
pub proof fn lemma_bare_kings_draw(turn: Color, b: Board, moves: Seq<Move>)
    requires
        piece_count(b) == 2,
    ensures
        outcome_spec(turn, b, moves) == GameOutcome::DrawInsufficientMaterial,
{
}

/// A side with no legal moves whose king some pseudo-legal reply captures
/// has been checkmated: the opponent wins.
pub proof fn lemma_checkmate(turn: Color, b: Board, moves: Seq<Move>)
    requires
        moves.len() == 0,
        !insufficient_material(b),
        attacked(b, opposite(turn), king_square(b, turn)),
    ensures
        outcome_spec(turn, b, moves) == GameOutcome::Win(opposite(turn)),
{
}

/// A side with no legal moves whose king no pseudo-legal reply captures is
/// stalemated: the game is drawn.
pub proof fn lemma_stalemate(turn: Color, b: Board, moves: Seq<Move>)
    requires
        moves.len() == 0,
        !insufficient_material(b),
        !attacked(b, opposite(turn), king_square(b, turn)),
    ensures
        outcome_spec(turn, b, moves) == GameOutcome::DrawStalemate,
{
}

/// Committing a legal move vacates its source square, and no move generated
/// for the opponent on the new board — pseudo-legal, en passant or castle —
/// starts from that vacated square.
pub proof fn lemma_round_trip_source_vacated(
    b: Board,
    turn: Color,
    hist: Seq<MoveHistoryEntry>,
    hist2: Seq<MoveHistoryEntry>,
    m: Move,
    m2: Move,
)
    requires
        board_wf(b),
        legal_move_ok(b, turn, hist, m),
        play_input_ok(m),
    ensures
        cell_at(play_board(b, m), m.from).piece == PieceType::Null,
        (basic_move_ok(play_board(b, m), opposite(turn), m2) || ep_move_ok(
            play_board(b, m),
            opposite(turn),
            hist2,
            m2,
        ) || castle_move_ok(play_board(b, m), opposite(turn), hist2, m2)) ==> m2.from != m.from,
{
    let mover = cell_at(b, m.from);
    let b1 = board_set(b, m.to, mover);
    lemma_board_set(b, m.to, mover);
    let moved = board_set(b1, m.from, empty_piece());
    lemma_board_set(b1, m.from, empty_piece());
    assert(cell_at(moved, m.from) == empty_piece());
    let b2 = play_board(b, m);
    match m.special_move {
        Some(SpecialMoveType::EnPassant) => {
            assert(ep_move_ok(b, turn, hist, m));
            let lt = hist.last().moveEntry.to;
            if m.piece.color == Color::White {
                let captured = Square { file: m.to.file, rank: (m.to.rank - 1) as usize };
                assert(captured.file != m.from.file);
                lemma_board_set(moved, captured, empty_piece());
                assert(cell_at(b2, m.from) == empty_piece());
            } else {
                let captured = Square { file: m.to.file, rank: (m.to.rank + 1) as usize };
                assert(captured.file != m.from.file);
                lemma_board_set(moved, captured, empty_piece());
                assert(cell_at(b2, m.from) == empty_piece());
            }
        },
        Some(SpecialMoveType::CastleLong) => {
            assert(castle_move_ok(b, turn, hist, m));
            assert(m == castle_move(turn, true));
            let hr = home_rank(turn);
            let c1 = Square { file: 0, rank: hr };
            let c2 = Square { file: 3, rank: hr };
            lemma_board_set(moved, c1, empty_piece());
            lemma_board_set(
                board_set(moved, c1, empty_piece()),
                c2,
                Piece { piece: PieceType::Rook, color: turn },
            );
            assert(cell_at(b2, m.from) == empty_piece());
        },
        Some(SpecialMoveType::CastleShort) => {
            assert(castle_move_ok(b, turn, hist, m));
            assert(m == castle_move(turn, false));
            let hr = home_rank(turn);
            let c1 = Square { file: 7, rank: hr };
            let c2 = Square { file: 5, rank: hr };
            lemma_board_set(moved, c1, empty_piece());
            lemma_board_set(
                board_set(moved, c1, empty_piece()),
                c2,
                Piece { piece: PieceType::Rook, color: turn },
            );
            assert(cell_at(b2, m.from) == empty_piece());
        },
        _ => {
            assert(b2 == moved);
        },
    }
    assert(cell_at(b2, m.from).piece == PieceType::Null);
    if m2.from == m.from {
        if basic_move_ok(b2, opposite(turn), m2) {
            assert(cell_at(b2, m2.from).color == opposite(turn));
            assert(false);
        }
        if ep_move_ok(b2, opposite(turn), hist2, m2) {
            assert(cell_at(b2, m2.from).piece == PieceType::Pawn);
            assert(false);
        }
        if castle_move_ok(b2, opposite(turn), hist2, m2) {
            assert(m2.from == Square { file: 4, rank: home_rank(opposite(turn)) });
            assert(cell_at(b2, m2.from).piece == PieceType::King);
            assert(false);
        }
    }
}

} // verus!

//! The mathematical model of the movement rules.  Every executable
//! generator in this crate is specified twice over: a move is in its output
//! exactly when the corresponding predicate here holds of it, and the
//! output equals, element for element, the sequence the corresponding
//! `*_seq` function here constructs.

use crate::board::{board_wf, board_set, cell_at, empty_piece, Board};
use crate::piece::{opposite, Color, Piece, PieceType};
use crate::position::{can_shift, in_bounds, shifted, Move, MoveHistoryEntry, Square, SpecialMoveType};
use vstd::prelude::*;

verus! {

broadcast use vstd::array::group_array_axioms;

// ---------------------------------------------------------------------------
// Sliding rays
// ---------------------------------------------------------------------------
/// `to` lies `k` steps from `from` along the direction `(df, dr)`.
pub open spec fn on_ray(from: Square, to: Square, df: int, dr: int, k: int) -> bool {
    to.file == from.file + k * df && to.rank == from.rank + k * dr
}

/// The cell `i` steps from `from` along `(df, dr)`.
pub open spec fn ray_cell(b: Board, from: Square, df: int, dr: int, i: int) -> Piece {
    b[from.rank + i * dr][from.file + i * df]
}

/// Every square strictly between `from` and the square `k` steps out is empty.
pub open spec fn ray_clear(b: Board, from: Square, df: int, dr: int, k: int) -> bool {
    forall|i: int| 1 <= i < k ==> (#[trigger] ray_cell(b, from, df, dr, i)).color == Color::Null
}

/// A sliding piece of side `c` standing on `from` may move to `to` along the
/// direction `(df, dr)`: `to` is some positive number of steps out, on the
/// board, every square strictly between is empty, and `to` is not occupied
/// by a piece of `c` itself.
pub open spec fn slide_ok(b: Board, c: Color, from: Square, to: Square, df: int, dr: int) -> bool {
    exists|k: int|
        1 <= k && #[trigger] on_ray(from, to, df, dr, k) && in_bounds(to) && ray_clear(
            b,
            from,
            df,
            dr,
            k,
        ) && cell_at(b, to).color != c
}

// ---------------------------------------------------------------------------
// Per-piece pseudo-legal move shapes, each relative to a source square `pos`
// ---------------------------------------------------------------------------
/// The common part of every generated move: it starts at `pos` and carries a
/// snapshot of the piece standing there.
pub open spec fn move_shape(b: Board, pos: Square, m: Move) -> bool {
    m.from == pos && m.piece == cell_at(b, pos)
}

/// A move of the shape a ray walk in direction `(df, dr)` produces.
pub open spec fn slide_moves_at_dir(
    b: Board,
    c: Color,
    pos: Square,
    df: int,
    dr: int,
    m: Move,
) -> bool {
    &&& move_shape(b, pos, m)
    &&& m.special_move is None
    &&& slide_ok(b, c, pos, m.to, df, dr)
}

pub open spec fn rook_moves_at(b: Board, c: Color, pos: Square, m: Move) -> bool {
    ||| slide_moves_at_dir(b, c, pos, 1, 0, m)
    ||| slide_moves_at_dir(b, c, pos, -1, 0, m)
    ||| slide_moves_at_dir(b, c, pos, 0, 1, m)
    ||| slide_moves_at_dir(b, c, pos, 0, -1, m)
}

pub open spec fn bishop_moves_at(b: Board, c: Color, pos: Square, m: Move) -> bool {
    ||| slide_moves_at_dir(b, c, pos, 1, 1, m)
    ||| slide_moves_at_dir(b, c, pos, -1, 1, m)
    ||| slide_moves_at_dir(b, c, pos, 1, -1, m)
    ||| slide_moves_at_dir(b, c, pos, -1, -1, m)
}

pub open spec fn queen_moves_at(b: Board, c: Color, pos: Square, m: Move) -> bool {
    rook_moves_at(b, c, pos, m) || bishop_moves_at(b, c, pos, m)
}

/// The knight's jump: one file and two ranks, or two files and one rank.
pub open spec fn knight_jump(from: Square, to: Square) -> bool {
    let df = to.file - from.file;
    let dr = to.rank - from.rank;
    ((df == 1 || df == -1) && (dr == 2 || dr == -2)) || ((df == 2 || df == -2) && (dr == 1 || dr
        == -1))
}

pub open spec fn knight_moves_at(b: Board, c: Color, pos: Square, m: Move) -> bool {
    &&& move_shape(b, pos, m)
    &&& m.special_move is None
    &&& knight_jump(pos, m.to)
    &&& in_bounds(m.to)
    &&& cell_at(b, m.to).color != c
}

/// One king step: at most one file and one rank away, and not standing still.
pub open spec fn adjacent_step(from: Square, to: Square) -> bool {
    let df = to.file - from.file;
    let dr = to.rank - from.rank;
    -1 <= df <= 1 && -1 <= dr <= 1 && !(df == 0 && dr == 0)
}

pub open spec fn king_moves_at(b: Board, c: Color, pos: Square, m: Move) -> bool {
    &&& move_shape(b, pos, m)
    &&& m.special_move is None
    &&& adjacent_step(pos, m.to)
    &&& in_bounds(m.to)
    &&& cell_at(b, m.to).color != c
}

/// The tag a pawn move of the given side carries: `Promote` on the far rank,
/// nothing otherwise.
pub open spec fn white_pawn_tag(to: Square) -> Option<SpecialMoveType> {
    if to.rank == 7 {
        Some(SpecialMoveType::Promote)
    } else {
        None
    }
}

pub open spec fn black_pawn_tag(to: Square) -> Option<SpecialMoveType> {
    if to.rank == 0 {
        Some(SpecialMoveType::Promote)
    } else {
        None
    }
}

/// White pawn, one step forward onto an empty square; tagged `Promote` on
/// the far rank.
pub open spec fn wp_step(b: Board, pos: Square, m: Move) -> bool {
    m.to == shifted(pos, 0, 1) && in_bounds(m.to) && cell_at(b, m.to).color == Color::Null
        && m.special_move == white_pawn_tag(m.to)
}

/// White pawn, double step from the starting rank onto an empty square,
/// tagged `PawnLongMove`.  The square in between is deliberately not
/// examined.
pub open spec fn wp_double(b: Board, pos: Square, m: Move) -> bool {
    m.to == shifted(pos, 0, 2) && pos.rank == 1 && in_bounds(m.to) && cell_at(b, m.to).color
        == Color::Null && m.special_move == Some(SpecialMoveType::PawnLongMove)
}

/// White pawn capture toward file 0.
pub open spec fn wp_capture_left(b: Board, pos: Square, m: Move) -> bool {
    m.to == shifted(pos, -1, 1) && pos.file >= 1 && in_bounds(m.to) && cell_at(b, m.to).color
        == Color::Black && m.special_move == white_pawn_tag(m.to)
}

/// White pawn capture toward file 7.
pub open spec fn wp_capture_right(b: Board, pos: Square, m: Move) -> bool {
    m.to == shifted(pos, 1, 1) && pos.file < 7 && in_bounds(m.to) && cell_at(b, m.to).color
        == Color::Black && m.special_move == white_pawn_tag(m.to)
}

pub open spec fn white_pawn_moves_at(b: Board, pos: Square, m: Move) -> bool {
    &&& move_shape(b, pos, m)
    &&& {
        ||| wp_step(b, pos, m)
        ||| wp_double(b, pos, m)
        ||| wp_capture_left(b, pos, m)
        ||| wp_capture_right(b, pos, m)
    }
}

/// Black pawn, one step forward (toward rank 0) onto an empty square.
pub open spec fn bp_step(b: Board, pos: Square, m: Move) -> bool {
    m.to == shifted(pos, 0, -1) && pos.rank >= 1 && in_bounds(m.to) && cell_at(b, m.to).color
        == Color::Null && m.special_move == black_pawn_tag(m.to)
}

/// Black pawn, double step from rank 6 onto an empty square, tagged
/// `PawnLongMove`.  The square in between is deliberately not examined.
pub open spec fn bp_double(b: Board, pos: Square, m: Move) -> bool {
    m.to == shifted(pos, 0, -2) && pos.rank == 6 && in_bounds(m.to) && cell_at(b, m.to).color
        == Color::Null && m.special_move == Some(SpecialMoveType::PawnLongMove)
}

/// Black pawn capture toward file 0.
pub open spec fn bp_capture_left(b: Board, pos: Square, m: Move) -> bool {
    m.to == shifted(pos, -1, -1) && pos.file >= 1 && pos.rank >= 1 && in_bounds(m.to) && cell_at(
        b,
        m.to,
    ).color == Color::White && m.special_move == black_pawn_tag(m.to)
}

/// Black pawn capture toward file 7.
pub open spec fn bp_capture_right(b: Board, pos: Square, m: Move) -> bool {
    m.to == shifted(pos, 1, -1) && pos.file < 7 && pos.rank >= 1 && in_bounds(m.to) && cell_at(
        b,
        m.to,
    ).color == Color::White && m.special_move == black_pawn_tag(m.to)
}

pub open spec fn black_pawn_moves_at(b: Board, pos: Square, m: Move) -> bool {
    &&& move_shape(b, pos, m)
    &&& {
        ||| bp_step(b, pos, m)
        ||| bp_double(b, pos, m)
        ||| bp_capture_left(b, pos, m)
        ||| bp_capture_right(b, pos, m)
    }
}

pub open spec fn pawn_moves_at(b: Board, c: Color, pos: Square, m: Move) -> bool {
    ||| (c == Color::White && white_pawn_moves_at(b, pos, m))
    ||| (c == Color::Black && black_pawn_moves_at(b, pos, m))
}

/// The file offset of the `i`-th knight jump, in the order the generator
/// tries them.
pub open spec fn knight_df(i: int) -> int {
    if i == 0 {
        -1
    } else if i == 1 {
        -2
    } else if i == 2 {
        1
    } else if i == 3 {
        2
    } else if i == 4 {
        -1
    } else if i == 5 {
        -2
    } else if i == 6 {
        1
    } else {
        2
    }
}

/// The rank offset of the `i`-th knight jump.
pub open spec fn knight_dr(i: int) -> int {
    if i == 0 {
        2
    } else if i == 1 {
        1
    } else if i == 2 {
        2
    } else if i == 3 {
        1
    } else if i == 4 {
        -2
    } else if i == 5 {
        -1
    } else if i == 6 {
        -2
    } else {
        -1
    }
}

/// The file offset of the `i`-th king step, in the order the generator
/// tries them.
pub open spec fn king_df(i: int) -> int {
    if i == 0 {
        0
    } else if i == 1 {
        0
    } else if i == 2 {
        -1
    } else if i == 3 {
        1
    } else if i == 4 {
        1
    } else if i == 5 {
        -1
    } else if i == 6 {
        1
    } else {
        -1
    }
}

/// The rank offset of the `i`-th king step.
pub open spec fn king_dr(i: int) -> int {
    if i == 0 {
        1
    } else if i == 1 {
        -1
    } else if i == 2 {
        0
    } else if i == 3 {
        0
    } else if i == 4 {
        1
    } else if i == 5 {
        1
    } else if i == 6 {
        -1
    } else {
        -1
    }
}

// ---------------------------------------------------------------------------
// The exact output sequences of the generators
// ---------------------------------------------------------------------------
/// The moves a ray walk in direction `(df, dr)` emits from step `k` on, in
/// increasing distance: while the target square is on the board, an empty
/// target is listed and the walk goes one step further, an enemy target is
/// listed last, and a friendly target ends the walk unlisted.
pub open spec fn ray_moves_from(
    b: Board,
    c: Color,
    pos: Square,
    df: int,
    dr: int,
    k: int,
) -> Seq<Move>
    decreases 8 - k,
{
    if k < 1 || k > 7 || !(0 <= pos.file + k * df < 8 && 0 <= pos.rank + k * dr < 8) {
        Seq::empty()
    } else {
        let to = Square { file: (pos.file + k * df) as usize, rank: (pos.rank + k * dr) as usize };
        let m = Move { from: pos, to, piece: cell_at(b, pos), special_move: None };
        if cell_at(b, to).color == Color::Null {
            seq![m] + ray_moves_from(b, c, pos, df, dr, k + 1)
        } else if cell_at(b, to).color != c {
            seq![m]
        } else {
            Seq::empty()
        }
    }
}

/// A rook's output: its four rays in the fixed order right, left, up, down.
pub open spec fn rook_moves_seq(b: Board, c: Color, pos: Square) -> Seq<Move> {
    ray_moves_from(b, c, pos, 1, 0, 1) + ray_moves_from(b, c, pos, -1, 0, 1) + ray_moves_from(
        b,
        c,
        pos,
        0,
        1,
        1,
    ) + ray_moves_from(b, c, pos, 0, -1, 1)
}

/// A bishop's output: its four rays in the fixed order up-right, up-left,
/// down-right, down-left.
pub open spec fn bishop_moves_seq(b: Board, c: Color, pos: Square) -> Seq<Move> {
    ray_moves_from(b, c, pos, 1, 1, 1) + ray_moves_from(b, c, pos, -1, 1, 1) + ray_moves_from(
        b,
        c,
        pos,
        1,
        -1,
        1,
    ) + ray_moves_from(b, c, pos, -1, -1, 1)
}

/// A queen's output: the rook rays, then the bishop rays.
pub open spec fn queen_moves_seq(b: Board, c: Color, pos: Square) -> Seq<Move> {
    rook_moves_seq(b, c, pos) + bishop_moves_seq(b, c, pos)
}

/// One single-step candidate: the move to the offset square if it is on the
/// board and not friendly-occupied, nothing otherwise.
pub open spec fn step_move_opt(b: Board, c: Color, pos: Square, df: int, dr: int) -> Seq<Move> {
    if can_shift(pos, df, dr) && cell_at(b, shifted(pos, df, dr)).color != c {
        seq![
            Move {
                from: pos,
                to: shifted(pos, df, dr),
                piece: cell_at(b, pos),
                special_move: None,
            },
        ]
    } else {
        Seq::empty()
    }
}

/// The first `n` knight candidates, in table order.
pub open spec fn knight_moves_upto(b: Board, c: Color, pos: Square, n: int) -> Seq<Move>
    decreases n,
{
    if n <= 0 {
        Seq::empty()
    } else {
        knight_moves_upto(b, c, pos, n - 1) + step_move_opt(
            b,
            c,
            pos,
            knight_df(n - 1),
            knight_dr(n - 1),
        )
    }
}

/// A knight's output: its eight offsets in table order.
pub open spec fn knight_moves_seq(b: Board, c: Color, pos: Square) -> Seq<Move> {
    knight_moves_upto(b, c, pos, 8)
}

/// The first `n` king candidates, in table order.
pub open spec fn king_moves_upto(b: Board, c: Color, pos: Square, n: int) -> Seq<Move>
    decreases n,
{
    if n <= 0 {
        Seq::empty()
    } else {
        king_moves_upto(b, c, pos, n - 1) + step_move_opt(
            b,
            c,
            pos,
            king_df(n - 1),
            king_dr(n - 1),
        )
    }
}

/// A king's output: its eight adjacent squares in table order.
pub open spec fn king_moves_seq(b: Board, c: Color, pos: Square) -> Seq<Move> {
    king_moves_upto(b, c, pos, 8)
}

/// The white pawn's single step, if available.
pub open spec fn wp_step_opt(b: Board, pos: Square) -> Seq<Move> {
    let to = shifted(pos, 0, 1);
    if in_bounds(to) && cell_at(b, to).color == Color::Null {
        seq![Move { from: pos, to, piece: cell_at(b, pos), special_move: white_pawn_tag(to) }]
    } else {
        Seq::empty()
    }
}

/// The white pawn's double step, if available.
pub open spec fn wp_double_opt(b: Board, pos: Square) -> Seq<Move> {
    let to = shifted(pos, 0, 2);
    if pos.rank == 1 && in_bounds(to) && cell_at(b, to).color == Color::Null {
        seq![
            Move {
                from: pos,
                to,
                piece: cell_at(b, pos),
                special_move: Some(SpecialMoveType::PawnLongMove),
            },
        ]
    } else {
        Seq::empty()
    }
}

/// The white pawn's capture toward file 0, if available.
pub open spec fn wp_capture_left_opt(b: Board, pos: Square) -> Seq<Move> {
    let to = shifted(pos, -1, 1);
    if pos.file >= 1 && in_bounds(to) && cell_at(b, to).color == Color::Black {
        seq![Move { from: pos, to, piece: cell_at(b, pos), special_move: white_pawn_tag(to) }]
    } else {
        Seq::empty()
    }
}

/// The white pawn's capture toward file 7, if available.
pub open spec fn wp_capture_right_opt(b: Board, pos: Square) -> Seq<Move> {
    let to = shifted(pos, 1, 1);
    if pos.file < 7 && in_bounds(to) && cell_at(b, to).color == Color::Black {
        seq![Move { from: pos, to, piece: cell_at(b, pos), special_move: white_pawn_tag(to) }]
    } else {
        Seq::empty()
    }
}

/// A white pawn's output: single step, double step, capture left, capture
/// right, in that order.
pub open spec fn white_pawn_moves_seq(b: Board, pos: Square) -> Seq<Move> {
    wp_step_opt(b, pos) + wp_double_opt(b, pos) + wp_capture_left_opt(b, pos)
        + wp_capture_right_opt(b, pos)
}

/// The black pawn's single step, if available.
pub open spec fn bp_step_opt(b: Board, pos: Square) -> Seq<Move> {
    let to = shifted(pos, 0, -1);
    if pos.rank >= 1 && cell_at(b, to).color == Color::Null {
        seq![Move { from: pos, to, piece: cell_at(b, pos), special_move: black_pawn_tag(to) }]
    } else {
        Seq::empty()
    }
}

/// The black pawn's double step, if available.
pub open spec fn bp_double_opt(b: Board, pos: Square) -> Seq<Move> {
    let to = shifted(pos, 0, -2);
    if pos.rank == 6 && cell_at(b, to).color == Color::Null {
        seq![
            Move {
                from: pos,
                to,
                piece: cell_at(b, pos),
                special_move: Some(SpecialMoveType::PawnLongMove),
            },
        ]
    } else {
        Seq::empty()
    }
}

/// The black pawn's capture toward file 0, if available.
pub open spec fn bp_capture_left_opt(b: Board, pos: Square) -> Seq<Move> {
    let to = shifted(pos, -1, -1);
    if pos.file >= 1 && pos.rank >= 1 && cell_at(b, to).color == Color::White {
        seq![Move { from: pos, to, piece: cell_at(b, pos), special_move: black_pawn_tag(to) }]
    } else {
        Seq::empty()
    }
}

/// The black pawn's capture toward file 7, if available.
pub open spec fn bp_capture_right_opt(b: Board, pos: Square) -> Seq<Move> {
    let to = shifted(pos, 1, -1);
    if pos.file < 7 && pos.rank >= 1 && cell_at(b, to).color == Color::White {
        seq![Move { from: pos, to, piece: cell_at(b, pos), special_move: black_pawn_tag(to) }]
    } else {
        Seq::empty()
    }
}

/// A black pawn's output, mirroring [`white_pawn_moves_seq`].
pub open spec fn black_pawn_moves_seq(b: Board, pos: Square) -> Seq<Move> {
    bp_step_opt(b, pos) + bp_double_opt(b, pos) + bp_capture_left_opt(b, pos)
        + bp_capture_right_opt(b, pos)
}

/// A pawn's output for the given side.
pub open spec fn pawn_moves_seq(b: Board, c: Color, pos: Square) -> Seq<Move> {
    if c == Color::White {
        white_pawn_moves_seq(b, pos)
    } else if c == Color::Black {
        black_pawn_moves_seq(b, pos)
    } else {
        Seq::empty()
    }
}

// ---------------------------------------------------------------------------
// Pseudo-legal moves
// ---------------------------------------------------------------------------
/// `m` is a pseudo-legal move of side `c`: its source square holds a piece
/// of `c`, and the move obeys that piece's movement and occupancy rules.
/// King safety is not considered here.
pub open spec fn basic_move_ok(b: Board, c: Color, m: Move) -> bool {
    &&& in_bounds(m.from)
    &&& cell_at(b, m.from).color == c
    &&& match cell_at(b, m.from).piece {
        PieceType::Rook => rook_moves_at(b, c, m.from, m),
        PieceType::Bishop => bishop_moves_at(b, c, m.from, m),
        PieceType::Queen => queen_moves_at(b, c, m.from, m),
        PieceType::Knight => knight_moves_at(b, c, m.from, m),
        PieceType::King => king_moves_at(b, c, m.from, m),
        PieceType::Pawn => pawn_moves_at(b, c, m.from, m),
        PieceType::Null => false,
    }
}

/// Every pseudo-legal move stays on the board.
pub proof fn lemma_basic_move_bounds(b: Board, c: Color, m: Move)
    requires
        basic_move_ok(b, c, m),
    ensures
        in_bounds(m.from),
        in_bounds(m.to),
{
}

// ---------------------------------------------------------------------------
// King location and check
// ---------------------------------------------------------------------------
/// The square of the last cell, in row-major scan order over the first `n`
/// cells, that holds a king of side `c`; the off-board sentinel `(8, 8)` if
/// there is none.
pub open spec fn king_seek(b: Board, c: Color, n: int) -> Square
    decreases n,
{
    if n <= 0 {
        Square { file: 8, rank: 8 }
    } else {
        let r = (n - 1) / 8;
        let f = (n - 1) % 8;
        if b[r][f].piece == PieceType::King && b[r][f].color == c {
            Square { file: f as usize, rank: r as usize }
        } else {
            king_seek(b, c, n - 1)
        }
    }
}

/// Where a full-board scan locates the king of side `c`: the sentinel
/// `(8, 8)` on a board with no such king, which no generated move can
/// target.
pub open spec fn king_square(b: Board, c: Color) -> Square {
    king_seek(b, c, 64)
}

/// Some pseudo-legal move of side `by` lands on `target`.
pub open spec fn attacked(b: Board, by: Color, target: Square) -> bool {
    exists|m: Move| #[trigger] basic_move_ok(b, by, m) && m.to == target
}

// ---------------------------------------------------------------------------
// Hypothetical move application for the check-safety filter
// ---------------------------------------------------------------------------
/// The board after playing only the primary relocation of `m`: the source
/// square is vacated and the destination receives the moving piece.  A move
/// whose source equals its destination leaves the board unchanged.  Special
/// side effects (en-passant capture, rook relocation) are deliberately not
/// replayed here.
pub open spec fn sim_board(b: Board, m: Move) -> Board {
    board_set(board_set(b, m.from, empty_piece()), m.to, cell_at(b, m.from))
}

/// Playing the primary relocation of `m` leaves `c`'s king (as a full-board
/// scan locates it) out of reach of every pseudo-legal reply.
pub open spec fn move_safe(b: Board, c: Color, m: Move) -> bool {
    !attacked(sim_board(b, m), opposite(c), king_square(sim_board(b, m), c))
}

/// The check-safety predicate as a function value, for stating filters.
pub open spec fn safe_pred(b: Board, c: Color) -> spec_fn(Move) -> bool {
    |m: Move| move_safe(b, c, m)
}

// ---------------------------------------------------------------------------
// En passant
// ---------------------------------------------------------------------------
/// The history shape en-passant generation relies on: when the last entry is
/// a pawn double step, its destination square is on the board and leaves
/// room for the capturing pawn of `turn` to advance past it.  A recorded
/// double step of either side always satisfies this.
pub open spec fn ep_history_ok(turn: Color, hist: Seq<MoveHistoryEntry>) -> bool {
    (hist.len() > 0 && hist.last().moveEntry.special_move == Some(
        SpecialMoveType::PawnLongMove,
    )) ==> {
        let lt = hist.last().moveEntry.to;
        &&& in_bounds(lt)
        &&& (turn == Color::White ==> lt.rank < 7)
        &&& (turn == Color::Black ==> lt.rank >= 1)
    }
}

/// The square to the right of the double-stepped pawn.
pub open spec fn ep_from_right(lt: Square) -> Square {
    Square { file: (lt.file + 1) as usize, rank: lt.rank }
}

/// The square to the left of the double-stepped pawn.
pub open spec fn ep_from_left(lt: Square) -> Square {
    Square { file: (lt.file - 1) as usize, rank: lt.rank }
}

/// The square behind the double-stepped pawn, where the capture lands.
pub open spec fn ep_target(turn: Color, lt: Square) -> Square {
    Square {
        file: lt.file,
        rank: if turn == Color::White {
            (lt.rank + 1) as usize
        } else {
            (lt.rank - 1) as usize
        },
    }
}

/// A pawn of `turn` stands on `from` and `m` is exactly its en-passant
/// capture behind the double-stepped pawn that just arrived on `lt`.
pub open spec fn ep_capture_from(b: Board, turn: Color, lt: Square, from: Square, m: Move) -> bool {
    &&& cell_at(b, from).piece == PieceType::Pawn
    &&& cell_at(b, from).color == turn
    &&& m == (Move {
        from,
        to: ep_target(turn, lt),
        piece: cell_at(b, from),
        special_move: Some(SpecialMoveType::EnPassant),
    })
}

/// `m` is an en-passant capture of side `turn`: the most recent history
/// entry is a pawn double step, and a pawn of `turn` on one of the two
/// squares horizontally adjacent to its destination captures diagonally
/// onto the square behind it.
pub open spec fn ep_move_ok(b: Board, turn: Color, hist: Seq<MoveHistoryEntry>, m: Move) -> bool {
    &&& hist.len() > 0
    &&& hist.last().moveEntry.special_move == Some(SpecialMoveType::PawnLongMove)
    &&& (turn == Color::White || turn == Color::Black)
    &&& {
        let lt = hist.last().moveEntry.to;
        ||| (lt.file < 7 && ep_capture_from(b, turn, lt, ep_from_right(lt), m))
        ||| (lt.file >= 1 && ep_capture_from(b, turn, lt, ep_from_left(lt), m))
    }
}

/// En-passant captures stay on the board whenever the history is
/// well-shaped.
pub proof fn lemma_ep_move_bounds(b: Board, turn: Color, hist: Seq<MoveHistoryEntry>, m: Move)
    requires
        ep_history_ok(turn, hist),
        ep_move_ok(b, turn, hist, m),
    ensures
        in_bounds(m.from),
        in_bounds(m.to),
{
}

// ---------------------------------------------------------------------------
// Castling
// ---------------------------------------------------------------------------
/// `e` does not spend castling rights of side `c` with a rook home square
/// `rook_home`: it moves neither `c`'s king nor a rook of `c` away from
/// that home square.
pub open spec fn entry_keeps_rights(e: MoveHistoryEntry, c: Color, rook_home: Square) -> bool {
    &&& !(e.moveEntry.piece.piece == PieceType::King && e.moveEntry.piece.color == c)
    &&& !(e.moveEntry.piece.piece == PieceType::Rook && e.moveEntry.piece.color == c
        && e.moveEntry.from == rook_home)
}

/// No entry of the history spends the rights for this castle.
pub open spec fn history_keeps_castle_rights(
    hist: Seq<MoveHistoryEntry>,
    c: Color,
    rook_home: Square,
) -> bool {
    forall|i: int| 0 <= i < hist.len() ==> entry_keeps_rights(#[trigger] hist[i], c, rook_home)
}

/// The rank on which side `c`'s king and rooks start.
pub open spec fn home_rank(c: Color) -> usize {
    if c == Color::White {
        0
    } else {
        7
    }
}

/// A hypothetical king relocation along the castling path, used to test the
/// start, transit and landing squares for check.
pub open spec fn king_path_move(c: Color, to_file: usize) -> Move {
    Move {
        from: Square { file: 4, rank: home_rank(c) },
        to: Square { file: to_file, rank: home_rank(c) },
        piece: Piece { piece: PieceType::King, color: c },
        special_move: None,
    }
}

/// The castling conditions for side `c` (long toward file 0, short toward
/// file 7): the king actually stands on its home square, rights are intact
/// over the whole history, every square strictly between the king and rook
/// home squares is empty, and the king is not capturable on its start,
/// transit or landing square.  The king-on-home gate is deliberate: the
/// move record and the path test both presuppose the king at file 4, so
/// without it a board whose home square is empty would yield phantom
/// castles.
pub open spec fn can_castle_ok(b: Board, hist: Seq<MoveHistoryEntry>, c: Color, long: bool) -> bool {
    &&& b[home_rank(c) as int][4] == (Piece { piece: PieceType::King, color: c })
    &&& history_keeps_castle_rights(
        hist,
        c,
        Square {
            file: if long {
                0
            } else {
                7
            },
            rank: home_rank(c),
        },
    )
    &&& (if long {
        b[home_rank(c) as int][1].piece == PieceType::Null && b[home_rank(c) as int][2].piece
            == PieceType::Null && b[home_rank(c) as int][3].piece == PieceType::Null
    } else {
        b[home_rank(c) as int][5].piece == PieceType::Null && b[home_rank(c) as int][6].piece
            == PieceType::Null
    })
    &&& move_safe(b, c, king_path_move(c, 4))
    &&& move_safe(
        b,
        c,
        king_path_move(
            c,
            if long {
                3
            } else {
                5
            },
        ),
    )
    &&& move_safe(
        b,
        c,
        king_path_move(
            c,
            if long {
                2
            } else {
                6
            },
        ),
    )
}

/// The move record a permitted castle is emitted as; the rook relocation is
/// not encoded in it and is replayed when the move is committed.
pub open spec fn castle_move(c: Color, long: bool) -> Move {
    Move {
        from: Square { file: 4, rank: home_rank(c) },
        to: Square {
            file: if long {
                2
            } else {
                6
            },
            rank: home_rank(c),
        },
        piece: Piece { piece: PieceType::King, color: c },
        special_move: Some(
            if long {
                SpecialMoveType::CastleLong
            } else {
                SpecialMoveType::CastleShort
            },
        ),
    }
}

/// `m` is a castle of side `c` that all three castling conditions permit.
pub open spec fn castle_move_ok(b: Board, c: Color, hist: Seq<MoveHistoryEntry>, m: Move) -> bool {
    &&& (c == Color::White || c == Color::Black)
    &&& {
        ||| (can_castle_ok(b, hist, c, true) && m == castle_move(c, true))
        ||| (can_castle_ok(b, hist, c, false) && m == castle_move(c, false))
    }
}

/// What the board scan emits for one square: the moves of the piece
/// standing there when it belongs to `c`, nothing otherwise.
pub open spec fn square_moves_seq(b: Board, c: Color, pos: Square) -> Seq<Move> {
    if cell_at(b, pos).color == c {
        match cell_at(b, pos).piece {
            PieceType::Rook => rook_moves_seq(b, c, pos),
            PieceType::Bishop => bishop_moves_seq(b, c, pos),
            PieceType::Queen => queen_moves_seq(b, c, pos),
            PieceType::Knight => knight_moves_seq(b, c, pos),
            PieceType::King => king_moves_seq(b, c, pos),
            PieceType::Pawn => pawn_moves_seq(b, c, pos),
            PieceType::Null => Seq::empty(),
        }
    } else {
        Seq::empty()
    }
}

/// The concatenation of the per-square outputs over the first `n` squares
/// in row-major scan order.
pub open spec fn basic_moves_upto(b: Board, c: Color, n: int) -> Seq<Move>
    decreases n,
{
    if n <= 0 {
        Seq::empty()
    } else {
        basic_moves_upto(b, c, n - 1) + square_moves_seq(
            b,
            c,
            Square { file: ((n - 1) % 8) as usize, rank: ((n - 1) / 8) as usize },
        )
    }
}

/// The exact output of the pseudo-legal generator: every square's moves, in
/// row-major scan order of the source square.
pub open spec fn basic_moves_seq(b: Board, c: Color) -> Seq<Move> {
    basic_moves_upto(b, c, 64)
}

/// The en-passant capture from `from`, if a pawn of `turn` stands there.
pub open spec fn ep_capture_opt(b: Board, turn: Color, lt: Square, from: Square) -> Seq<Move> {
    if cell_at(b, from).piece == PieceType::Pawn && cell_at(b, from).color == turn {
        seq![
            Move {
                from,
                to: ep_target(turn, lt),
                piece: cell_at(b, from),
                special_move: Some(SpecialMoveType::EnPassant),
            },
        ]
    } else {
        Seq::empty()
    }
}

/// The exact output of the en-passant generator: nothing unless the most
/// recent entry is a pawn double step; otherwise the capture from the right
/// neighbor of its destination, then the one from the left neighbor.
pub open spec fn ep_moves_seq(b: Board, turn: Color, hist: Seq<MoveHistoryEntry>) -> Seq<Move> {
    if hist.len() > 0 && hist.last().moveEntry.special_move == Some(SpecialMoveType::PawnLongMove)
        && (turn == Color::White || turn == Color::Black) {
        let lt = hist.last().moveEntry.to;
        (if lt.file < 7 {
            ep_capture_opt(b, turn, lt, ep_from_right(lt))
        } else {
            Seq::empty()
        }) + (if lt.file >= 1 {
            ep_capture_opt(b, turn, lt, ep_from_left(lt))
        } else {
            Seq::empty()
        })
    } else {
        Seq::empty()
    }
}

/// One castle move, when it belongs to the side to move and its gates pass.
pub open spec fn castle_opt(
    b: Board,
    turn: Color,
    hist: Seq<MoveHistoryEntry>,
    c: Color,
    long: bool,
) -> Seq<Move> {
    if turn == c && can_castle_ok(b, hist, c, long) {
        seq![castle_move(c, long)]
    } else {
        Seq::empty()
    }
}

/// The exact output of the castling generator: white long, white short,
/// black long, black short, each present exactly when permitted for the
/// side to move.
pub open spec fn castle_moves_seq(b: Board, turn: Color, hist: Seq<MoveHistoryEntry>) -> Seq<
    Move,
> {
    castle_opt(b, turn, hist, Color::White, true) + castle_opt(b, turn, hist, Color::White, false)
        + castle_opt(b, turn, hist, Color::Black, true) + castle_opt(
        b,
        turn,
        hist,
        Color::Black,
        false,
    )
}

// ---------------------------------------------------------------------------
// Legal moves
// ---------------------------------------------------------------------------
/// The exact output of the full generator: the pseudo-legal moves in scan
/// order, then the en-passant captures, then the castles, with the
/// check-unsafe moves filtered out last and the survivors' order kept.
pub open spec fn legal_moves_seq(b: Board, turn: Color, hist: Seq<MoveHistoryEntry>) -> Seq<
    Move,
> {
    (basic_moves_seq(b, turn) + ep_moves_seq(b, turn, hist) + castle_moves_seq(
        b,
        turn,
        hist,
    )).filter(safe_pred(b, turn))
}

/// `m` is a legal move of side `c`: pseudo-legal, an en-passant capture or a
/// permitted castle, and playing its primary relocation leaves `c`'s own
/// king out of reach of every pseudo-legal reply.
pub open spec fn legal_move_ok(b: Board, c: Color, hist: Seq<MoveHistoryEntry>, m: Move) -> bool {
    &&& {
        ||| basic_move_ok(b, c, m)
        ||| ep_move_ok(b, c, hist, m)
        ||| castle_move_ok(b, c, hist, m)
    }
    &&& move_safe(b, c, m)
}

// ---------------------------------------------------------------------------
// Material
// ---------------------------------------------------------------------------
/// The cell at row-major scan position `n`.
pub open spec fn cell_of(b: Board, n: int) -> Piece {
    b[n / 8][n % 8]
}

/// How many of the first `n` cells are occupied.
pub open spec fn piece_count_upto(b: Board, n: int) -> nat
    decreases n,
{
    if n <= 0 {
        0
    } else {
        piece_count_upto(b, n - 1) + (if cell_of(b, n - 1).piece != PieceType::Null {
            1nat
        } else {
            0nat
        })
    }
}

/// How many pieces stand on the board.
pub open spec fn piece_count(b: Board) -> nat {
    piece_count_upto(b, 64)
}

/// The cell at scan position `n` holds a piece other than a king.
pub open spec fn nonking_of(b: Board, n: int) -> bool {
    cell_of(b, n).piece != PieceType::Null && cell_of(b, n).piece != PieceType::King
}

/// How many of the first `n` cells hold a piece other than a king.
pub open spec fn nonking_count_upto(b: Board, n: int) -> nat
    decreases n,
{
    if n <= 0 {
        0
    } else {
        nonking_count_upto(b, n - 1) + (if nonking_of(b, n - 1) {
            1nat
        } else {
            0nat
        })
    }
}

/// How many pieces other than kings stand on the board.
pub open spec fn nonking_count(b: Board) -> nat {
    nonking_count_upto(b, 64)
}

/// The cell at scan position `n` holds a bishop or a knight.
pub open spec fn minor_of(b: Board, n: int) -> bool {
    cell_of(b, n).piece == PieceType::Bishop || cell_of(b, n).piece == PieceType::Knight
}

/// The cell at scan position `n` holds a bishop.
pub open spec fn bishop_of(b: Board, n: int) -> bool {
    cell_of(b, n).piece == PieceType::Bishop
}

/// The color of the square at scan position `n`: squares whose rank and
/// file sum to an even number share one color.
pub open spec fn square_parity(n: int) -> int {
    (n / 8 + n % 8) % 2
}

/// Neither side can force checkmate on this material: two bare kings; two
/// kings and a single bishop or knight; or two kings and two bishops that
/// stand on same-colored squares.
pub open spec fn insufficient_material(b: Board) -> bool {
    ||| piece_count(b) == 2
    ||| (piece_count(b) == 3 && nonking_count(b) == 1 && exists|n: int|
        0 <= n < 64 && #[trigger] minor_of(b, n))
    ||| (piece_count(b) == 4 && nonking_count(b) == 2 && (forall|n: int|
        0 <= n < 64 && #[trigger] nonking_of(b, n) ==> bishop_of(b, n)) && (forall|
        n1: int,
        n2: int,
    |
        0 <= n1 < 64 && 0 <= n2 < 64 && #[trigger] bishop_of(b, n1) && #[trigger] bishop_of(
            b,
            n2,
        ) ==> square_parity(n1) == square_parity(n2)))
}

// ---------------------------------------------------------------------------
// Committing a move
// ---------------------------------------------------------------------------
/// The board after committing `m`: the destination receives the moving
/// piece and the source is vacated, then the special side effects are
/// replayed — an en-passant capture removes the pawn behind the landing
/// square, a castle relocates the rook.  Promotion substitution is a
/// separate step, [`crate::game::apply_promotion`].
pub open spec fn play_board(b: Board, m: Move) -> Board {
    let moved = board_set(board_set(b, m.to, cell_at(b, m.from)), m.from, empty_piece());
    match m.special_move {
        Some(SpecialMoveType::EnPassant) => {
            if m.piece.color == Color::White {
                board_set(
                    moved,
                    Square { file: m.to.file, rank: (m.to.rank - 1) as usize },
                    empty_piece(),
                )
            } else if m.piece.color == Color::Black {
                board_set(
                    moved,
                    Square { file: m.to.file, rank: (m.to.rank + 1) as usize },
                    empty_piece(),
                )
            } else {
                moved
            }
        },
        Some(SpecialMoveType::CastleLong) => {
            if m.piece.color == Color::White {
                board_set(
                    board_set(moved, Square { file: 0, rank: 0 }, empty_piece()),
                    Square { file: 3, rank: 0 },
                    Piece { piece: PieceType::Rook, color: Color::White },
                )
            } else if m.piece.color == Color::Black {
                board_set(
                    board_set(moved, Square { file: 0, rank: 7 }, empty_piece()),
                    Square { file: 3, rank: 7 },
                    Piece { piece: PieceType::Rook, color: Color::Black },
                )
            } else {
                moved
            }
        },
        Some(SpecialMoveType::CastleShort) => {
            if m.piece.color == Color::White {
                board_set(
                    board_set(moved, Square { file: 7, rank: 0 }, empty_piece()),
                    Square { file: 5, rank: 0 },
                    Piece { piece: PieceType::Rook, color: Color::White },
                )
            } else if m.piece.color == Color::Black {
                board_set(
                    board_set(moved, Square { file: 7, rank: 7 }, empty_piece()),
                    Square { file: 5, rank: 7 },
                    Piece { piece: PieceType::Rook, color: Color::Black },
                )
            } else {
                moved
            }
        },
        _ => moved,
    }
}

/// The en-passant rank constraints under which committing `m` stays on the
/// board: the capture removes a pawn one rank behind the landing square.
pub open spec fn play_input_ok(m: Move) -> bool {
    &&& in_bounds(m.from)
    &&& in_bounds(m.to)
    &&& (m.special_move == Some(SpecialMoveType::EnPassant) && m.piece.color == Color::White
        ==> m.to.rank >= 1)
    &&& (m.special_move == Some(SpecialMoveType::EnPassant) && m.piece.color == Color::Black
        ==> m.to.rank < 7)
}

/// Committing a move preserves board well-formedness.
pub proof fn lemma_play_board_wf(b: Board, m: Move)
    requires
        board_wf(b),
        play_input_ok(m),
    ensures
        board_wf(play_board(b, m)),
{
    crate::board::lemma_board_set(b, m.to, cell_at(b, m.from));
    let b1 = board_set(b, m.to, cell_at(b, m.from));
    crate::board::lemma_board_set(b1, m.from, empty_piece());
    let moved = board_set(b1, m.from, empty_piece());
    assert(board_wf(moved));
    match m.special_move {
        Some(SpecialMoveType::EnPassant) => {
            if m.piece.color == Color::White {
                crate::board::lemma_board_set(
                    moved,
                    Square { file: m.to.file, rank: (m.to.rank - 1) as usize },
                    empty_piece(),
                );
            } else if m.piece.color == Color::Black {
                crate::board::lemma_board_set(
                    moved,
                    Square { file: m.to.file, rank: (m.to.rank + 1) as usize },
                    empty_piece(),
                );
            }
        },
        Some(SpecialMoveType::CastleLong) => {
            if m.piece.color == Color::White {
                crate::board::lemma_board_set(moved, Square { file: 0, rank: 0 }, empty_piece());
                crate::board::lemma_board_set(
                    board_set(moved, Square { file: 0, rank: 0 }, empty_piece()),
                    Square { file: 3, rank: 0 },
                    Piece { piece: PieceType::Rook, color: Color::White },
                );
            } else if m.piece.color == Color::Black {
                crate::board::lemma_board_set(moved, Square { file: 0, rank: 7 }, empty_piece());
                crate::board::lemma_board_set(
                    board_set(moved, Square { file: 0, rank: 7 }, empty_piece()),
                    Square { file: 3, rank: 7 },
                    Piece { piece: PieceType::Rook, color: Color::Black },
                );
            }
        },
        Some(SpecialMoveType::CastleShort) => {
            if m.piece.color == Color::White {
                crate::board::lemma_board_set(moved, Square { file: 7, rank: 0 }, empty_piece());
                crate::board::lemma_board_set(
                    board_set(moved, Square { file: 7, rank: 0 }, empty_piece()),
                    Square { file: 5, rank: 0 },
                    Piece { piece: PieceType::Rook, color: Color::White },
                );
            } else if m.piece.color == Color::Black {
                crate::board::lemma_board_set(moved, Square { file: 7, rank: 7 }, empty_piece());
                crate::board::lemma_board_set(
                    board_set(moved, Square { file: 7, rank: 7 }, empty_piece()),
                    Square { file: 5, rank: 7 },
                    Piece { piece: PieceType::Rook, color: Color::Black },
                );
            }
        },
        _ => {},
    }
}

/// The primary relocation preserves board well-formedness.
pub proof fn lemma_sim_board_wf(b: Board, m: Move)
    requires
        board_wf(b),
        in_bounds(m.from),
        in_bounds(m.to),
    ensures
        board_wf(sim_board(b, m)),
{
    crate::board::lemma_board_set(b, m.from, empty_piece());
    crate::board::lemma_board_set(board_set(b, m.from, empty_piece()), m.to, cell_at(b, m.from));
}

} // verus!

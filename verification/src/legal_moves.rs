//! Move generation and the check-safety filter.  Every generator carries
//! two contracts: a move is in its output exactly when the corresponding
//! predicate from [`crate::rules`] holds of it, and the output is exactly
//! the ordered sequence the corresponding `*_seq` function of
//! [`crate::rules`] describes — which fixes order, length, duplicates and
//! determinism as well.

use crate::board::{board_wf, cell_at, Board};
use crate::piece::{opposite, Color, Piece, PieceType};
use crate::position::{
    can_shift, in_bounds, move_down, move_down_down, move_down_down_left, move_down_down_right,
    move_down_left, move_down_left_left, move_down_right, move_down_right_right, move_left,
    move_right, move_up, move_up_left, move_up_left_left, move_up_right, move_up_right_right,
    move_up_up, move_up_up_left, move_up_up_right, shifted, Move, MoveHistoryEntry, Square,
    SpecialMoveType,
};
use crate::rules::{
    bishop_moves_at, black_pawn_moves_at, black_pawn_tag, bp_capture_left, bp_capture_right,
    bp_double, bp_step, basic_move_ok, king_moves_at, knight_moves_at, move_shape, on_ray, pawn_moves_at,
    queen_moves_at, ray_cell, ray_clear, rook_moves_at, slide_moves_at_dir,
    white_pawn_moves_at, white_pawn_tag, wp_capture_left, wp_capture_right, wp_double, wp_step,
    attacked, can_castle_ok, castle_move, castle_move_ok, entry_keeps_rights, ep_capture_from,
    ep_from_left, ep_from_right, ep_history_ok, ep_move_ok, ep_target, history_keeps_castle_rights,
    king_path_move, king_seek, king_square, legal_move_ok, lemma_basic_move_bounds,
    lemma_ep_move_bounds, lemma_sim_board_wf, move_safe, safe_pred, sim_board,
    basic_moves_seq, basic_moves_upto, bishop_moves_seq, black_pawn_moves_seq, bp_capture_left_opt,
    bp_capture_right_opt, bp_double_opt, bp_step_opt, castle_moves_seq, castle_opt, ep_capture_opt,
    ep_moves_seq, king_df, king_dr, king_moves_seq, king_moves_upto, knight_df, knight_dr,
    knight_moves_seq, knight_moves_upto, legal_moves_seq, pawn_moves_seq, queen_moves_seq,
    ray_moves_from, rook_moves_seq, square_moves_seq, step_move_opt, white_pawn_moves_seq,
    wp_capture_left_opt, wp_capture_right_opt, wp_double_opt, wp_step_opt,
};
use vstd::prelude::*;

verus! {

broadcast use vstd::array::group_array_axioms;

// ---------------------------------------------------------------------------
// Small proof helpers
// ---------------------------------------------------------------------------
/// A product by a factor from {-1, 0, 1}, spelled out so that callers can
/// reason linearly about ray arithmetic.
pub(crate) proof fn lemma_mul_small(k: int, d: int)
    requires
        -1 <= d <= 1,
    ensures
        d == 0 ==> k * d == 0,
        d == 1 ==> k * d == k,
        d == -1 ==> k * d == -k,
{
    assert(d == 0 ==> k * d == 0) by (nonlinear_arith);
    assert(d == 1 ==> k * d == k) by (nonlinear_arith);
    assert(d == -1 ==> k * d == -k) by (nonlinear_arith);
}

/// Convexity of the board: every intermediate point of a ray whose endpoints
/// are on the board is on the board.
pub(crate) proof fn lemma_ray_in_bounds(p0: Square, df: int, dr: int, j: int, k: int)
    requires
        -1 <= df <= 1,
        -1 <= dr <= 1,
        0 <= j <= k,
        in_bounds(p0),
        0 <= p0.file + k * df < 8,
        0 <= p0.rank + k * dr < 8,
    ensures
        0 <= p0.file + j * df < 8,
        0 <= p0.rank + j * dr < 8,
{
    lemma_mul_small(j, df);
    lemma_mul_small(k, df);
    lemma_mul_small(j, dr);
    lemma_mul_small(k, dr);
}

/// A ray between two on-board squares is at most seven steps long.
proof fn lemma_ray_len_bound(p0: Square, q: Square, df: int, dr: int, k: int)
    requires
        -1 <= df <= 1,
        -1 <= dr <= 1,
        !(df == 0 && dr == 0),
        0 <= k,
        on_ray(p0, q, df, dr, k),
        in_bounds(p0),
        in_bounds(q),
    ensures
        k <= 7,
{
    lemma_mul_small(k, df);
    lemma_mul_small(k, dr);
}

proof fn lemma_contains_push<A>(s: Seq<A>, x: A, y: A)
    ensures
        s.push(x).contains(y) <==> (s.contains(y) || x == y),
{
    if s.push(x).contains(y) {
        let i = choose|i: int| 0 <= i < s.push(x).len() && s.push(x)[i] == y;
        if i < s.len() {
            assert(s[i] == y);
        }
    }
    if s.contains(y) {
        let i = choose|i: int| 0 <= i < s.len() && s[i] == y;
        assert(s.push(x)[i] == y);
    }
    assert(s.push(x)[s.len() as int] == x);
}

proof fn lemma_contains_add<A>(a: Seq<A>, b: Seq<A>, y: A)
    ensures
        (a + b).contains(y) <==> (a.contains(y) || b.contains(y)),
{
    if (a + b).contains(y) {
        let i = choose|i: int| 0 <= i < (a + b).len() && (a + b)[i] == y;
        if i < a.len() {
            assert(a[i] == y);
        } else {
            assert(b[i - a.len()] == y);
        }
    }
    if a.contains(y) {
        let i = choose|i: int| 0 <= i < a.len() && a[i] == y;
        assert((a + b)[i] == y);
    }
    if b.contains(y) {
        let i = choose|i: int| 0 <= i < b.len() && b[i] == y;
        assert((a + b)[a.len() + i] == y);
    }
}

// ---------------------------------------------------------------------------
// The full board scan
// ---------------------------------------------------------------------------
/// Row-major scan position of a square.
pub open spec fn scan_idx(s: Square) -> int {
    s.rank * 8 + s.file
}

/// A pseudo-legal move whose source square has already been scanned.
pub(crate) open spec fn basic_move_scanned(b: Board, c: Color, n: int, m: Move) -> bool {
    basic_move_ok(b, c, m) && scan_idx(m.from) < n
}

/// Extending the scanned prefix by one square whose moves were just
/// appended.
proof fn lemma_scan_extend(
    b: Board,
    c: Color,
    pos: Square,
    res_before: Seq<Move>,
    vnew: Seq<Move>,
    res_after: Seq<Move>,
)
    requires
        in_bounds(pos),
        res_after == res_before + vnew,
        forall|m: Move| res_before.contains(m) <==> basic_move_scanned(b, c, scan_idx(pos), m),
        forall|m: Move| vnew.contains(m) <==> (basic_move_ok(b, c, m) && m.from == pos),
        forall|i: int, j: int|
            0 <= i <= j < res_before.len() ==> scan_idx(res_before[i].from) <= scan_idx(
                res_before[j].from,
            ),
    ensures
        forall|m: Move| res_after.contains(m) <==> basic_move_scanned(b, c, scan_idx(pos) + 1, m),
        forall|i: int, j: int|
            0 <= i <= j < res_after.len() ==> scan_idx(res_after[i].from) <= scan_idx(
                res_after[j].from,
            ),
{
    assert forall|i: int, j: int|
        0 <= i <= j < res_after.len() implies scan_idx(res_after[i].from) <= scan_idx(
        res_after[j].from,
    ) by {
        if i < res_before.len() {
            assert(res_after[i] == res_before[i]);
            assert(res_before.contains(res_before[i]));
        } else {
            assert(res_after[i] == vnew[i - res_before.len()]);
            assert(vnew.contains(vnew[i - res_before.len()]));
        }
        if j < res_before.len() {
            assert(res_after[j] == res_before[j]);
            assert(res_before.contains(res_before[j]));
        } else {
            assert(res_after[j] == vnew[j - res_before.len()]);
            assert(vnew.contains(vnew[j - res_before.len()]));
        }
    }
    assert forall|m: Move|
        res_after.contains(m) <==> basic_move_scanned(b, c, scan_idx(pos) + 1, m) by {
        lemma_contains_add(res_before, vnew, m);
        if basic_move_scanned(b, c, scan_idx(pos) + 1, m) && scan_idx(m.from) == scan_idx(pos) {
            assert(m.from.rank == pos.rank && m.from.file == pos.file);
            assert(m.from == pos);
        }
    }
}

/// Extending the scanned prefix by one square that contributes no moves.
proof fn lemma_scan_skip(b: Board, c: Color, pos: Square, res: Seq<Move>)
    requires
        in_bounds(pos),
        forall|m: Move| res.contains(m) <==> basic_move_scanned(b, c, scan_idx(pos), m),
        forall|m: Move| !(basic_move_ok(b, c, m) && m.from == pos),
    ensures
        forall|m: Move| res.contains(m) <==> basic_move_scanned(b, c, scan_idx(pos) + 1, m),
{
    assert forall|m: Move|
        res.contains(m) <==> basic_move_scanned(b, c, scan_idx(pos) + 1, m) by {
        if basic_move_scanned(b, c, scan_idx(pos) + 1, m) && scan_idx(m.from) == scan_idx(pos) {
            assert(m.from.rank == pos.rank && m.from.file == pos.file);
            assert(m.from == pos);
        }
    }
}

/// Enumerates the pseudo-legal moves of side `turn`: for every square
/// occupied by `turn`, the moves of the piece standing there, in row-major
/// scan order of the source square.  No king-safety filtering happens here.
pub fn find_basic_legal_moves(board: &Board, turn: Color) -> (res: Vec<Move>)
    requires
        board_wf(*board),
    ensures
        forall|m: Move| res@.contains(m) <==> basic_move_ok(*board, turn, m),
        forall|i: int, j: int|
            0 <= i <= j < res@.len() ==> scan_idx(res@[i].from) <= scan_idx(res@[j].from),
        res@ == basic_moves_seq(*board, turn),
{
    let mut res: Vec<Move> = Vec::new();
    let mut rank: usize = 0;
    while rank < 8
        invariant
            board_wf(*board),
            rank <= 8,
            forall|m: Move|
                res@.contains(m) <==> basic_move_scanned(*board, turn, rank as int * 8, m),
            forall|i: int, j: int|
                0 <= i <= j < res@.len() ==> scan_idx(res@[i].from) <= scan_idx(res@[j].from),
            res@ == basic_moves_upto(*board, turn, rank as int * 8),
        decreases 8 - rank,
    {
        let mut file: usize = 0;
        while file < 8
            invariant
                board_wf(*board),
                rank < 8,
                file <= 8,
                forall|m: Move|
                    res@.contains(m) <==> basic_move_scanned(
                        *board,
                        turn,
                        rank as int * 8 + file as int,
                        m,
                    ),
                forall|i: int, j: int|
                    0 <= i <= j < res@.len() ==> scan_idx(res@[i].from) <= scan_idx(res@[j].from),
                res@ == basic_moves_upto(*board, turn, rank as int * 8 + file as int),
            decreases 8 - file,
        {
            let pos = Square { file, rank };
            let ghost res_before = res@;
            let ghost n: int = rank as int * 8 + file as int;
            proof {
                assert(scan_idx(pos) == n);
                let rr = rank as int;
                let ff = file as int;
                assert(n / 8 == rr && n % 8 == ff) by (nonlinear_arith)
                    requires
                        0 <= rr < 8,
                        0 <= ff < 8,
                        n == rr * 8 + ff,
                ;
                assert(Square { file: (n % 8) as usize, rank: (n / 8) as usize } == pos);
                assert(basic_moves_upto(*board, turn, n + 1) == basic_moves_upto(*board, turn, n)
                    + square_moves_seq(*board, turn, pos));
            }
            if board[rank][file].color == turn {
                match board[rank][file].piece {
                    PieceType::Rook => {
                        let mut v = find_rook_legal_moves(board, pos, turn);
                        let ghost v0 = v@;
                        res.append(&mut v);
                        proof {
                            lemma_scan_extend(*board, turn, pos, res_before, v0, res@);
                            assert(square_moves_seq(*board, turn, pos) == rook_moves_seq(
                                *board,
                                turn,
                                pos,
                            ));
                        }
                    },
                    PieceType::Bishop => {
                        let mut v = find_bishop_legal_moves(board, pos, turn);
                        let ghost v0 = v@;
                        res.append(&mut v);
                        proof {
                            lemma_scan_extend(*board, turn, pos, res_before, v0, res@);
                            assert(square_moves_seq(*board, turn, pos) == bishop_moves_seq(
                                *board,
                                turn,
                                pos,
                            ));
                        }
                    },
                    PieceType::Queen => {
                        let mut v = find_queen_legal_moves(board, pos, turn);
                        let ghost v0 = v@;
                        res.append(&mut v);
                        proof {
                            lemma_scan_extend(*board, turn, pos, res_before, v0, res@);
                            assert(square_moves_seq(*board, turn, pos) == queen_moves_seq(
                                *board,
                                turn,
                                pos,
                            ));
                        }
                    },
                    PieceType::Knight => {
                        let mut v = find_knight_legal_moves(board, pos, turn);
                        let ghost v0 = v@;
                        res.append(&mut v);
                        proof {
                            lemma_scan_extend(*board, turn, pos, res_before, v0, res@);
                            assert(square_moves_seq(*board, turn, pos) == knight_moves_seq(
                                *board,
                                turn,
                                pos,
                            ));
                        }
                    },
                    PieceType::King => {
                        let mut v = find_king_legal_moves(board, pos, turn);
                        let ghost v0 = v@;
                        res.append(&mut v);
                        proof {
                            lemma_scan_extend(*board, turn, pos, res_before, v0, res@);
                            assert(square_moves_seq(*board, turn, pos) == king_moves_seq(
                                *board,
                                turn,
                                pos,
                            ));
                        }
                    },
                    PieceType::Pawn => {
                        let mut v = find_pawn_legal_moves(board, pos, turn);
                        let ghost v0 = v@;
                        res.append(&mut v);
                        proof {
                            lemma_scan_extend(*board, turn, pos, res_before, v0, res@);
                            assert(square_moves_seq(*board, turn, pos) == pawn_moves_seq(
                                *board,
                                turn,
                                pos,
                            ));
                        }
                    },
                    PieceType::Null => {
                        proof {
                            lemma_scan_skip(*board, turn, pos, res@);
                            assert(square_moves_seq(*board, turn, pos) == Seq::<Move>::empty());
                            assert(res@ + Seq::<Move>::empty() =~= res@);
                        }
                    },
                }
            } else {
                proof {
                    lemma_scan_skip(*board, turn, pos, res@);
                    assert(square_moves_seq(*board, turn, pos) == Seq::<Move>::empty());
                    assert(res@ + Seq::<Move>::empty() =~= res@);
                }
            }
            file = file + 1;
        }
        rank = rank + 1;
    }
    proof {
        assert forall|m: Move|
            res@.contains(m) <==> basic_move_ok(*board, turn, m) by {
            if basic_move_ok(*board, turn, m) {
                assert(scan_idx(m.from) < 64);
            }
        }
    }
    res
}

// ---------------------------------------------------------------------------
// Ray walking
// ---------------------------------------------------------------------------
/// The eight directions a sliding piece can walk.
#[derive(Debug, Clone, Copy, PartialEq, Eq, Structural)]
pub(crate) enum Direction {
    Right,
    Left,
    Up,
    Down,
    UpRight,
    UpLeft,
    DownRight,
    DownLeft,
}

pub(crate) open spec fn dir_df(d: Direction) -> int {
    match d {
        Direction::Right => 1,
        Direction::Left => -1,
        Direction::Up => 0,
        Direction::Down => 0,
        Direction::UpRight => 1,
        Direction::UpLeft => -1,
        Direction::DownRight => 1,
        Direction::DownLeft => -1,
    }
}

pub(crate) open spec fn dir_dr(d: Direction) -> int {
    match d {
        Direction::Right => 0,
        Direction::Left => 0,
        Direction::Up => 1,
        Direction::Down => -1,
        Direction::UpRight => 1,
        Direction::UpLeft => 1,
        Direction::DownRight => -1,
        Direction::DownLeft => -1,
    }
}

/// One step from `s` in the given direction, through the primitive
/// single-step coordinate functions.
fn step_in_direction(s: Square, direction: Direction) -> (r: Result<Square, ()>)
    requires
        in_bounds(s),
    ensures
        can_shift(s, dir_df(direction), dir_dr(direction)) ==> r == Ok::<Square, ()>(
            shifted(s, dir_df(direction), dir_dr(direction)),
        ),
        !can_shift(s, dir_df(direction), dir_dr(direction)) ==> r == Err::<Square, ()>(()),
{
    match direction {
        Direction::Right => move_right(s),
        Direction::Left => move_left(s),
        Direction::Up => move_up(s),
        Direction::Down => move_down(s),
        Direction::UpRight => move_up_right(s),
        Direction::UpLeft => move_up_left(s),
        Direction::DownRight => move_down_right(s),
        Direction::DownLeft => move_down_left(s),
    }
}

/// The moves a walk of at most `kmax` steps has produced so far: every move
/// from `pos` to a ray point between one and `kmax` steps out.
pub(crate) open spec fn ray_move_upto(
    b: Board,
    pos: Square,
    df: int,
    dr: int,
    kmax: int,
    m: Move,
) -> bool {
    &&& move_shape(b, pos, m)
    &&& m.special_move is None
    &&& exists|j: int| 1 <= j <= kmax && #[trigger] on_ray(pos, m.to, df, dr, j)
}

/// Walks one ray from `position`: an empty destination is recorded and the
/// walk continues, an enemy-occupied destination is recorded and the walk
/// stops, a friendly-occupied destination stops the walk before recording
/// it.
fn find_moves_in_direction(
    board: &Board,
    position: Square,
    color: Color,
    direction: Direction,
) -> (res: Vec<Move>)
    requires
        in_bounds(position),
        color != Color::Null,
    ensures
        forall|m: Move|
            res@.contains(m) <==> slide_moves_at_dir(
                *board,
                color,
                position,
                dir_df(direction),
                dir_dr(direction),
                m,
            ),
        res@ == ray_moves_from(*board, color, position, dir_df(direction), dir_dr(direction), 1),
{
    let ghost df: int = dir_df(direction);
    let ghost dr: int = dir_dr(direction);
    let piece = board[position.rank][position.file];
    let mut res: Vec<Move> = Vec::new();
    let mut pos = position;
    let ghost mut k: int = 0;
    loop
        invariant_except_break
            forall|m: Move| res@.contains(m) <==> ray_move_upto(*board, position, df, dr, k, m),
            ray_moves_from(*board, color, position, df, dr, 1) == res@ + ray_moves_from(
                *board,
                color,
                position,
                df,
                dr,
                k + 1,
            ),
        invariant
            in_bounds(position),
            in_bounds(pos),
            color != Color::Null,
            df == dir_df(direction),
            dr == dir_dr(direction),
            piece == cell_at(*board, position),
            0 <= k <= 7,
            on_ray(position, pos, df, dr, k),
            ray_clear(*board, position, df, dr, k + 1),
        ensures
            forall|m: Move|
                res@.contains(m) <==> slide_moves_at_dir(*board, color, position, df, dr, m),
            res@ == ray_moves_from(*board, color, position, df, dr, 1),
        decreases 8 - k,
    {
        proof {
            assert(!(df == 0 && dr == 0));
            assert((k + 1) * df == k * df + df) by (nonlinear_arith);
            assert((k + 1) * dr == k * dr + dr) by (nonlinear_arith);
        }
        match step_in_direction(pos, direction) {
            Err(_) => {
                proof {
                    assert forall|m: Move|
                        slide_moves_at_dir(*board, color, position, df, dr, m) implies res@.contains(
                        m,
                    ) by {
                        let kk = choose|kk: int|
                            1 <= kk && #[trigger] on_ray(position, m.to, df, dr, kk) && in_bounds(
                                m.to,
                            ) && ray_clear(*board, position, df, dr, kk) && cell_at(
                                *board,
                                m.to,
                            ).color != color;
                        if kk > k {
                            lemma_ray_in_bounds(position, df, dr, k + 1, kk);
                            assert(can_shift(pos, df, dr));
                            assert(false);
                        }
                    }
                    assert forall|m: Move|
                        res@.contains(m) implies slide_moves_at_dir(
                        *board,
                        color,
                        position,
                        df,
                        dr,
                        m,
                    ) by {
                        let j = choose|j: int| 1 <= j <= k && #[trigger] on_ray(
                            position,
                            m.to,
                            df,
                            dr,
                            j,
                        );
                        lemma_ray_in_bounds(position, df, dr, j, k);
                        assert(cell_at(*board, m.to) == ray_cell(*board, position, df, dr, j));
                        assert(in_bounds(m.to));
                    }
                    assert(ray_moves_from(*board, color, position, df, dr, k + 1)
                        == Seq::<Move>::empty());
                    assert(res@ + Seq::<Move>::empty() =~= res@);
                }
                break;
            }
            Ok(to_pos) => {
                proof {
                    assert(on_ray(position, to_pos, df, dr, k + 1));
                    assert(cell_at(*board, to_pos) == ray_cell(*board, position, df, dr, k + 1));
                    lemma_ray_len_bound(position, to_pos, df, dr, k + 1);
                    assert(Square {
                        file: (position.file + (k + 1) * df) as usize,
                        rank: (position.rank + (k + 1) * dr) as usize,
                    } == to_pos);
                }
                let move_under_consideration = Move {
                    from: position,
                    to: to_pos,
                    piece,
                    special_move: None,
                };
                let ghost res0 = res@;
                if board[to_pos.rank][to_pos.file].color == Color::Null {
                    res.push(move_under_consideration);
                    proof {
                        assert forall|m: Move|
                            res@.contains(m) <==> ray_move_upto(
                                *board,
                                position,
                                df,
                                dr,
                                k + 1,
                                m,
                            ) by {
                            lemma_contains_push(res0, move_under_consideration, m);
                            if res0.contains(m) {
                                assert(ray_move_upto(*board, position, df, dr, k, m));
                                let j0 = choose|j0: int| 1 <= j0 <= k && #[trigger] on_ray(
                                    position,
                                    m.to,
                                    df,
                                    dr,
                                    j0,
                                );
                                assert(1 <= j0 <= k + 1 && on_ray(position, m.to, df, dr, j0));
                            }
                            if m == move_under_consideration {
                                assert(on_ray(position, m.to, df, dr, k + 1));
                            }
                            if ray_move_upto(*board, position, df, dr, k + 1, m) {
                                let j = choose|j: int| 1 <= j <= k + 1 && #[trigger] on_ray(
                                    position,
                                    m.to,
                                    df,
                                    dr,
                                    j,
                                );
                                if j == k + 1 {
                                    assert(m.to == to_pos);
                                    assert(m == move_under_consideration);
                                } else {
                                    assert(ray_move_upto(*board, position, df, dr, k, m));
                                }
                            }
                        }
                        assert(ray_moves_from(*board, color, position, df, dr, k + 1) == seq![
                            move_under_consideration,
                        ] + ray_moves_from(*board, color, position, df, dr, k + 2));
                        assert(res0 + (seq![move_under_consideration] + ray_moves_from(
                            *board,
                            color,
                            position,
                            df,
                            dr,
                            k + 2,
                        )) =~= res@ + ray_moves_from(*board, color, position, df, dr, k + 2));
                        k = k + 1;
                    }
                    pos = to_pos;
                } else if board[to_pos.rank][to_pos.file].color != color {
                    res.push(move_under_consideration);
                    proof {
                        assert forall|m: Move|
                            res@.contains(m) <==> slide_moves_at_dir(
                                *board,
                                color,
                                position,
                                df,
                                dr,
                                m,
                            ) by {
                            lemma_contains_push(res0, move_under_consideration, m);
                            if res0.contains(m) {
                                let j = choose|j: int| 1 <= j <= k && #[trigger] on_ray(
                                    position,
                                    m.to,
                                    df,
                                    dr,
                                    j,
                                );
                                lemma_ray_in_bounds(position, df, dr, j, k);
                                assert(cell_at(*board, m.to) == ray_cell(
                                    *board,
                                    position,
                                    df,
                                    dr,
                                    j,
                                ));
                                assert(in_bounds(m.to));
                            }
                            if m == move_under_consideration {
                                assert(on_ray(position, m.to, df, dr, k + 1));
                            }
                            if slide_moves_at_dir(*board, color, position, df, dr, m)
                                && !res0.contains(m) {
                                let kk = choose|kk: int|
                                    1 <= kk && #[trigger] on_ray(position, m.to, df, dr, kk)
                                        && in_bounds(m.to) && ray_clear(*board, position, df, dr, kk)
                                        && cell_at(*board, m.to).color != color;
                                if kk > k + 1 {
                                    assert(ray_cell(*board, position, df, dr, k + 1).color
                                        == Color::Null);
                                    assert(false);
                                }
                                if kk == k + 1 {
                                    assert(m.to == to_pos);
                                    assert(m == move_under_consideration);
                                }
                            }
                        }
                        assert(ray_moves_from(*board, color, position, df, dr, k + 1) == seq![
                            move_under_consideration,
                        ]);
                        assert(res0 + seq![move_under_consideration] =~= res@);
                    }
                    break;
                } else {
                    proof {
                        assert forall|m: Move|
                            res@.contains(m) <==> slide_moves_at_dir(
                                *board,
                                color,
                                position,
                                df,
                                dr,
                                m,
                            ) by {
                            if res@.contains(m) {
                                let j = choose|j: int| 1 <= j <= k && #[trigger] on_ray(
                                    position,
                                    m.to,
                                    df,
                                    dr,
                                    j,
                                );
                                lemma_ray_in_bounds(position, df, dr, j, k);
                                assert(cell_at(*board, m.to) == ray_cell(
                                    *board,
                                    position,
                                    df,
                                    dr,
                                    j,
                                ));
                                assert(in_bounds(m.to));
                            }
                            if slide_moves_at_dir(*board, color, position, df, dr, m) {
                                let kk = choose|kk: int|
                                    1 <= kk && #[trigger] on_ray(position, m.to, df, dr, kk)
                                        && in_bounds(m.to) && ray_clear(*board, position, df, dr, kk)
                                        && cell_at(*board, m.to).color != color;
                                if kk == k + 1 {
                                    assert(m.to == to_pos);
                                    assert(false);
                                }
                                if kk > k + 1 {
                                    assert(ray_cell(*board, position, df, dr, k + 1).color
                                        == Color::Null);
                                    assert(false);
                                }
                            }
                        }
                        assert(ray_moves_from(*board, color, position, df, dr, k + 1)
                            == Seq::<Move>::empty());
                        assert(res@ + Seq::<Move>::empty() =~= res@);
                    }
                    break;
                }
            }
        }
    }
    res
}

// ---------------------------------------------------------------------------
// Sliding pieces
// ---------------------------------------------------------------------------
fn find_rook_legal_moves(board: &Board, position: Square, color: Color) -> (res: Vec<Move>)
    requires
        in_bounds(position),
        color != Color::Null,
    ensures
        forall|m: Move| res@.contains(m) <==> rook_moves_at(*board, color, position, m),
        res@ == rook_moves_seq(*board, color, position),
{
    let mut res = find_moves_in_direction(board, position, color, Direction::Right);
    let ghost r1 = res@;
    let mut v = find_moves_in_direction(board, position, color, Direction::Left);
    let ghost r2 = v@;
    res.append(&mut v);
    let mut v = find_moves_in_direction(board, position, color, Direction::Up);
    let ghost r3 = v@;
    res.append(&mut v);
    let mut v = find_moves_in_direction(board, position, color, Direction::Down);
    let ghost r4 = v@;
    res.append(&mut v);
    proof {
        assert forall|m: Move|
            res@.contains(m) <==> rook_moves_at(*board, color, position, m) by {
            lemma_contains_add(r1 + r2 + r3, r4, m);
            lemma_contains_add(r1 + r2, r3, m);
            lemma_contains_add(r1, r2, m);
        }
    }
    res
}

fn find_bishop_legal_moves(board: &Board, position: Square, color: Color) -> (res: Vec<Move>)
    requires
        in_bounds(position),
        color != Color::Null,
    ensures
        forall|m: Move| res@.contains(m) <==> bishop_moves_at(*board, color, position, m),
        res@ == bishop_moves_seq(*board, color, position),
{
    let mut res = find_moves_in_direction(board, position, color, Direction::UpRight);
    let ghost r1 = res@;
    let mut v = find_moves_in_direction(board, position, color, Direction::UpLeft);
    let ghost r2 = v@;
    res.append(&mut v);
    let mut v = find_moves_in_direction(board, position, color, Direction::DownRight);
    let ghost r3 = v@;
    res.append(&mut v);
    let mut v = find_moves_in_direction(board, position, color, Direction::DownLeft);
    let ghost r4 = v@;
    res.append(&mut v);
    proof {
        assert forall|m: Move|
            res@.contains(m) <==> bishop_moves_at(*board, color, position, m) by {
            lemma_contains_add(r1 + r2 + r3, r4, m);
            lemma_contains_add(r1 + r2, r3, m);
            lemma_contains_add(r1, r2, m);
        }
    }
    res
}

fn find_queen_legal_moves(board: &Board, position: Square, color: Color) -> (res: Vec<Move>)
    requires
        in_bounds(position),
        color != Color::Null,
    ensures
        forall|m: Move| res@.contains(m) <==> queen_moves_at(*board, color, position, m),
        res@ == queen_moves_seq(*board, color, position),
{
    let mut res = find_rook_legal_moves(board, position, color);
    let ghost r1 = res@;
    let mut v = find_bishop_legal_moves(board, position, color);
    let ghost r2 = v@;
    res.append(&mut v);
    proof {
        assert forall|m: Move|
            res@.contains(m) <==> queen_moves_at(*board, color, position, m) by {
            lemma_contains_add(r1, r2, m);
        }
    }
    res
}

// ---------------------------------------------------------------------------
// Stepping pieces: knight and king
// ---------------------------------------------------------------------------
/// A single-step move from `pos` by the offset `(df, dr)`: on the board and
/// not onto a friendly piece.
pub(crate) open spec fn step_move_at(
    b: Board,
    c: Color,
    pos: Square,
    df: int,
    dr: int,
    m: Move,
) -> bool {
    &&& move_shape(b, pos, m)
    &&& m.special_move is None
    &&& can_shift(pos, df, dr)
    &&& m.to == shifted(pos, df, dr)
    &&& cell_at(b, m.to).color != c
}

/// The `i`-th of the eight knight offsets from `s`.
fn knight_step(s: Square, i: usize) -> (r: Result<Square, ()>)
    requires
        in_bounds(s),
        i < 8,
    ensures
        can_shift(s, knight_df(i as int), knight_dr(i as int)) ==> r == Ok::<Square, ()>(
            shifted(s, knight_df(i as int), knight_dr(i as int)),
        ),
        !can_shift(s, knight_df(i as int), knight_dr(i as int)) ==> r == Err::<Square, ()>(()),
{
    match i {
        0 => move_up_up_left(s),
        1 => move_up_left_left(s),
        2 => move_up_up_right(s),
        3 => move_up_right_right(s),
        4 => move_down_down_left(s),
        5 => move_down_left_left(s),
        6 => move_down_down_right(s),
        _ => move_down_right_right(s),
    }
}

pub(crate) open spec fn knight_move_upto(
    b: Board,
    c: Color,
    pos: Square,
    n: int,
    m: Move,
) -> bool {
    exists|j: int|
        0 <= j < n && #[trigger] step_move_at(b, c, pos, knight_df(j), knight_dr(j), m)
}

/// The eight knight offsets are exactly the squares satisfying
/// [`knight_jump`].
proof fn lemma_knight_enumeration(b: Board, c: Color, pos: Square, m: Move)
    requires
        in_bounds(pos),
    ensures
        knight_move_upto(b, c, pos, 8, m) <==> knight_moves_at(b, c, pos, m),
{
    if knight_moves_at(b, c, pos, m) {
        let df = m.to.file - pos.file;
        let dr = m.to.rank - pos.rank;
        if df == -1 && dr == 2 {
            assert(step_move_at(b, c, pos, knight_df(0), knight_dr(0), m));
        } else if df == -2 && dr == 1 {
            assert(step_move_at(b, c, pos, knight_df(1), knight_dr(1), m));
        } else if df == 1 && dr == 2 {
            assert(step_move_at(b, c, pos, knight_df(2), knight_dr(2), m));
        } else if df == 2 && dr == 1 {
            assert(step_move_at(b, c, pos, knight_df(3), knight_dr(3), m));
        } else if df == -1 && dr == -2 {
            assert(step_move_at(b, c, pos, knight_df(4), knight_dr(4), m));
        } else if df == -2 && dr == -1 {
            assert(step_move_at(b, c, pos, knight_df(5), knight_dr(5), m));
        } else if df == 1 && dr == -2 {
            assert(step_move_at(b, c, pos, knight_df(6), knight_dr(6), m));
        } else {
            assert(df == 2 && dr == -1);
            assert(step_move_at(b, c, pos, knight_df(7), knight_dr(7), m));
        }
    }
}

fn find_knight_legal_moves(board: &Board, position: Square, color: Color) -> (res: Vec<Move>)
    requires
        in_bounds(position),
        color != Color::Null,
    ensures
        forall|m: Move| res@.contains(m) <==> knight_moves_at(*board, color, position, m),
        res@ == knight_moves_seq(*board, color, position),
{
    let piece = board[position.rank][position.file];
    let mut res: Vec<Move> = Vec::new();
    let mut i: usize = 0;
    while i < 8
        invariant
            in_bounds(position),
            color != Color::Null,
            piece == cell_at(*board, position),
            i <= 8,
            forall|m: Move|
                res@.contains(m) <==> knight_move_upto(*board, color, position, i as int, m),
            res@ == knight_moves_upto(*board, color, position, i as int),
        decreases 8 - i,
    {
        let ghost res0 = res@;
        let ghost df = knight_df(i as int);
        let ghost dr = knight_dr(i as int);
        match knight_step(position, i) {
            Ok(to_pos) => {
                let move_under_consideration = Move {
                    from: position,
                    to: to_pos,
                    piece,
                    special_move: None,
                };
                if board[to_pos.rank][to_pos.file].color != color {
                    res.push(move_under_consideration);
                    proof {
                        assert forall|m: Move|
                            res@.contains(m) <==> knight_move_upto(
                                *board,
                                color,
                                position,
                                i + 1,
                                m,
                            ) by {
                            lemma_contains_push(res0, move_under_consideration, m);
                            if m == move_under_consideration {
                                assert(step_move_at(*board, color, position, df, dr, m));
                            }
                            if knight_move_upto(*board, color, position, i + 1, m) {
                                let j = choose|j: int|
                                    0 <= j < i + 1 && #[trigger] step_move_at(
                                        *board,
                                        color,
                                        position,
                                        knight_df(j),
                                        knight_dr(j),
                                        m,
                                    );
                                if j == i {
                                    assert(m.to == to_pos);
                                    assert(m == move_under_consideration);
                                } else {
                                    assert(knight_move_upto(*board, color, position, i as int, m));
                                }
                            }
                        }
                        assert(step_move_opt(*board, color, position, df, dr) == seq![
                            move_under_consideration,
                        ]);
                        assert(res0 + seq![move_under_consideration] =~= res@);
                    }
                } else {
                    proof {
                        assert forall|m: Move|
                            knight_move_upto(*board, color, position, i + 1, m) implies knight_move_upto(
                            *board,
                            color,
                            position,
                            i as int,
                            m,
                        ) by {
                            let j = choose|j: int|
                                0 <= j < i + 1 && #[trigger] step_move_at(
                                    *board,
                                    color,
                                    position,
                                    knight_df(j),
                                    knight_dr(j),
                                    m,
                                );
                            if j == i {
                                assert(m.to == to_pos);
                                assert(false);
                            }
                        }
                        assert(step_move_opt(*board, color, position, df, dr)
                            == Seq::<Move>::empty());
                        assert(res@ + Seq::<Move>::empty() =~= res@);
                    }
                }
            }
            Err(_) => {
                proof {
                    assert forall|m: Move|
                        knight_move_upto(*board, color, position, i + 1, m) implies knight_move_upto(
                        *board,
                        color,
                        position,
                        i as int,
                        m,
                    ) by {
                        let j = choose|j: int|
                            0 <= j < i + 1 && #[trigger] step_move_at(
                                *board,
                                color,
                                position,
                                knight_df(j),
                                knight_dr(j),
                                m,
                            );
                        if j == i {
                            assert(false);
                        }
                    }
                    assert(step_move_opt(*board, color, position, df, dr)
                        == Seq::<Move>::empty());
                    assert(res@ + Seq::<Move>::empty() =~= res@);
                }
            }
        }
        i = i + 1;
    }
    proof {
        assert forall|m: Move|
            res@.contains(m) <==> knight_moves_at(*board, color, position, m) by {
            lemma_knight_enumeration(*board, color, position, m);
        }
    }
    res
}

/// The `i`-th of the eight squares adjacent to `s`.
fn king_step(s: Square, i: usize) -> (r: Result<Square, ()>)
    requires
        in_bounds(s),
        i < 8,
    ensures
        can_shift(s, king_df(i as int), king_dr(i as int)) ==> r == Ok::<Square, ()>(
            shifted(s, king_df(i as int), king_dr(i as int)),
        ),
        !can_shift(s, king_df(i as int), king_dr(i as int)) ==> r == Err::<Square, ()>(()),
{
    match i {
        0 => move_up(s),
        1 => move_down(s),
        2 => move_left(s),
        3 => move_right(s),
        4 => move_up_right(s),
        5 => move_up_left(s),
        6 => move_down_right(s),
        _ => move_down_left(s),
    }
}

pub(crate) open spec fn king_move_upto(b: Board, c: Color, pos: Square, n: int, m: Move) -> bool {
    exists|j: int| 0 <= j < n && #[trigger] step_move_at(b, c, pos, king_df(j), king_dr(j), m)
}

/// The eight king offsets are exactly the squares satisfying
/// [`adjacent_step`].
proof fn lemma_king_enumeration(b: Board, c: Color, pos: Square, m: Move)
    requires
        in_bounds(pos),
    ensures
        king_move_upto(b, c, pos, 8, m) <==> king_moves_at(b, c, pos, m),
{
    if king_moves_at(b, c, pos, m) {
        let df = m.to.file - pos.file;
        let dr = m.to.rank - pos.rank;
        if df == 0 && dr == 1 {
            assert(step_move_at(b, c, pos, king_df(0), king_dr(0), m));
        } else if df == 0 && dr == -1 {
            assert(step_move_at(b, c, pos, king_df(1), king_dr(1), m));
        } else if df == -1 && dr == 0 {
            assert(step_move_at(b, c, pos, king_df(2), king_dr(2), m));
        } else if df == 1 && dr == 0 {
            assert(step_move_at(b, c, pos, king_df(3), king_dr(3), m));
        } else if df == 1 && dr == 1 {
            assert(step_move_at(b, c, pos, king_df(4), king_dr(4), m));
        } else if df == -1 && dr == 1 {
            assert(step_move_at(b, c, pos, king_df(5), king_dr(5), m));
        } else if df == 1 && dr == -1 {
            assert(step_move_at(b, c, pos, king_df(6), king_dr(6), m));
        } else {
            assert(df == -1 && dr == -1);
            assert(step_move_at(b, c, pos, king_df(7), king_dr(7), m));
        }
    }
}

fn find_king_legal_moves(board: &Board, position: Square, color: Color) -> (res: Vec<Move>)
    requires
        in_bounds(position),
        color != Color::Null,
    ensures
        forall|m: Move| res@.contains(m) <==> king_moves_at(*board, color, position, m),
        res@ == king_moves_seq(*board, color, position),
{
    let piece = board[position.rank][position.file];
    let mut res: Vec<Move> = Vec::new();
    let mut i: usize = 0;
    while i < 8
        invariant
            in_bounds(position),
            color != Color::Null,
            piece == cell_at(*board, position),
            i <= 8,
            forall|m: Move|
                res@.contains(m) <==> king_move_upto(*board, color, position, i as int, m),
            res@ == king_moves_upto(*board, color, position, i as int),
        decreases 8 - i,
    {
        let ghost res0 = res@;
        let ghost df = king_df(i as int);
        let ghost dr = king_dr(i as int);
        match king_step(position, i) {
            Ok(to_pos) => {
                let move_under_consideration = Move {
                    from: position,
                    to: to_pos,
                    piece,
                    special_move: None,
                };
                if board[to_pos.rank][to_pos.file].color != color {
                    res.push(move_under_consideration);
                    proof {
                        assert forall|m: Move|
                            res@.contains(m) <==> king_move_upto(
                                *board,
                                color,
                                position,
                                i + 1,
                                m,
                            ) by {
                            lemma_contains_push(res0, move_under_consideration, m);
                            if m == move_under_consideration {
                                assert(step_move_at(*board, color, position, df, dr, m));
                            }
                            if king_move_upto(*board, color, position, i + 1, m) {
                                let j = choose|j: int|
                                    0 <= j < i + 1 && #[trigger] step_move_at(
                                        *board,
                                        color,
                                        position,
                                        king_df(j),
                                        king_dr(j),
                                        m,
                                    );
                                if j == i {
                                    assert(m.to == to_pos);
                                    assert(m == move_under_consideration);
                                } else {
                                    assert(king_move_upto(*board, color, position, i as int, m));
                                }
                            }
                        }
                        assert(step_move_opt(*board, color, position, df, dr) == seq![
                            move_under_consideration,
                        ]);
                        assert(res0 + seq![move_under_consideration] =~= res@);
                    }
                } else {
                    proof {
                        assert forall|m: Move|
                            king_move_upto(*board, color, position, i + 1, m) implies king_move_upto(
                            *board,
                            color,
                            position,
                            i as int,
                            m,
                        ) by {
                            let j = choose|j: int|
                                0 <= j < i + 1 && #[trigger] step_move_at(
                                    *board,
                                    color,
                                    position,
                                    king_df(j),
                                    king_dr(j),
                                    m,
                                );
                            if j == i {
                                assert(m.to == to_pos);
                                assert(false);
                            }
                        }
                        assert(step_move_opt(*board, color, position, df, dr)
                            == Seq::<Move>::empty());
                        assert(res@ + Seq::<Move>::empty() =~= res@);
                    }
                }
            }
            Err(_) => {
                proof {
                    assert forall|m: Move|
                        king_move_upto(*board, color, position, i + 1, m) implies king_move_upto(
                        *board,
                        color,
                        position,
                        i as int,
                        m,
                    ) by {
                        let j = choose|j: int|
                            0 <= j < i + 1 && #[trigger] step_move_at(
                                *board,
                                color,
                                position,
                                king_df(j),
                                king_dr(j),
                                m,
                            );
                        if j == i {
                            assert(false);
                        }
                    }
                    assert(step_move_opt(*board, color, position, df, dr)
                        == Seq::<Move>::empty());
                    assert(res@ + Seq::<Move>::empty() =~= res@);
                }
            }
        }
        i = i + 1;
    }
    proof {
        assert forall|m: Move|
            res@.contains(m) <==> king_moves_at(*board, color, position, m) by {
            lemma_king_enumeration(*board, color, position, m);
        }
    }
    res
}

// ---------------------------------------------------------------------------
// Pawns
// ---------------------------------------------------------------------------
#[verifier::rlimit(100)]
fn find_pawn_legal_moves(board: &Board, position: Square, color: Color) -> (res: Vec<Move>)
    requires
        in_bounds(position),
        color != Color::Null,
    ensures
        forall|m: Move| res@.contains(m) <==> pawn_moves_at(*board, color, position, m),
        res@ == pawn_moves_seq(*board, color, position),
{
    let piece = board[position.rank][position.file];
    let mut res: Vec<Move> = Vec::new();
    if color == Color::White {
        let ghost res0 = res@;
        if let Ok(to_pos) = move_up(position) {
            let move_under_consideration = Move {
                from: position,
                to: to_pos,
                piece,
                special_move: if to_pos.rank == 7 {
                    Some(SpecialMoveType::Promote)
                } else {
                    None
                },
            };
            if board[to_pos.rank][to_pos.file].color == Color::Null {
                res.push(move_under_consideration);
            }
        }
        proof {
            let to1 = shifted(position, 0, 1);
            let mv1 = Move { from: position, to: to1, piece, special_move: white_pawn_tag(to1) };
            assert forall|m: Move|
                res@.contains(m) <==> (move_shape(*board, position, m) && wp_step(
                    *board,
                    position,
                    m,
                )) by {
                if in_bounds(to1) && cell_at(*board, to1).color == Color::Null {
                    assert(res@ == res0.push(mv1));
                    lemma_contains_push(res0, mv1, m);
                    if move_shape(*board, position, m) && wp_step(*board, position, m) {
                        assert(m == mv1);
                    }
                } else {
                    assert(res@ == res0);
                }
            }
            if in_bounds(to1) && cell_at(*board, to1).color == Color::Null {
                assert(wp_step_opt(*board, position) == seq![mv1]);
                assert(res0 + seq![mv1] =~= res@);
            } else {
                assert(wp_step_opt(*board, position) == Seq::<Move>::empty());
                assert(res0 + Seq::<Move>::empty() =~= res@);
            }
        }
        let ghost res1 = res@;
        if let Ok(to_pos) = move_up_up(position) {
            let move_under_consideration = Move {
                from: position,
                to: to_pos,
                piece,
                special_move: Some(SpecialMoveType::PawnLongMove),
            };
            if position.rank == 1 {
                if board[to_pos.rank][to_pos.file].color == Color::Null {
                    res.push(move_under_consideration);
                }
            }
        }
        proof {
            let to2 = shifted(position, 0, 2);
            let mv2 = Move {
                from: position,
                to: to2,
                piece,
                special_move: Some(SpecialMoveType::PawnLongMove),
            };
            assert forall|m: Move|
                res@.contains(m) <==> (move_shape(*board, position, m) && (wp_step(
                    *board,
                    position,
                    m,
                ) || wp_double(*board, position, m))) by {
                if position.rank == 1 && cell_at(*board, to2).color == Color::Null {
                    assert(res@ == res1.push(mv2));
                    lemma_contains_push(res1, mv2, m);
                    if move_shape(*board, position, m) && wp_double(*board, position, m) {
                        assert(m == mv2);
                    }
                } else {
                    assert(res@ == res1);
                }
            }
            if position.rank == 1 && cell_at(*board, to2).color == Color::Null {
                assert(wp_double_opt(*board, position) == seq![mv2]);
                assert(res1 + seq![mv2] =~= res@);
            } else {
                assert(wp_double_opt(*board, position) == Seq::<Move>::empty());
                assert(res1 + Seq::<Move>::empty() =~= res@);
            }
        }
        let ghost res2 = res@;
        if let Ok(to_pos) = move_up_left(position) {
            let move_under_consideration = Move {
                from: position,
                to: to_pos,
                piece,
                special_move: if to_pos.rank == 7 {
                    Some(SpecialMoveType::Promote)
                } else {
                    None
                },
            };
            if board[to_pos.rank][to_pos.file].color == Color::Black {
                res.push(move_under_consideration);
            }
        }
        proof {
            let to3 = shifted(position, -1, 1);
            let mv3 = Move { from: position, to: to3, piece, special_move: white_pawn_tag(to3) };
            assert forall|m: Move|
                res@.contains(m) <==> (move_shape(*board, position, m) && (wp_step(
                    *board,
                    position,
                    m,
                ) || wp_double(*board, position, m) || wp_capture_left(*board, position, m))) by {
                if position.file >= 1 && in_bounds(to3) && cell_at(*board, to3).color
                    == Color::Black {
                    assert(res@ == res2.push(mv3));
                    lemma_contains_push(res2, mv3, m);
                    if move_shape(*board, position, m) && wp_capture_left(*board, position, m) {
                        assert(m == mv3);
                    }
                } else {
                    assert(res@ == res2);
                }
            }
            if position.file >= 1 && in_bounds(to3) && cell_at(*board, to3).color == Color::Black {
                assert(wp_capture_left_opt(*board, position) == seq![mv3]);
                assert(res2 + seq![mv3] =~= res@);
            } else {
                assert(wp_capture_left_opt(*board, position) == Seq::<Move>::empty());
                assert(res2 + Seq::<Move>::empty() =~= res@);
            }
        }
        let ghost res3 = res@;
        if let Ok(to_pos) = move_up_right(position) {
            let move_under_consideration = Move {
                from: position,
                to: to_pos,
                piece,
                special_move: if to_pos.rank == 7 {
                    Some(SpecialMoveType::Promote)
                } else {
                    None
                },
            };
            if board[to_pos.rank][to_pos.file].color == Color::Black {
                res.push(move_under_consideration);
            }
        }
        proof {
            let to4 = shifted(position, 1, 1);
            let mv4 = Move { from: position, to: to4, piece, special_move: white_pawn_tag(to4) };
            assert forall|m: Move|
                res@.contains(m) <==> white_pawn_moves_at(*board, position, m) by {
                if position.file < 7 && in_bounds(to4) && cell_at(*board, to4).color
                    == Color::Black {
                    assert(res@ == res3.push(mv4));
                    lemma_contains_push(res3, mv4, m);
                    if move_shape(*board, position, m) && wp_capture_right(*board, position, m) {
                        assert(m == mv4);
                    }
                } else {
                    assert(res@ == res3);
                }
            }
            if position.file < 7 && in_bounds(to4) && cell_at(*board, to4).color == Color::Black {
                assert(wp_capture_right_opt(*board, position) == seq![mv4]);
                assert(res3 + seq![mv4] =~= res@);
            } else {
                assert(wp_capture_right_opt(*board, position) == Seq::<Move>::empty());
                assert(res3 + Seq::<Move>::empty() =~= res@);
            }
        }
        proof {
            assert(res0 =~= Seq::<Move>::empty());
            assert(Seq::<Move>::empty() + wp_step_opt(*board, position) =~= wp_step_opt(
                *board,
                position,
            ));
            assert(res@ =~= white_pawn_moves_seq(*board, position));
        }
    } else if color == Color::Black {
        let ghost res0 = res@;
        if let Ok(to_pos) = move_down(position) {
            let move_under_consideration = Move {
                from: position,
                to: to_pos,
                piece,
                special_move: if to_pos.rank == 0 {
                    Some(SpecialMoveType::Promote)
                } else {
                    None
                },
            };
            if board[to_pos.rank][to_pos.file].color == Color::Null {
                res.push(move_under_consideration);
            }
        }
        proof {
            let to1 = shifted(position, 0, -1);
            let mv1 = Move { from: position, to: to1, piece, special_move: black_pawn_tag(to1) };
            assert forall|m: Move|
                res@.contains(m) <==> (move_shape(*board, position, m) && bp_step(
                    *board,
                    position,
                    m,
                )) by {
                if position.rank >= 1 && cell_at(*board, to1).color == Color::Null {
                    assert(res@ == res0.push(mv1));
                    lemma_contains_push(res0, mv1, m);
                    if move_shape(*board, position, m) && bp_step(*board, position, m) {
                        assert(m == mv1);
                    }
                } else {
                    assert(res@ == res0);
                }
            }
            if position.rank >= 1 && cell_at(*board, to1).color == Color::Null {
                assert(bp_step_opt(*board, position) == seq![mv1]);
                assert(res0 + seq![mv1] =~= res@);
            } else {
                assert(bp_step_opt(*board, position) == Seq::<Move>::empty());
                assert(res0 + Seq::<Move>::empty() =~= res@);
            }
        }
        let ghost res1 = res@;
        if let Ok(to_pos) = move_down_down(position) {
            let move_under_consideration = Move {
                from: position,
                to: to_pos,
                piece,
                special_move: Some(SpecialMoveType::PawnLongMove),
            };
            if position.rank == 6 {
                if board[to_pos.rank][to_pos.file].color == Color::Null {
                    res.push(move_under_consideration);
                }
            }
        }
        proof {
            let to2 = shifted(position, 0, -2);
            let mv2 = Move {
                from: position,
                to: to2,
                piece,
                special_move: Some(SpecialMoveType::PawnLongMove),
            };
            assert forall|m: Move|
                res@.contains(m) <==> (move_shape(*board, position, m) && (bp_step(
                    *board,
                    position,
                    m,
                ) || bp_double(*board, position, m))) by {
                if position.rank == 6 && cell_at(*board, to2).color == Color::Null {
                    assert(res@ == res1.push(mv2));
                    lemma_contains_push(res1, mv2, m);
                    if move_shape(*board, position, m) && bp_double(*board, position, m) {
                        assert(m == mv2);
                    }
                } else {
                    assert(res@ == res1);
                }
            }
            if position.rank == 6 && cell_at(*board, to2).color == Color::Null {
                assert(bp_double_opt(*board, position) == seq![mv2]);
                assert(res1 + seq![mv2] =~= res@);
            } else {
                assert(bp_double_opt(*board, position) == Seq::<Move>::empty());
                assert(res1 + Seq::<Move>::empty() =~= res@);
            }
        }
        let ghost res2 = res@;
        if let Ok(to_pos) = move_down_left(position) {
            let move_under_consideration = Move {
                from: position,
                to: to_pos,
                piece,
                special_move: if to_pos.rank == 0 {
                    Some(SpecialMoveType::Promote)
                } else {
                    None
                },
            };
            if board[to_pos.rank][to_pos.file].color == Color::White {
                res.push(move_under_consideration);
            }
        }
        proof {
            let to3 = shifted(position, -1, -1);
            let mv3 = Move { from: position, to: to3, piece, special_move: black_pawn_tag(to3) };
            assert forall|m: Move|
                res@.contains(m) <==> (move_shape(*board, position, m) && (bp_step(
                    *board,
                    position,
                    m,
                ) || bp_double(*board, position, m) || bp_capture_left(*board, position, m))) by {
                if position.file >= 1 && position.rank >= 1 && cell_at(*board, to3).color
                    == Color::White {
                    assert(res@ == res2.push(mv3));
                    lemma_contains_push(res2, mv3, m);
                    if move_shape(*board, position, m) && bp_capture_left(*board, position, m) {
                        assert(m == mv3);
                    }
                } else {
                    assert(res@ == res2);
                }
            }
            if position.file >= 1 && position.rank >= 1 && cell_at(*board, to3).color == Color::White {
                assert(bp_capture_left_opt(*board, position) == seq![mv3]);
                assert(res2 + seq![mv3] =~= res@);
            } else {
                assert(bp_capture_left_opt(*board, position) == Seq::<Move>::empty());
                assert(res2 + Seq::<Move>::empty() =~= res@);
            }
        }
        let ghost res3 = res@;
        if let Ok(to_pos) = move_down_right(position) {
            let move_under_consideration = Move {
                from: position,
                to: to_pos,
                piece,
                special_move: if to_pos.rank == 0 {
                    Some(SpecialMoveType::Promote)
                } else {
                    None
                },
            };
            if board[to_pos.rank][to_pos.file].color == Color::White {
                res.push(move_under_consideration);
            }
        }
        proof {
            let to4 = shifted(position, 1, -1);
            let mv4 = Move { from: position, to: to4, piece, special_move: black_pawn_tag(to4) };
            assert forall|m: Move|
                res@.contains(m) <==> black_pawn_moves_at(*board, position, m) by {
                if position.file < 7 && position.rank >= 1 && cell_at(*board, to4).color
                    == Color::White {
                    assert(res@ == res3.push(mv4));
                    lemma_contains_push(res3, mv4, m);
                    if move_shape(*board, position, m) && bp_capture_right(*board, position, m) {
                        assert(m == mv4);
                    }
                } else {
                    assert(res@ == res3);
                }
            }
            if position.file < 7 && position.rank >= 1 && cell_at(*board, to4).color == Color::White {
                assert(bp_capture_right_opt(*board, position) == seq![mv4]);
                assert(res3 + seq![mv4] =~= res@);
            } else {
                assert(bp_capture_right_opt(*board, position) == Seq::<Move>::empty());
                assert(res3 + Seq::<Move>::empty() =~= res@);
            }
        }
        proof {
            assert(res0 =~= Seq::<Move>::empty());
            assert(Seq::<Move>::empty() + bp_step_opt(*board, position) =~= bp_step_opt(
                *board,
                position,
            ));
            assert(res@ =~= black_pawn_moves_seq(*board, position));
        }
    }
    res
}

// ---------------------------------------------------------------------------
// The check-safety filter
// ---------------------------------------------------------------------------
/// Scans the whole board for `turn`'s king (keeping the last cell found, the
/// off-board sentinel if there is none) and tests whether any pseudo-legal
/// move of the opposite side lands on it.
pub(crate) fn king_capturable(board: &Board, turn: Color) -> (r: bool)
    requires
        board_wf(*board),
    ensures
        r == attacked(*board, opposite(turn), king_square(*board, turn)),
{
    let fake_turn = if turn == Color::White {
        Color::Black
    } else {
        Color::White
    };
    let fake_legal_moves = find_basic_legal_moves(board, fake_turn);
    let mut king_position = Square { rank: 8, file: 8 };
    let mut i: usize = 0;
    while i < 8
        invariant
            i <= 8,
            king_position == king_seek(*board, turn, i as int * 8),
        decreases 8 - i,
    {
        let mut j: usize = 0;
        while j < 8
            invariant
                i < 8,
                j <= 8,
                king_position == king_seek(*board, turn, i as int * 8 + j as int),
            decreases 8 - j,
        {
            let piece = board[i][j];
            proof {
                let ii = i as int;
                let jj = j as int;
                assert((ii * 8 + jj) / 8 == ii && (ii * 8 + jj) % 8 == jj) by (nonlinear_arith)
                    requires
                        0 <= ii < 8,
                        0 <= jj < 8,
                ;
            }
            if piece.piece == PieceType::King && piece.color == turn {
                king_position = Square { rank: i, file: j };
            }
            j = j + 1;
        }
        i = i + 1;
    }
    let mut idx: usize = 0;
    while idx < fake_legal_moves.len()
        invariant
            king_position == king_square(*board, turn),
            fake_turn == opposite(turn),
            idx <= fake_legal_moves@.len(),
            forall|m: Move| fake_legal_moves@.contains(m) <==> basic_move_ok(*board, fake_turn, m),
            forall|t: int| 0 <= t < idx ==> (#[trigger] fake_legal_moves@[t]).to != king_position,
        decreases fake_legal_moves@.len() - idx,
    {
        if fake_legal_moves[idx].to == king_position {
            proof {
                assert(fake_legal_moves@.contains(fake_legal_moves@[idx as int]));
            }
            return true;
        }
        idx = idx + 1;
    }
    proof {
        if attacked(*board, opposite(turn), king_square(*board, turn)) {
            let am = choose|am: Move|
                #[trigger] basic_move_ok(*board, opposite(turn), am) && am.to == king_square(
                    *board,
                    turn,
                );
            assert(fake_legal_moves@.contains(am));
            let t = choose|t: int|
                0 <= t < fake_legal_moves@.len() && fake_legal_moves@[t] == am;
            assert(false);
        }
    }
    false
}

/// Plays only the primary relocation of `m` on a scratch copy of the board
/// and reports whether `turn`'s king is then out of reach of every
/// pseudo-legal reply.
fn move_is_safe(board: &Board, turn: Color, m: Move) -> (r: bool)
    requires
        board_wf(*board),
        in_bounds(m.from),
        in_bounds(m.to),
    ensures
        r == move_safe(*board, turn, m),
{
    let mut fake_board: Board = *board;
    let mover = fake_board[m.from.rank][m.from.file];
    fake_board[m.from.rank][m.from.file] = Piece { piece: PieceType::Null, color: Color::Null };
    fake_board[m.to.rank][m.to.file] = mover;
    proof {
        assert(fake_board =~~= sim_board(*board, m));
        lemma_sim_board_wf(*board, m);
    }
    let capturable = king_capturable(&fake_board, turn);
    !capturable
}

/// One unfolding of `Seq::filter` at the pushed end.
proof fn lemma_filter_push<A>(s: Seq<A>, x: A, pred: spec_fn(A) -> bool)
    ensures
        s.push(x).filter(pred) == (if pred(x) {
            s.filter(pred).push(x)
        } else {
            s.filter(pred)
        }),
{
    reveal_with_fuel(Seq::filter, 2);
    assert(s.push(x).drop_last() =~= s);
    assert(s.push(x).last() == x);
}

/// Keeps exactly the candidates whose primary relocation leaves the mover's
/// own king safe; the order of the survivors is preserved.
pub fn remove_moves_leading_to_check(legal_moves: &mut Vec<Move>, board: &Board, turn: Color)
    requires
        board_wf(*board),
        forall|t: int|
            0 <= t < old(legal_moves)@.len() ==> in_bounds(
                (#[trigger] old(legal_moves)@[t]).from,
            ) && in_bounds(old(legal_moves)@[t].to),
    ensures
        final(legal_moves)@ == old(legal_moves)@.filter(safe_pred(*board, turn)),
{
    let mut kept: Vec<Move> = Vec::new();
    let n = legal_moves.len();
    let mut i: usize = 0;
    while i < n
        invariant
            board_wf(*board),
            *legal_moves == *old(legal_moves),
            n == legal_moves@.len(),
            i <= n,
            forall|t: int|
                0 <= t < legal_moves@.len() ==> in_bounds((#[trigger] legal_moves@[t]).from)
                    && in_bounds(legal_moves@[t].to),
            kept@ == legal_moves@.take(i as int).filter(safe_pred(*board, turn)),
        decreases n - i,
    {
        let m = legal_moves[i];
        let safe = move_is_safe(board, turn, m);
        if safe {
            kept.push(m);
        }
        proof {
            let s = legal_moves@.take(i as int);
            assert(legal_moves@.take(i as int + 1) =~= s.push(legal_moves@[i as int]));
            lemma_filter_push(s, legal_moves@[i as int], safe_pred(*board, turn));
        }
        i = i + 1;
    }
    proof {
        assert(legal_moves@.take(n as int) =~= legal_moves@);
    }
    *legal_moves = kept;
}

// ---------------------------------------------------------------------------
// En passant
// ---------------------------------------------------------------------------
/// Emits the en-passant captures available to `turn`: only the most recent
/// history entry is examined, and only a pawn double step enables the
/// capture.
pub fn find_en_passant_moves(
    board: &Board,
    turn: Color,
    move_history: &Vec<MoveHistoryEntry>,
) -> (res: Vec<Move>)
    requires
        ep_history_ok(turn, move_history@),
    ensures
        forall|m: Move| res@.contains(m) <==> ep_move_ok(*board, turn, move_history@, m),
        res@ == ep_moves_seq(*board, turn, move_history@),
{
    let mut res: Vec<Move> = Vec::new();
    if move_history.len() == 0 {
        return res;
    }
    let last_played_move = move_history[move_history.len() - 1].moveEntry;
    proof {
        assert(last_played_move == move_history@.last().moveEntry);
    }
    let is_double_step = match last_played_move.special_move {
        Some(SpecialMoveType::PawnLongMove) => true,
        _ => false,
    };
    if is_double_step {
        let ghost lt = last_played_move.to;
        if turn == Color::White {
            let ghost res0 = res@;
            if let Ok(pos) = move_right(last_played_move.to) {
                if board[pos.rank][pos.file].piece == PieceType::Pawn && board[pos.rank][pos.file].color
                    == Color::White {
                    if let Ok(to_pos) = move_up_left(pos) {
                        res.push(
                            Move {
                                from: pos,
                                to: to_pos,
                                piece: board[pos.rank][pos.file],
                                special_move: Some(SpecialMoveType::EnPassant),
                            },
                        );
                    }
                }
            }
            proof {
                let fr = ep_from_right(lt);
                let mvr = Move {
                    from: fr,
                    to: ep_target(turn, lt),
                    piece: cell_at(*board, fr),
                    special_move: Some(SpecialMoveType::EnPassant),
                };
                assert forall|m: Move|
                    res@.contains(m) <==> (lt.file < 7 && ep_capture_from(
                        *board,
                        turn,
                        lt,
                        fr,
                        m,
                    )) by {
                    if lt.file < 7 && cell_at(*board, fr).piece == PieceType::Pawn && cell_at(
                        *board,
                        fr,
                    ).color == Color::White {
                        assert(res@ == res0.push(mvr));
                        lemma_contains_push(res0, mvr, m);
                    } else {
                        assert(res@ == res0);
                    }
                }
                let rp = if lt.file < 7 {
                    ep_capture_opt(*board, turn, lt, fr)
                } else {
                    Seq::<Move>::empty()
                };
                if lt.file < 7 && cell_at(*board, fr).piece == PieceType::Pawn && cell_at(
                    *board,
                    fr,
                ).color == Color::White {
                    assert(rp == seq![mvr]);
                    assert(res0 + rp =~= res@);
                } else {
                    assert(rp =~= Seq::<Move>::empty());
                    assert(res0 + rp =~= res@);
                }
                assert(res@ == res0 + (if lt.file < 7 {
                    ep_capture_opt(*board, turn, lt, ep_from_right(lt))
                } else {
                    Seq::<Move>::empty()
                }));
            }
            let ghost res1 = res@;
            if let Ok(pos) = move_left(last_played_move.to) {
                if board[pos.rank][pos.file].piece == PieceType::Pawn && board[pos.rank][pos.file].color
                    == Color::White {
                    if let Ok(to_pos) = move_up_right(pos) {
                        res.push(
                            Move {
                                from: pos,
                                to: to_pos,
                                piece: board[pos.rank][pos.file],
                                special_move: Some(SpecialMoveType::EnPassant),
                            },
                        );
                    }
                }
            }
            proof {
                let fl = ep_from_left(lt);
                let mvl = Move {
                    from: fl,
                    to: ep_target(turn, lt),
                    piece: cell_at(*board, fl),
                    special_move: Some(SpecialMoveType::EnPassant),
                };
                assert forall|m: Move|
                    res@.contains(m) <==> ep_move_ok(*board, turn, move_history@, m) by {
                    if lt.file >= 1 && cell_at(*board, fl).piece == PieceType::Pawn && cell_at(
                        *board,
                        fl,
                    ).color == Color::White {
                        assert(res@ == res1.push(mvl));
                        lemma_contains_push(res1, mvl, m);
                    } else {
                        assert(res@ == res1);
                    }
                }
                let lp = if lt.file >= 1 {
                    ep_capture_opt(*board, turn, lt, fl)
                } else {
                    Seq::<Move>::empty()
                };
                if lt.file >= 1 && cell_at(*board, fl).piece == PieceType::Pawn && cell_at(
                    *board,
                    fl,
                ).color == Color::White {
                    assert(lp == seq![mvl]);
                    assert(res1 + lp =~= res@);
                } else {
                    assert(lp =~= Seq::<Move>::empty());
                    assert(res1 + lp =~= res@);
                }
                assert(res0 =~= Seq::<Move>::empty());
                assert(res@ =~= ep_moves_seq(*board, turn, move_history@));
            }
        } else if turn == Color::Black {
            let ghost res0 = res@;
            if let Ok(pos) = move_right(last_played_move.to) {
                if board[pos.rank][pos.file].piece == PieceType::Pawn && board[pos.rank][pos.file].color
                    == Color::Black {
                    if let Ok(to_pos) = move_down_left(pos) {
                        res.push(
                            Move {
                                from: pos,
                                to: to_pos,
                                piece: board[pos.rank][pos.file],
                                special_move: Some(SpecialMoveType::EnPassant),
                            },
                        );
                    }
                }
            }
            proof {
                let fr = ep_from_right(lt);
                let mvr = Move {
                    from: fr,
                    to: ep_target(turn, lt),
                    piece: cell_at(*board, fr),
                    special_move: Some(SpecialMoveType::EnPassant),
                };
                assert forall|m: Move|
                    res@.contains(m) <==> (lt.file < 7 && ep_capture_from(
                        *board,
                        turn,
                        lt,
                        fr,
                        m,
                    )) by {
                    if lt.file < 7 && cell_at(*board, fr).piece == PieceType::Pawn && cell_at(
                        *board,
                        fr,
                    ).color == Color::Black {
                        assert(res@ == res0.push(mvr));
                        lemma_contains_push(res0, mvr, m);
                    } else {
                        assert(res@ == res0);
                    }
                }
                let rp = if lt.file < 7 {
                    ep_capture_opt(*board, turn, lt, fr)
                } else {
                    Seq::<Move>::empty()
                };
                if lt.file < 7 && cell_at(*board, fr).piece == PieceType::Pawn && cell_at(
                    *board,
                    fr,
                ).color == Color::Black {
                    assert(rp == seq![mvr]);
                    assert(res0 + rp =~= res@);
                } else {
                    assert(rp =~= Seq::<Move>::empty());
                    assert(res0 + rp =~= res@);
                }
                assert(res@ == res0 + (if lt.file < 7 {
                    ep_capture_opt(*board, turn, lt, ep_from_right(lt))
                } else {
                    Seq::<Move>::empty()
                }));
            }
            let ghost res1 = res@;
            if let Ok(pos) = move_left(last_played_move.to) {
                if board[pos.rank][pos.file].piece == PieceType::Pawn && board[pos.rank][pos.file].color
                    == Color::Black {
                    if let Ok(to_pos) = move_down_right(pos) {
                        res.push(
                            Move {
                                from: pos,
                                to: to_pos,
                                piece: board[pos.rank][pos.file],
                                special_move: Some(SpecialMoveType::EnPassant),
                            },
                        );
                    }
                }
            }
            proof {
                let fl = ep_from_left(lt);
                let mvl = Move {
                    from: fl,
                    to: ep_target(turn, lt),
                    piece: cell_at(*board, fl),
                    special_move: Some(SpecialMoveType::EnPassant),
                };
                assert forall|m: Move|
                    res@.contains(m) <==> ep_move_ok(*board, turn, move_history@, m) by {
                    if lt.file >= 1 && cell_at(*board, fl).piece == PieceType::Pawn && cell_at(
                        *board,
                        fl,
                    ).color == Color::Black {
                        assert(res@ == res1.push(mvl));
                        lemma_contains_push(res1, mvl, m);
                    } else {
                        assert(res@ == res1);
                    }
                }
                let lp = if lt.file >= 1 {
                    ep_capture_opt(*board, turn, lt, fl)
                } else {
                    Seq::<Move>::empty()
                };
                if lt.file >= 1 && cell_at(*board, fl).piece == PieceType::Pawn && cell_at(
                    *board,
                    fl,
                ).color == Color::Black {
                    assert(lp == seq![mvl]);
                    assert(res1 + lp =~= res@);
                } else {
                    assert(lp =~= Seq::<Move>::empty());
                    assert(res1 + lp =~= res@);
                }
                assert(res0 =~= Seq::<Move>::empty());
                assert(res@ =~= ep_moves_seq(*board, turn, move_history@));
            }
        }
    }
    res
}

// ---------------------------------------------------------------------------
// Castling
// ---------------------------------------------------------------------------
/// Scans the history for an entry that spends the rights of side `c` for
/// the rook starting on `rook_home`; the first such entry settles the
/// answer.
fn castle_rights_intact(move_history: &Vec<MoveHistoryEntry>, c: Color, rook_home: Square) -> (r:
    bool)
    ensures
        r == history_keeps_castle_rights(move_history@, c, rook_home),
{
    let mut i: usize = 0;
    while i < move_history.len()
        invariant
            i <= move_history@.len(),
            forall|t: int|
                0 <= t < i ==> entry_keeps_rights(#[trigger] move_history@[t], c, rook_home),
        decreases move_history@.len() - i,
    {
        let hmove = move_history[i].moveEntry;
        proof {
            assert(hmove == move_history@[i as int].moveEntry);
        }
        if hmove.piece.piece == PieceType::King && hmove.piece.color == c {
            proof {
                assert(!entry_keeps_rights(move_history@[i as int], c, rook_home));
            }
            return false;
        }
        if hmove.piece.piece == PieceType::Rook && hmove.piece.color == c && hmove.from
            == rook_home {
            proof {
                assert(!entry_keeps_rights(move_history@[i as int], c, rook_home));
            }
            return false;
        }
        i = i + 1;
    }
    true
}

pub fn white_can_castle_long(board: &Board, move_history: &Vec<MoveHistoryEntry>) -> (r: bool)
    requires
        board_wf(*board),
    ensures
        r == can_castle_ok(*board, move_history@, Color::White, true),
{
    let king_on_home = board[0][4].piece == PieceType::King && board[0][4].color
        == Color::White;
    let king_rook_never_moved = castle_rights_intact(
        move_history,
        Color::White,
        Square { file: 0, rank: 0 },
    );
    let no_pieces_block_castle = board[0][1].piece == PieceType::Null && board[0][2].piece
        == PieceType::Null && board[0][3].piece == PieceType::Null;
    let safe_stay = move_is_safe(board, Color::White, king_path_move_exec(Color::White, 4));
    let safe_transit = move_is_safe(board, Color::White, king_path_move_exec(Color::White, 3));
    let safe_landing = move_is_safe(board, Color::White, king_path_move_exec(Color::White, 2));
    king_on_home && king_rook_never_moved && no_pieces_block_castle && safe_stay && safe_transit
        && safe_landing
}

pub fn white_can_castle_short(board: &Board, move_history: &Vec<MoveHistoryEntry>) -> (r: bool)
    requires
        board_wf(*board),
    ensures
        r == can_castle_ok(*board, move_history@, Color::White, false),
{
    let king_on_home = board[0][4].piece == PieceType::King && board[0][4].color
        == Color::White;
    let king_rook_never_moved = castle_rights_intact(
        move_history,
        Color::White,
        Square { file: 7, rank: 0 },
    );
    let no_pieces_block_castle = board[0][5].piece == PieceType::Null && board[0][6].piece
        == PieceType::Null;
    let safe_stay = move_is_safe(board, Color::White, king_path_move_exec(Color::White, 4));
    let safe_transit = move_is_safe(board, Color::White, king_path_move_exec(Color::White, 5));
    let safe_landing = move_is_safe(board, Color::White, king_path_move_exec(Color::White, 6));
    king_on_home && king_rook_never_moved && no_pieces_block_castle && safe_stay && safe_transit
        && safe_landing
}

pub fn black_can_castle_long(board: &Board, move_history: &Vec<MoveHistoryEntry>) -> (r: bool)
    requires
        board_wf(*board),
    ensures
        r == can_castle_ok(*board, move_history@, Color::Black, true),
{
    let king_on_home = board[7][4].piece == PieceType::King && board[7][4].color
        == Color::Black;
    let king_rook_never_moved = castle_rights_intact(
        move_history,
        Color::Black,
        Square { file: 0, rank: 7 },
    );
    let no_pieces_block_castle = board[7][1].piece == PieceType::Null && board[7][2].piece
        == PieceType::Null && board[7][3].piece == PieceType::Null;
    let safe_stay = move_is_safe(board, Color::Black, king_path_move_exec(Color::Black, 4));
    let safe_transit = move_is_safe(board, Color::Black, king_path_move_exec(Color::Black, 3));
    let safe_landing = move_is_safe(board, Color::Black, king_path_move_exec(Color::Black, 2));
    king_on_home && king_rook_never_moved && no_pieces_block_castle && safe_stay && safe_transit
        && safe_landing
}

pub fn black_can_castle_short(board: &Board, move_history: &Vec<MoveHistoryEntry>) -> (r: bool)
    requires
        board_wf(*board),
    ensures
        r == can_castle_ok(*board, move_history@, Color::Black, false),
{
    let king_on_home = board[7][4].piece == PieceType::King && board[7][4].color
        == Color::Black;
    let king_rook_never_moved = castle_rights_intact(
        move_history,
        Color::Black,
        Square { file: 7, rank: 7 },
    );
    let no_pieces_block_castle = board[7][5].piece == PieceType::Null && board[7][6].piece
        == PieceType::Null;
    let safe_stay = move_is_safe(board, Color::Black, king_path_move_exec(Color::Black, 4));
    let safe_transit = move_is_safe(board, Color::Black, king_path_move_exec(Color::Black, 5));
    let safe_landing = move_is_safe(board, Color::Black, king_path_move_exec(Color::Black, 6));
    king_on_home && king_rook_never_moved && no_pieces_block_castle && safe_stay && safe_transit
        && safe_landing
}

/// Builds one hypothetical king relocation along the castling path.
fn king_path_move_exec(c: Color, to_file: usize) -> (m: Move)
    ensures
        m == king_path_move(c, to_file),
{
    let home: usize = if c == Color::White {
        0
    } else {
        7
    };
    Move {
        from: Square { file: 4, rank: home },
        to: Square { file: to_file, rank: home },
        piece: Piece { piece: PieceType::King, color: c },
        special_move: None,
    }
}

/// Emits the castle moves the three castling conditions permit for `turn`.
pub fn find_castling_moves(
    board: &Board,
    turn: Color,
    move_history: &Vec<MoveHistoryEntry>,
) -> (res: Vec<Move>)
    requires
        board_wf(*board),
    ensures
        forall|m: Move| res@.contains(m) <==> castle_move_ok(*board, turn, move_history@, m),
        res@ == castle_moves_seq(*board, turn, move_history@),
{
    let mut res: Vec<Move> = Vec::new();
    let ghost res0 = res@;
    if white_can_castle_long(board, move_history) && turn == Color::White {
        res.push(
            Move {
                from: Square { file: 4, rank: 0 },
                to: Square { file: 2, rank: 0 },
                piece: Piece { piece: PieceType::King, color: Color::White },
                special_move: Some(SpecialMoveType::CastleLong),
            },
        );
    }
    proof {
        assert forall|m: Move|
            res@.contains(m) <==> (turn == Color::White && can_castle_ok(
                *board,
                move_history@,
                Color::White,
                true,
            ) && m == castle_move(Color::White, true)) by {
            if turn == Color::White && can_castle_ok(*board, move_history@, Color::White, true) {
                assert(res@ == res0.push(castle_move(Color::White, true)));
                lemma_contains_push(res0, castle_move(Color::White, true), m);
            } else {
                assert(res@ == res0);
            }
        }
            if turn == Color::White && can_castle_ok(*board, move_history@, Color::White, true) {
                assert(castle_opt(*board, turn, move_history@, Color::White, true) == seq![
                    castle_move(Color::White, true),
                ]);
                assert(res0 + seq![castle_move(Color::White, true)] =~= res@);
            } else {
                assert(castle_opt(*board, turn, move_history@, Color::White, true)
                    =~= Seq::<Move>::empty());
                assert(res0 + Seq::<Move>::empty() =~= res@);
            }
            assert(res@ == res0 + castle_opt(*board, turn, move_history@, Color::White, true));
    }
    let ghost res1 = res@;
    if white_can_castle_short(board, move_history) && turn == Color::White {
        res.push(
            Move {
                from: Square { file: 4, rank: 0 },
                to: Square { file: 6, rank: 0 },
                piece: Piece { piece: PieceType::King, color: Color::White },
                special_move: Some(SpecialMoveType::CastleShort),
            },
        );
    }
    proof {
        assert forall|m: Move|
            res@.contains(m) <==> ((turn == Color::White && can_castle_ok(
                *board,
                move_history@,
                Color::White,
                true,
            ) && m == castle_move(Color::White, true)) || (turn == Color::White && can_castle_ok(
                *board,
                move_history@,
                Color::White,
                false,
            ) && m == castle_move(Color::White, false))) by {
            if turn == Color::White && can_castle_ok(*board, move_history@, Color::White, false) {
                assert(res@ == res1.push(castle_move(Color::White, false)));
                lemma_contains_push(res1, castle_move(Color::White, false), m);
            } else {
                assert(res@ == res1);
            }
        }
            if turn == Color::White && can_castle_ok(*board, move_history@, Color::White, false) {
                assert(castle_opt(*board, turn, move_history@, Color::White, false) == seq![
                    castle_move(Color::White, false),
                ]);
                assert(res1 + seq![castle_move(Color::White, false)] =~= res@);
            } else {
                assert(castle_opt(*board, turn, move_history@, Color::White, false)
                    =~= Seq::<Move>::empty());
                assert(res1 + Seq::<Move>::empty() =~= res@);
            }
            assert(res@ == res1 + castle_opt(*board, turn, move_history@, Color::White, false));
    }
    let ghost res2 = res@;
    if black_can_castle_long(board, move_history) && turn == Color::Black {
        res.push(
            Move {
                from: Square { file: 4, rank: 7 },
                to: Square { file: 2, rank: 7 },
                piece: Piece { piece: PieceType::King, color: Color::Black },
                special_move: Some(SpecialMoveType::CastleLong),
            },
        );
    }
    proof {
        assert forall|m: Move|
            res@.contains(m) <==> (res2.contains(m) || (turn == Color::Black && can_castle_ok(
                *board,
                move_history@,
                Color::Black,
                true,
            ) && m == castle_move(Color::Black, true))) by {
            if turn == Color::Black && can_castle_ok(*board, move_history@, Color::Black, true) {
                assert(res@ == res2.push(castle_move(Color::Black, true)));
                lemma_contains_push(res2, castle_move(Color::Black, true), m);
            } else {
                assert(res@ == res2);
            }
        }
            if turn == Color::Black && can_castle_ok(*board, move_history@, Color::Black, true) {
                assert(castle_opt(*board, turn, move_history@, Color::Black, true) == seq![
                    castle_move(Color::Black, true),
                ]);
                assert(res2 + seq![castle_move(Color::Black, true)] =~= res@);
            } else {
                assert(castle_opt(*board, turn, move_history@, Color::Black, true)
                    =~= Seq::<Move>::empty());
                assert(res2 + Seq::<Move>::empty() =~= res@);
            }
            assert(res@ == res2 + castle_opt(*board, turn, move_history@, Color::Black, true));
    }
    let ghost res3 = res@;
    if black_can_castle_short(board, move_history) && turn == Color::Black {
        res.push(
            Move {
                from: Square { file: 4, rank: 7 },
                to: Square { file: 6, rank: 7 },
                piece: Piece { piece: PieceType::King, color: Color::Black },
                special_move: Some(SpecialMoveType::CastleShort),
            },
        );
    }
    proof {
        assert forall|m: Move|
            res@.contains(m) <==> castle_move_ok(*board, turn, move_history@, m) by {
            assert(res1.contains(m) <==> (turn == Color::White && can_castle_ok(
                *board,
                move_history@,
                Color::White,
                true,
            ) && m == castle_move(Color::White, true)));
            assert(res2.contains(m) <==> (res1.contains(m) || (turn == Color::White
                && can_castle_ok(*board, move_history@, Color::White, false) && m == castle_move(
                Color::White,
                false,
            ))));
            assert(res3.contains(m) <==> (res2.contains(m) || (turn == Color::Black
                && can_castle_ok(*board, move_history@, Color::Black, true) && m == castle_move(
                Color::Black,
                true,
            ))));
            if turn == Color::Black && can_castle_ok(*board, move_history@, Color::Black, false) {
                assert(res@ == res3.push(castle_move(Color::Black, false)));
                lemma_contains_push(res3, castle_move(Color::Black, false), m);
            } else {
                assert(res@ == res3);
            }
        }
            if turn == Color::Black && can_castle_ok(*board, move_history@, Color::Black, false) {
                assert(castle_opt(*board, turn, move_history@, Color::Black, false) == seq![
                    castle_move(Color::Black, false),
                ]);
                assert(res3 + seq![castle_move(Color::Black, false)] =~= res@);
            } else {
                assert(castle_opt(*board, turn, move_history@, Color::Black, false)
                    =~= Seq::<Move>::empty());
                assert(res3 + Seq::<Move>::empty() =~= res@);
            }
            assert(res@ == res3 + castle_opt(*board, turn, move_history@, Color::Black, false));
        assert(res0 =~= Seq::<Move>::empty());
        assert(res@ =~= castle_moves_seq(*board, turn, move_history@));
    }
    res
}

// ---------------------------------------------------------------------------
// The full generator
// ---------------------------------------------------------------------------
/// Enumerates the legal moves of side `turn`: the pseudo-legal moves in scan
/// order, then the en-passant captures, then the castles, with every move
/// whose primary relocation would leave `turn`'s own king capturable removed
/// last.
pub fn find_all_legal_moves(
    board: &Board,
    turn: Color,
    move_history: &Vec<MoveHistoryEntry>,
) -> (res: Vec<Move>)
    requires
        board_wf(*board),
        ep_history_ok(turn, move_history@),
    ensures
        forall|m: Move| res@.contains(m) <==> legal_move_ok(*board, turn, move_history@, m),
        res@ == legal_moves_seq(*board, turn, move_history@),
{
    let mut res = find_basic_legal_moves(board, turn);
    let ghost r1 = res@;
    let mut v = find_en_passant_moves(board, turn, move_history);
    let ghost r2 = v@;
    res.append(&mut v);
    let mut v2 = find_castling_moves(board, turn, move_history);
    let ghost r3 = v2@;
    res.append(&mut v2);
    let ghost union = res@;
    proof {
        assert(r1 + r2 + r3 =~= r1 + (r2 + r3));
        assert(union == basic_moves_seq(*board, turn) + ep_moves_seq(*board, turn, move_history@)
            + castle_moves_seq(*board, turn, move_history@));
        assert forall|m: Move|
            union.contains(m) <==> (basic_move_ok(*board, turn, m) || ep_move_ok(
                *board,
                turn,
                move_history@,
                m,
            ) || castle_move_ok(*board, turn, move_history@, m)) by {
            lemma_contains_add(r1 + r2, r3, m);
            lemma_contains_add(r1, r2, m);
        }
        assert forall|t: int|
            0 <= t < union.len() implies in_bounds((#[trigger] union[t]).from) && in_bounds(
            union[t].to,
        ) by {
            let m = union[t];
            assert(union.contains(m));
            if basic_move_ok(*board, turn, m) {
                lemma_basic_move_bounds(*board, turn, m);
            } else if ep_move_ok(*board, turn, move_history@, m) {
                lemma_ep_move_bounds(*board, turn, move_history@, m);
            }
        }
    }
    remove_moves_leading_to_check(&mut res, board, turn);
    proof {
        assert forall|m: Move|
            res@.contains(m) <==> legal_move_ok(*board, turn, move_history@, m) by {
            lemma_filter_contains_iff(union, safe_pred(*board, turn), m);
        }
        assert(res@ == legal_moves_seq(*board, turn, move_history@));
    }
    res
}

/// Membership in a filtered sequence: the element was there and satisfies
/// the predicate.
proof fn lemma_filter_contains_iff<A>(s: Seq<A>, pred: spec_fn(A) -> bool, x: A)
    ensures
        s.filter(pred).contains(x) <==> (s.contains(x) && pred(x)),
    decreases s.len(),
{
    reveal_with_fuel(Seq::filter, 2);
    if s.len() == 0 {
        assert(s.filter(pred).len() == 0);
    } else {
        let s0 = s.drop_last();
        let x1 = s.last();
        lemma_filter_contains_iff(s0, pred, x);
        assert(s =~= s0.push(x1));
        lemma_filter_push(s0, x1, pred);
        lemma_contains_push(s0, x1, x);
        if pred(x1) {
            lemma_contains_push(s0.filter(pred), x1, x);
        }
    }
}

} // verus!

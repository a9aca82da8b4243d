use crate::board::Board;
use crate::piece::Piece;
use vstd::prelude::*;

verus! {

/// A board coordinate: `file` is the column, `rank` the row, both counted
/// from 0 at the corner where the first player's pieces start.  A square is
/// on the board iff [`in_bounds`] holds; the type itself can also carry
/// off-board sentinel values such as `(8, 8)`.
#[derive(Debug, Clone, Copy, PartialEq, Eq, Structural)]
pub struct Square {
    pub file: usize,
    pub rank: usize,
}

/// One candidate or committed move: source and destination squares, a
/// snapshot of the moving piece taken at generation time, and an optional
/// tag marking a move that needs extra handling when it is committed.
#[derive(Debug, Clone, Copy, PartialEq, Eq, Structural)]
pub struct Move {
    pub from: Square,
    pub to: Square,
    pub piece: Piece,
    pub special_move: Option<SpecialMoveType>,
}

/// One committed move together with the board as it stood before the move
/// and whether the move captured a piece.  The history is append-only;
/// castling rights and en-passant eligibility are derived from it.
#[allow(non_snake_case)]
#[derive(Debug, Clone, Copy, PartialEq)]
pub struct MoveHistoryEntry {
    pub moveEntry: Move,
    pub boardState: Board,
    pub isCaptureMove: bool,
}

#[derive(Debug, Clone, Copy, PartialEq, Eq, Structural)]
pub enum SpecialMoveType {
    PawnLongMove,
    EnPassant,
    CastleLong,
    CastleShort,
    Promote,
}

/// Both coordinates lie on the 8x8 board.
pub open spec fn in_bounds(s: Square) -> bool {
    s.file < 8 && s.rank < 8
}

/// The square reached from `s` by moving `df` files and `dr` ranks.
pub open spec fn shifted(s: Square, df: int, dr: int) -> Square {
    Square { file: (s.file + df) as usize, rank: (s.rank + dr) as usize }
}

/// Moving `df` files and `dr` ranks from `s` stays on the board.
pub open spec fn can_shift(s: Square, df: int, dr: int) -> bool {
    0 <= s.file + df < 8 && 0 <= s.rank + dr < 8
}

pub fn move_right(current_square: Square) -> (r: Result<Square, ()>)
    ensures
        current_square.file < 7 ==> r == Ok::<Square, ()>(shifted(current_square, 1, 0)),
        current_square.file >= 7 ==> r == Err::<Square, ()>(()),
{
    if current_square.file >= 7 {
        return Err(());
    }
    let mut new_square = current_square;
    new_square.file = new_square.file + 1;
    Ok(new_square)
}

pub fn move_left(current_square: Square) -> (r: Result<Square, ()>)
    ensures
        current_square.file >= 1 ==> r == Ok::<Square, ()>(shifted(current_square, -1, 0)),
        current_square.file == 0 ==> r == Err::<Square, ()>(()),
{
    if current_square.file == 0 {
        return Err(());
    }
    let mut new_square = current_square;
    new_square.file = new_square.file - 1;
    Ok(new_square)
}

pub fn move_down(current_square: Square) -> (r: Result<Square, ()>)
    ensures
        current_square.rank >= 1 ==> r == Ok::<Square, ()>(shifted(current_square, 0, -1)),
        current_square.rank == 0 ==> r == Err::<Square, ()>(()),
{
    if current_square.rank == 0 {
        return Err(());
    }
    let mut new_square = current_square;
    new_square.rank = new_square.rank - 1;
    Ok(new_square)
}

pub fn move_up(current_square: Square) -> (r: Result<Square, ()>)
    ensures
        current_square.rank < 7 ==> r == Ok::<Square, ()>(shifted(current_square, 0, 1)),
        current_square.rank >= 7 ==> r == Err::<Square, ()>(()),
{
    if current_square.rank >= 7 {
        return Err(());
    }
    let mut new_square = current_square;
    new_square.rank = new_square.rank + 1;
    Ok(new_square)
}

pub fn move_up_right(current_square: Square) -> (r: Result<Square, ()>)
    ensures
        current_square.file < 7 && current_square.rank < 7 ==> r == Ok::<Square, ()>(
            shifted(current_square, 1, 1),
        ),
        !(current_square.file < 7 && current_square.rank < 7) ==> r == Err::<Square, ()>(()),
{
    move_up(move_right(current_square)?)
}

pub fn move_up_left(current_square: Square) -> (r: Result<Square, ()>)
    ensures
        current_square.file >= 1 && current_square.rank < 7 ==> r == Ok::<Square, ()>(
            shifted(current_square, -1, 1),
        ),
        !(current_square.file >= 1 && current_square.rank < 7) ==> r == Err::<Square, ()>(()),
{
    move_up(move_left(current_square)?)
}

pub fn move_down_right(current_square: Square) -> (r: Result<Square, ()>)
    ensures
        current_square.file < 7 && current_square.rank >= 1 ==> r == Ok::<Square, ()>(
            shifted(current_square, 1, -1),
        ),
        !(current_square.file < 7 && current_square.rank >= 1) ==> r == Err::<Square, ()>(()),
{
    move_down(move_right(current_square)?)
}

pub fn move_down_left(current_square: Square) -> (r: Result<Square, ()>)
    ensures
        current_square.file >= 1 && current_square.rank >= 1 ==> r == Ok::<Square, ()>(
            shifted(current_square, -1, -1),
        ),
        !(current_square.file >= 1 && current_square.rank >= 1) ==> r == Err::<Square, ()>(()),
{
    move_down(move_left(current_square)?)
}

pub fn move_up_up(current_square: Square) -> (r: Result<Square, ()>)
    ensures
        current_square.rank < 6 ==> r == Ok::<Square, ()>(shifted(current_square, 0, 2)),
        current_square.rank >= 6 ==> r == Err::<Square, ()>(()),
{
    move_up(move_up(current_square)?)
}

pub fn move_down_down(current_square: Square) -> (r: Result<Square, ()>)
    ensures
        current_square.rank >= 2 ==> r == Ok::<Square, ()>(shifted(current_square, 0, -2)),
        current_square.rank < 2 ==> r == Err::<Square, ()>(()),
{
    move_down(move_down(current_square)?)
}

pub fn move_up_up_left(current_square: Square) -> (r: Result<Square, ()>)
    ensures
        current_square.file >= 1 && current_square.rank < 6 ==> r == Ok::<Square, ()>(
            shifted(current_square, -1, 2),
        ),
        !(current_square.file >= 1 && current_square.rank < 6) ==> r == Err::<Square, ()>(()),
{
    move_up(move_up(move_left(current_square)?)?)
}

pub fn move_up_left_left(current_square: Square) -> (r: Result<Square, ()>)
    ensures
        current_square.file >= 2 && current_square.rank < 7 ==> r == Ok::<Square, ()>(
            shifted(current_square, -2, 1),
        ),
        !(current_square.file >= 2 && current_square.rank < 7) ==> r == Err::<Square, ()>(()),
{
    move_up(move_left(move_left(current_square)?)?)
}

pub fn move_up_up_right(current_square: Square) -> (r: Result<Square, ()>)
    ensures
        current_square.file < 7 && current_square.rank < 6 ==> r == Ok::<Square, ()>(
            shifted(current_square, 1, 2),
        ),
        !(current_square.file < 7 && current_square.rank < 6) ==> r == Err::<Square, ()>(()),
{
    move_up(move_up(move_right(current_square)?)?)
}

pub fn move_up_right_right(current_square: Square) -> (r: Result<Square, ()>)
    ensures
        current_square.file < 6 && current_square.rank < 7 ==> r == Ok::<Square, ()>(
            shifted(current_square, 2, 1),
        ),
        !(current_square.file < 6 && current_square.rank < 7) ==> r == Err::<Square, ()>(()),
{
    move_up(move_right(move_right(current_square)?)?)
}

pub fn move_down_down_left(current_square: Square) -> (r: Result<Square, ()>)
    ensures
        current_square.file >= 1 && current_square.rank >= 2 ==> r == Ok::<Square, ()>(
            shifted(current_square, -1, -2),
        ),
        !(current_square.file >= 1 && current_square.rank >= 2) ==> r == Err::<Square, ()>(()),
{
    move_down(move_down(move_left(current_square)?)?)
}

pub fn move_down_left_left(current_square: Square) -> (r: Result<Square, ()>)
    ensures
        current_square.file >= 2 && current_square.rank >= 1 ==> r == Ok::<Square, ()>(
            shifted(current_square, -2, -1),
        ),
        !(current_square.file >= 2 && current_square.rank >= 1) ==> r == Err::<Square, ()>(()),
{
    move_down(move_left(move_left(current_square)?)?)
}

pub fn move_down_down_right(current_square: Square) -> (r: Result<Square, ()>)
    ensures
        current_square.file < 7 && current_square.rank >= 2 ==> r == Ok::<Square, ()>(
            shifted(current_square, 1, -2),
        ),
        !(current_square.file < 7 && current_square.rank >= 2) ==> r == Err::<Square, ()>(()),
{
    move_down(move_down(move_right(current_square)?)?)
}

pub fn move_down_right_right(current_square: Square) -> (r: Result<Square, ()>)
    ensures
        current_square.file < 6 && current_square.rank >= 1 ==> r == Ok::<Square, ()>(
            shifted(current_square, 2, -1),
        ),
        !(current_square.file < 6 && current_square.rank >= 1) ==> r == Err::<Square, ()>(()),
{
    move_down(move_right(move_right(current_square)?)?)
}

} // verus!

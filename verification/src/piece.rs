use vstd::prelude::*;

verus! {

/// The occupant of one board cell: a piece kind together with the side that
/// owns it.  An empty cell is represented by the `Null` kind paired with the
/// `Null` color; keeping the two fields consistent is the board
/// well-formedness invariant stated in `rules::board_wf`.
#[derive(Debug, Eq, Hash, PartialEq, Copy, Clone, Structural)]
pub struct Piece {
    pub piece: PieceType,
    pub color: Color,
}

#[derive(Debug, Eq, Hash, PartialEq, Copy, Clone, Structural)]
pub enum PieceType {
    King,
    Queen,
    Bishop,
    Knight,
    Rook,
    Pawn,
    Null,
}

#[derive(Eq, Hash, PartialEq, Copy, Clone, Debug, Structural)]
pub enum Color {
    Black,
    White,
    Null,
}

/// The side that moves after `c`; the side whose replies are examined when
/// testing whether `c`'s king is capturable.
pub open spec fn opposite(c: Color) -> Color {
    if c == Color::White {
        Color::Black
    } else {
        Color::White
    }
}

/// Executable counterpart of [`opposite`].
pub fn other_color(c: Color) -> (r: Color)
    ensures
        r == opposite(c),
{
    if c == Color::White {
        Color::Black
    } else {
        Color::White
    }
}

} // verus!

use crate::piece::{Color, Piece, PieceType};
use crate::position::{in_bounds, Square};
use vstd::array::spec_array_update;
use vstd::prelude::*;

verus! {

broadcast use vstd::array::group_array_axioms;

/// The playing field: an 8x8 grid of cells, indexed `board[rank][file]`.
/// Empty cells hold the `Null` piece with the `Null` color.
pub type Board = [[Piece; 8]; 8];

/// The occupant of an empty cell.
pub open spec fn empty_piece() -> Piece {
    Piece { piece: PieceType::Null, color: Color::Null }
}

/// The cell of `b` at square `s`.
pub open spec fn cell_at(b: Board, s: Square) -> Piece {
    b[s.rank as int][s.file as int]
}

/// A well-formed board: a cell holds the `Null` kind exactly when it holds
/// the `Null` color.  The two fields are stored independently, so every
/// mutation site must preserve this pairing.
pub open spec fn board_wf(b: Board) -> bool {
    forall|r: int, f: int|
        0 <= r < 8 && 0 <= f < 8 ==> ((#[trigger] b[r][f]).piece == PieceType::Null <==> b[r][f].color
            == Color::Null)
}

/// `b` with the cell at `s` replaced by `p`; all other cells unchanged.
pub open spec fn board_set(b: Board, s: Square, p: Piece) -> Board {
    spec_array_update(b, s.rank as int, spec_array_update(b[s.rank as int], s.file as int, p))
}

/// Reading `board_set` back: the written cell holds `p`, every other cell is
/// what `b` held there.
pub proof fn lemma_board_set(b: Board, s: Square, p: Piece)
    requires
        in_bounds(s),
    ensures
        cell_at(board_set(b, s, p), s) == p,
        forall|r: int, f: int|
            0 <= r < 8 && 0 <= f < 8 && !(r == s.rank && f == s.file) ==> #[trigger] board_set(
                b,
                s,
                p,
            )[r][f] == b[r][f],
{
}


/// Puts the starting material on the board: a king on the e-file and rooks
/// in both corners for each side, White on rank 0 and Black on rank 7.
/// Cells outside those six squares keep what they held.
pub fn setup_board(board: &mut Board)
    ensures
        cell_at(*final(board), Square { file: 0, rank: 0 }) == (Piece {
            piece: PieceType::Rook,
            color: Color::White,
        }),
        cell_at(*final(board), Square { file: 4, rank: 0 }) == (Piece {
            piece: PieceType::King,
            color: Color::White,
        }),
        cell_at(*final(board), Square { file: 7, rank: 0 }) == (Piece {
            piece: PieceType::Rook,
            color: Color::White,
        }),
        cell_at(*final(board), Square { file: 0, rank: 7 }) == (Piece {
            piece: PieceType::Rook,
            color: Color::Black,
        }),
        cell_at(*final(board), Square { file: 4, rank: 7 }) == (Piece {
            piece: PieceType::King,
            color: Color::Black,
        }),
        cell_at(*final(board), Square { file: 7, rank: 7 }) == (Piece {
            piece: PieceType::Rook,
            color: Color::Black,
        }),
        forall|r: int, f: int|
            0 <= r < 8 && 0 <= f < 8 && !((r == 0 || r == 7) && (f == 0 || f == 4 || f == 7))
                ==> (#[trigger] final(board)[r][f]) == old(board)[r][f],
        board_wf(*old(board)) ==> board_wf(*final(board)),
{
    board[0][0] = Piece { piece: PieceType::Rook, color: Color::White };
    board[0][4] = Piece { piece: PieceType::King, color: Color::White };
    board[0][7] = Piece { piece: PieceType::Rook, color: Color::White };
    board[7][0] = Piece { piece: PieceType::Rook, color: Color::Black };
    board[7][4] = Piece { piece: PieceType::King, color: Color::Black };
    board[7][7] = Piece { piece: PieceType::Rook, color: Color::Black };
}

/// Places a single king in the middle of the board, for small experiments.
pub fn setup_test_board(board: &mut Board)
    ensures
        *final(board) == board_set(
            *old(board),
            Square { file: 3, rank: 3 },
            Piece { piece: PieceType::King, color: Color::White },
        ),
{
    board[3][3] = Piece { piece: PieceType::King, color: Color::White };
    proof {
        assert(*board =~~= board_set(
            *old(board),
            Square { file: 3, rank: 3 },
            Piece { piece: PieceType::King, color: Color::White },
        ));
    }
}

} // verus!

//! A two-player, turn-based board-game rules engine: it maintains an 8x8
//! board, enumerates the legal moves of the side to move (including the
//! special moves: en passant, castling, pawn double step and promotion),
//! filters out moves that would leave the mover's own king capturable, and
//! classifies terminal outcomes (win, stalemate, insufficient material).

pub mod board;
pub mod game;
pub mod laws;
pub mod legal_moves;
pub mod piece;
pub mod position;
pub mod rules;

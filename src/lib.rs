//! A chess rules engine: legal move generation, move application with full
//! bookkeeping (castling, en passant, promotion, clocks), undo, and
//! classification of the resulting position.

pub mod piece;
pub mod square;
pub mod position;
pub mod movegen;
pub mod legality;
pub mod game;
pub mod fen;
pub mod laws;

pub use piece::{Color, Piece, PieceType};
pub use game::{DrawState, Game, GameState, WinState};
pub use square::{alg_notation_to_indx, indx_to_alg_notation};

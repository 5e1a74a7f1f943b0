//! Rules core of chess: a compact position value, a legal-move generator
//! with pin, check, castling and en-passant handling, and a move applier
//! that derives the successor position.
pub mod apply;
pub mod attack;
pub mod board;
pub mod fen;
pub mod laws;
pub mod movegen;

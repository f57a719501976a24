//! Rules of a terminal chess game: the board, legal moves, check and mate,
//! and FEN import and export.
pub mod board;
pub mod rules;
pub mod status;
pub mod text;
pub mod moves;
pub mod fen;
pub mod commands;
pub mod engine;
pub mod display;
pub mod laws;

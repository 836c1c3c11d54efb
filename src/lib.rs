//! Move search for Ultimate Tic-Tac-Toe over a packed bit board.
pub mod board;
pub mod eval;
pub mod rules;
pub mod search;
pub mod table;

//! A small two-player tic-tac-toe library for square boards of side 2 to 7.
//!
//! The board tracks marks, validates moves by single-letter cell labels,
//! detects wins on rows, columns and both diagonals, and renders the grid
//! as text. Terminal interaction lives outside the library.

pub mod session;
pub mod tictactoe;

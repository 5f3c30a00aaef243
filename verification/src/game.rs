//! Quoridor on a 9x9 board, with the walls and pawn positions kept as bit sets.
pub mod bits;
pub mod board;
pub mod bit_bfs;
pub mod moves;
pub mod move_list;
pub mod state;
pub mod player;
pub mod zobrist;

//! Whether a game is over, and who won.
use vstd::prelude::*;
use crate::game::board::Board;

verus! {

/// The state of a game.
#[derive(Clone, Copy, Debug, PartialEq, Eq, Structural)]
pub enum GameResult {
    InProgress,
    WhiteWins,
    BlackWins,
}

impl Board {
    /// White has won when its pawn stands on the top row; else black has won
    /// when its pawn stands on the bottom row; else the game goes on.
    pub open spec fn result(self) -> GameResult {
        if self.white.position_idx >= 72 {
            GameResult::WhiteWins
        } else if self.black.position_idx <= 8 {
            GameResult::BlackWins
        } else {
            GameResult::InProgress
        }
    }

    /// The state of the game on this board (see [`Board::result`]).
    pub fn check_result(&self) -> (r: GameResult)
        ensures
            r == self.result(),
    {
        if self.white_pos() >= 72 {
            GameResult::WhiteWins
        } else if self.black_pos() <= 8 {
            GameResult::BlackWins
        } else {
            GameResult::InProgress
        }
    }
}

} // verus!

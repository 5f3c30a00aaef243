//! What every player of the game does: pick a move.
use vstd::prelude::*;
use crate::game::board::Board;
use crate::game::moves::Move;

verus! {

impl Board {
    /// `mv` is a move the given side may play here: one of its candidate
    /// moves, and one that [`Board::make_move`] accepts.
    pub open spec fn is_legal(self, white: bool, mv: Move) -> bool {
        self.candidates(white).contains(mv) && self.after_move(white, mv).1
    }

    /// The given side has a move it may play.
    pub open spec fn has_legal_move(self, white: bool) -> bool {
        exists|mv: Move| #[trigger] self.is_legal(white, mv)
    }
}

/// A player of the game.
pub trait Player {
    /// The positions this player can search: all of them, for most players.
    spec fn can_move(&self, board: Board, is_white: bool) -> bool;

    /// The move this player makes for the given side; called only while that
    /// side has a move it may play.
    fn get_move(&mut self, board: &Board, is_white: bool) -> (mv: Move)
        requires
            board.wf(),
            board.has_legal_move(is_white),
            old(self).can_move(*board, is_white),
        ensures
            board.is_legal(is_white, mv),
    ;
}

} // verus!

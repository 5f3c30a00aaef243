//! The board: pawn positions, wall counts and walls, each wall set kept as
//! the bits of an integer. Cell `i` lies in row `i / 9` and column `i % 9`;
//! white starts on row 0 and heads for row 8, black the other way.
use vstd::prelude::*;
use crate::game::bits::{has_bit, lemma_mask_test};

verus! {

/// Index of a cell, `row * 9 + column`.
pub type PositionIndex = u8;

/// The walls on the board.
///
/// Bit `i` of `walls_above` is a wall along the top edge of cell `i`; bit `i`
/// of `walls_right` a wall along its right edge; bit `c` of `corners` a wall
/// centred on corner `c` (row `c / 8`, column `c % 8` of the 8x8 inner corners).
#[derive(Clone, Copy, Debug, PartialEq, Eq, Hash, Structural)]
pub struct Walls {
    pub walls_above: u128,
    pub walls_right: u128,
    pub corners: u64,
}

/// A pawn's cell and the number of walls it may still place.
#[derive(Clone, Copy, Debug, PartialEq, Eq, Hash, Structural)]
pub struct PlayerStatus {
    pub position_idx: PositionIndex,
    pub walls_remaining: u8,
}

/// A Quoridor position.
#[derive(Clone, Copy, Debug, PartialEq, Eq, Hash, Structural)]
pub struct Board {
    pub walls: Walls,
    pub white: PlayerStatus,
    pub black: PlayerStatus,
}

/// `n + 1`, wrapping as an optimised build does.
pub open spec fn count_up(n: u8) -> u8 {
    if n == 255 {
        0
    } else {
        (n + 1) as u8
    }
}

/// `n - 1`, wrapping as an optimised build does.
pub open spec fn count_down(n: u8) -> u8 {
    if n == 0 {
        255
    } else {
        (n - 1) as u8
    }
}

impl Board {
    /// Both pawns stand on the board.
    pub open spec fn wf(self) -> bool {
        self.white.position_idx < 81 && self.black.position_idx < 81
    }

    /// The cell of the pawn of the given side.
    pub open spec fn pos(self, white: bool) -> u8 {
        if white {
            self.white.position_idx
        } else {
            self.black.position_idx
        }
    }

    /// The walls the given side may still place.
    pub open spec fn walls_left(self, white: bool) -> u8 {
        if white {
            self.white.walls_remaining
        } else {
            self.black.walls_remaining
        }
    }

    /// This board with the given side's pawn on cell `p`.
    pub open spec fn with_pos(self, white: bool, p: u8) -> Board {
        if white {
            Board { white: PlayerStatus { position_idx: p, ..self.white }, ..self }
        } else {
            Board { black: PlayerStatus { position_idx: p, ..self.black }, ..self }
        }
    }

    /// This board with the given side's wall count set to `n`.
    pub open spec fn with_walls_left(self, white: bool, n: u8) -> Board {
        if white {
            Board { white: PlayerStatus { walls_remaining: n, ..self.white }, ..self }
        } else {
            Board { black: PlayerStatus { walls_remaining: n, ..self.black }, ..self }
        }
    }

    /// The starting position: no wall, white on cell 4 (`e1`), black on cell
    /// 76 (`e9`), ten walls each.
    pub open spec fn start() -> Board {
        Board {
            walls: Walls { walls_above: 0, walls_right: 0, corners: 0 },
            white: PlayerStatus { position_idx: 4, walls_remaining: 10 },
            black: PlayerStatus { position_idx: 76, walls_remaining: 10 },
        }
    }

    /// Moving up from cell `i` is blocked by the edge of the board or a wall.
    pub open spec fn blocked_up(self, i: int) -> bool {
        i >= 72 || has_bit(self.walls.walls_above, i)
    }

    /// Moving down from cell `i` is blocked.
    pub open spec fn blocked_down(self, i: int) -> bool {
        i < 9 || has_bit(self.walls.walls_above, i - 9)
    }

    /// Moving right from cell `i` is blocked.
    pub open spec fn blocked_right(self, i: int) -> bool {
        i % 9 == 8 || has_bit(self.walls.walls_right, i)
    }

    /// Moving left from cell `i` is blocked.
    pub open spec fn blocked_left(self, i: int) -> bool {
        i % 9 == 0 || has_bit(self.walls.walls_right, i - 1)
    }

    /// The starting position: pawns in the middle of their home rows, ten walls each.
    pub fn new() -> (b: Self)
        ensures
            b == Board::start(),
            b.wf(),
    {
        Board {
            walls: Walls { walls_above: 0, walls_right: 0, corners: 0 },
            white: PlayerStatus { position_idx: 4, walls_remaining: 10 },
            black: PlayerStatus { position_idx: 76, walls_remaining: 10 },
        }
    }

    /// White's cell.
    pub fn white_pos(&self) -> (p: PositionIndex)
        ensures
            p == self.white.position_idx,
    {
        self.white.position_idx
    }

    /// Black's cell.
    pub fn black_pos(&self) -> (p: PositionIndex)
        ensures
            p == self.black.position_idx,
    {
        self.black.position_idx
    }

    /// The walls white may still place.
    pub fn white_walls_remaining(&self) -> (n: u8)
        ensures
            n == self.white.walls_remaining,
    {
        self.white.walls_remaining
    }

    /// The walls black may still place.
    pub fn black_walls_remaining(&self) -> (n: u8)
        ensures
            n == self.black.walls_remaining,
    {
        self.black.walls_remaining
    }

    /// The wall bits along the top edges of the cells.
    pub fn walls_above_bits(&self) -> (w: u128)
        ensures
            w == self.walls.walls_above,
    {
        self.walls.walls_above
    }

    /// The wall bits along the right edges of the cells.
    pub fn walls_right_bits(&self) -> (w: u128)
        ensures
            w == self.walls.walls_right,
    {
        self.walls.walls_right
    }

    /// There is a wall (or the board's edge) above cell `idx`.
    pub fn wall_above(&self, idx: u8) -> (b: bool)
        ensures
            b == self.blocked_up(idx as int),
    {
        if idx >= 72 {
            true
        } else {
            proof {
                lemma_mask_test(self.walls.walls_above, idx as u128);
            }
            (self.walls.walls_above & (1u128 << idx)) != 0
        }
    }

    /// There is a wall (or the board's edge) below cell `idx`.
    pub fn wall_below(&self, idx: u8) -> (b: bool)
        requires
            idx < 137,
        ensures
            b == self.blocked_down(idx as int),
    {
        if idx < 9 {
            true
        } else {
            proof {
                lemma_mask_test(self.walls.walls_above, (idx - 9) as u128);
            }
            (self.walls.walls_above & (1u128 << (idx - 9))) != 0
        }
    }

    /// There is a wall (or the board's edge) right of cell `idx`.
    pub fn wall_right(&self, idx: u8) -> (b: bool)
        requires
            idx % 9 == 8 || idx < 128,
        ensures
            b == self.blocked_right(idx as int),
    {
        if idx % 9 == 8 {
            true
        } else {
            proof {
                lemma_mask_test(self.walls.walls_right, idx as u128);
            }
            (self.walls.walls_right & (1u128 << idx)) != 0
        }
    }

    /// There is a wall (or the board's edge) left of cell `idx`.
    pub fn wall_left(&self, idx: u8) -> (b: bool)
        requires
            idx % 9 == 0 || idx <= 128,
        ensures
            b == self.blocked_left(idx as int),
    {
        if idx % 9 == 0 {
            true
        } else {
            proof {
                lemma_mask_test(self.walls.walls_right, (idx - 1) as u128);
            }
            (self.walls.walls_right & (1u128 << (idx - 1))) != 0
        }
    }
}

} // verus!

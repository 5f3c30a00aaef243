//! Moves: a pawn step or jump, or a wall placed on one of the 64 inner
//! corners. Generating the candidate moves of a position, making and
//! unmaking a move.
use arrayvec::ArrayVec;
use vstd::prelude::*;
use crate::game::bits::{
    lemma_identity_masks, lemma_set_then_clear, lemma_set_then_clear64, lemma_wall_bits_clear,
};
use crate::game::move_list::{move_list_items, new_move_list, push_move};
use crate::game::board::{count_down, count_up, Board, PositionIndex, Walls};

verus! {

/// The direction of a wall.
#[derive(Clone, Copy, Debug, PartialEq, Eq, Hash, Structural)]
pub enum Orientation {
    /// Two cells wide, along the top edges of the two cells right of and
    /// above the corner.
    Horizontal,
    /// Two cells high, along the right edges of the cell left of the corner
    /// and the one above it.
    Vertical,
}

/// A move of one side.
#[derive(Clone, Copy, Debug, PartialEq, Eq, Hash, Structural)]
pub enum Move {
    /// The pawn goes from one cell to another.
    Pawn { from: PositionIndex, to: PositionIndex },
    /// A wall goes on inner corner `corner_idx` (row `corner_idx / 8`, column `corner_idx % 8`).
    Wall { corner_idx: u8, orientation: Orientation },
}

/// The cell whose top-right corner is inner corner `c`.
pub open spec fn corner_square(c: u8) -> u8 {
    ((c / 8) * 9 + c % 8) as u8
}

/// The wall bits of a wall of orientation `o` on corner `c`, within `walls_above`.
pub open spec fn above_bits(c: u8, o: Orientation) -> u128 {
    match o {
        Orientation::Horizontal => 3u128 << corner_square(c),
        Orientation::Vertical => 0u128,
    }
}

/// The wall bits of a wall of orientation `o` on corner `c`, within `walls_right`.
pub open spec fn right_bits(c: u8, o: Orientation) -> u128 {
    match o {
        Orientation::Horizontal => 0u128,
        Orientation::Vertical => 513u128 << corner_square(c),
    }
}

/// `w` with a wall of orientation `o` added on corner `c`.
pub open spec fn walls_with(w: Walls, c: u8, o: Orientation) -> Walls {
    Walls {
        walls_above: w.walls_above | above_bits(c, o),
        walls_right: w.walls_right | right_bits(c, o),
        corners: w.corners | (1u64 << c),
    }
}

/// `w` with the bits of a wall of orientation `o` on corner `c` cleared.
pub open spec fn walls_without(w: Walls, c: u8, o: Orientation) -> Walls {
    Walls {
        walls_above: w.walls_above & !above_bits(c, o),
        walls_right: w.walls_right & !right_bits(c, o),
        corners: w.corners & !(1u64 << c),
    }
}

impl Board {
    /// The position and success flag that making `mv` for the given side yields.
    /// A pawn move always succeeds. A wall succeeds when both pawns can still
    /// reach their goal rows; the mover then has one wall fewer. A wall that
    /// would cut a pawn off is taken back, and the mover's count goes up by one.
    pub open spec fn after_move(self, white: bool, mv: Move) -> (Board, bool) {
        match mv {
            Move::Pawn { to, .. } => (self.with_pos(white, to), true),
            Move::Wall { corner_idx, orientation } => {
                let placed = Board { walls: walls_with(self.walls, corner_idx, orientation), ..self };
                if placed.both_reach() {
                    (placed.with_walls_left(white, count_down(self.walls_left(white))), true)
                } else {
                    (
                        Board {
                            walls: walls_without(placed.walls, corner_idx, orientation),
                            ..self
                        }.with_walls_left(white, count_up(self.walls_left(white))),
                        false,
                    )
                }
            },
        }
    }

    /// The position that unmaking `mv` for the given side yields: the pawn
    /// goes back to `from`, or the wall is cleared and handed back.
    pub open spec fn after_unmake(self, white: bool, mv: Move) -> Board {
        match mv {
            Move::Pawn { from, .. } => self.with_pos(white, from),
            Move::Wall { corner_idx, orientation } => Board {
                walls: walls_without(self.walls, corner_idx, orientation),
                ..self
            }.with_walls_left(white, count_up(self.walls_left(white))),
        }
    }
}

impl Board {
    /// Makes `mv` for the given side; returns false when a wall was refused
    /// because it would cut a pawn off from its goal row (see [`Board::after_move`]).
    pub fn make_move(&mut self, is_white_turn: bool, mv: Move) -> (ok: bool)
        requires
            mv matches Move::Wall { corner_idx, .. } ==> corner_idx < 64 && old(self).wf(),
        ensures
            (*final(self), ok) == old(self).after_move(is_white_turn, mv),
    {
        match mv {
            Move::Pawn { to, .. } => {
                if is_white_turn {
                    self.white.position_idx = to;
                } else {
                    self.black.position_idx = to;
                }
                true
            },
            Move::Wall { corner_idx, orientation } => {
                self.walls.corners = self.walls.corners | (1u64 << corner_idx);
                let square_idx = (corner_idx / 8) * 9 + (corner_idx % 8);
                match orientation {
                    Orientation::Horizontal => {
                        self.walls.walls_above = self.walls.walls_above | (3u128 << square_idx);
                    },
                    Orientation::Vertical => {
                        self.walls.walls_right = self.walls.walls_right | (513u128 << square_idx);
                    },
                }
                proof {
                    lemma_identity_masks(self.walls.walls_above);
                    lemma_identity_masks(self.walls.walls_right);
                }
                if !self.state_valid() {
                    self.unmake_move(is_white_turn, mv);
                    return false;
                }
                if is_white_turn {
                    self.white.walls_remaining = self.white.walls_remaining.wrapping_sub(1);
                } else {
                    self.black.walls_remaining = self.black.walls_remaining.wrapping_sub(1);
                }
                true
            },
        }
    }

    /// Unmakes `mv` for the given side (see [`Board::after_unmake`]); always returns true.
    pub fn unmake_move(&mut self, is_white_turn: bool, mv: Move) -> (ok: bool)
        requires
            mv matches Move::Wall { corner_idx, .. } ==> corner_idx < 64,
        ensures
            *final(self) == old(self).after_unmake(is_white_turn, mv),
            ok,
    {
        match mv {
            Move::Pawn { from, .. } => {
                if is_white_turn {
                    self.white.position_idx = from;
                } else {
                    self.black.position_idx = from;
                }
            },
            Move::Wall { corner_idx, orientation } => {
                self.walls.corners = self.walls.corners & !(1u64 << corner_idx);
                let square_idx = (corner_idx / 8) * 9 + (corner_idx % 8);
                match orientation {
                    Orientation::Horizontal => {
                        self.walls.walls_above = self.walls.walls_above & !(3u128 << square_idx);
                    },
                    Orientation::Vertical => {
                        self.walls.walls_right = self.walls.walls_right & !(513u128 << square_idx);
                    },
                }
                proof {
                    lemma_identity_masks(self.walls.walls_above);
                    lemma_identity_masks(self.walls.walls_right);
                }
                if is_white_turn {
                    self.white.walls_remaining = self.white.walls_remaining.wrapping_add(1);
                } else {
                    self.black.walls_remaining = self.black.walls_remaining.wrapping_add(1);
                }
            },
        }
        true
    }
}

/// The walls of a wall move are all absent from `w`.
pub open spec fn wall_is_free(w: Walls, c: u8, o: Orientation) -> bool {
    &&& w.corners & (1u64 << c) == 0
    &&& w.walls_above & above_bits(c, o) == 0
    &&& w.walls_right & right_bits(c, o) == 0
}

/// Unmaking a move that was made undoes it: for a pawn move that starts on
/// the mover's cell, and for a wall whose bits were all clear before.
pub proof fn law_unmake_undoes_make(b: Board, white: bool, mv: Move)
    requires
        b.after_move(white, mv).1,
        mv matches Move::Pawn { from, .. } ==> from == b.pos(white),
        mv matches Move::Wall { corner_idx, orientation } ==> wall_is_free(
            b.walls,
            corner_idx,
            orientation,
        ),
    ensures
        b.after_move(white, mv).0.after_unmake(white, mv) == b,
{
    match mv {
        Move::Pawn { .. } => {},
        Move::Wall { corner_idx, orientation } => {
            lemma_set_then_clear(b.walls.walls_above, above_bits(corner_idx, orientation));
            lemma_set_then_clear(b.walls.walls_right, right_bits(corner_idx, orientation));
            lemma_set_then_clear64(b.walls.corners, 1u64 << corner_idx);
        },
    }
}

impl Board {
    proof fn lemma_walk_same_walls(self, other: Board, start: int, k: nat)
        requires
            self.walls == other.walls,
        ensures
            self.walk(start, k) == other.walk(start, k),
        decreases k,
    {
        if k > 0 {
            self.lemma_walk_same_walls(other, start, (k - 1) as nat);
            assert(self.walk(start, k) =~= other.walk(start, k));
        }
    }
}

impl Board {
    /// The two boards have the same walls and the pawns on the same cells;
    /// they may differ in the counts of walls left.
    pub open spec fn same_layout(self, other: Board) -> bool {
        &&& self.walls == other.walls
        &&& self.white.position_idx == other.white.position_idx
        &&& self.black.position_idx == other.black.position_idx
    }

    /// Whether a pawn can reach a goal row depends on the walls alone.
    proof fn lemma_reaches_same_walls(self, other: Board)
        requires
            self.walls == other.walls,
        ensures
            forall|s: int, t: bool| #[trigger] self.reaches(s, t) == other.reaches(s, t),
    {
        assert forall|s: int, k: nat| #[trigger] self.walk(s, k) == other.walk(s, k) by {
            self.lemma_walk_same_walls(other, s, k);
        }
        assert forall|s: int, t: bool, k: nat| #[trigger] self.hits(s, t, k) == other.hits(s, t, k) by {
            assert(self.walk(s, k) == other.walk(s, k));
        }
        assert forall|s: int, t: bool| #[trigger] self.reaches(s, t) == other.reaches(s, t) by {
            if self.reaches(s, t) {
                let k = choose|k: nat| #[trigger] self.hits(s, t, k);
                assert(other.hits(s, t, k));
            }
            if other.reaches(s, t) {
                let k = choose|k: nat| #[trigger] other.hits(s, t, k);
                assert(self.hits(s, t, k));
            }
        }
    }

    /// Whether a move is accepted, and the layout it leads to, depend on the
    /// layout alone.
    pub proof fn lemma_move_same_layout(self, other: Board, white: bool, mv: Move)
        requires
            self.same_layout(other),
        ensures
            self.after_move(white, mv).1 == other.after_move(white, mv).1,
            self.after_move(white, mv).0.same_layout(other.after_move(white, mv).0),
    {
        if let Move::Wall { corner_idx, orientation } = mv {
            let p1 = Board { walls: walls_with(self.walls, corner_idx, orientation), ..self };
            let p2 = Board { walls: walls_with(other.walls, corner_idx, orientation), ..other };
            p1.lemma_reaches_same_walls(p2);
        }
    }

    /// Unmaking a candidate move restores the layout from before it was made,
    /// whatever happened to the counts of walls left in between.
    pub proof fn lemma_unmake_layout(self, after: Board, white: bool, mv: Move)
        requires
            self.after_move(white, mv).1,
            after.same_layout(self.after_move(white, mv).0),
            mv matches Move::Pawn { from, .. } ==> from == self.pos(white),
            mv matches Move::Wall { corner_idx, orientation } ==> wall_is_free(
                self.walls,
                corner_idx,
                orientation,
            ),
        ensures
            after.after_unmake(white, mv).same_layout(self),
    {
        if let Move::Wall { corner_idx, orientation } = mv {
            lemma_set_then_clear(self.walls.walls_above, above_bits(corner_idx, orientation));
            lemma_set_then_clear(self.walls.walls_right, right_bits(corner_idx, orientation));
            lemma_set_then_clear64(self.walls.corners, 1u64 << corner_idx);
        }
    }
}

impl Board {
    /// A refused candidate wall leaves the layout as it was.
    pub proof fn lemma_refused_layout(self, white: bool, mv: Move)
        requires
            !self.after_move(white, mv).1,
            mv matches Move::Wall { corner_idx, orientation } ==> wall_is_free(
                self.walls,
                corner_idx,
                orientation,
            ),
        ensures
            self.after_move(white, mv).0.same_layout(self),
    {
        if let Move::Wall { corner_idx, orientation } = mv {
            lemma_set_then_clear(self.walls.walls_above, above_bits(corner_idx, orientation));
            lemma_set_then_clear(self.walls.walls_right, right_bits(corner_idx, orientation));
            lemma_set_then_clear64(self.walls.corners, 1u64 << corner_idx);
        }
    }
}

/// A wall that was accepted leaves both pawns a way to their goal rows.
pub proof fn law_accepted_wall_keeps_paths(b: Board, white: bool, mv: Move)
    requires
        mv is Wall,
        b.after_move(white, mv).1,
    ensures
        b.after_move(white, mv).0.both_reach(),
{
    if let Move::Wall { corner_idx, orientation } = mv {
        let placed = Board { walls: walls_with(b.walls, corner_idx, orientation), ..b };
        let after = b.after_move(white, mv).0;
        after.lemma_reaches_same_walls(placed);
        assert(after.white.position_idx == placed.white.position_idx);
        assert(after.black.position_idx == placed.black.position_idx);
    }
}

/// A pawn move from `from` to `to`.
pub open spec fn pawn(from: u8, to: int) -> Move {
    Move::Pawn { from, to: to as u8 }
}

/// A one-move list if `cond` holds, else an empty one.
pub open spec fn move_if(cond: bool, mv: Move) -> Seq<Move> {
    if cond {
        seq![mv]
    } else {
        Seq::empty()
    }
}

impl Board {
    /// Moves upwards from `my`: one step, or a jump over the opponent right
    /// above, or, when a wall stands behind the opponent, a diagonal step
    /// to the right and one to the left of the opponent.
    pub open spec fn up_moves(self, my: u8, opp: u8) -> Seq<Move> {
        if self.blocked_up(my as int) {
            Seq::empty()
        } else if my + 9 != opp {
            seq![pawn(my, my + 9)]
        } else if !self.blocked_up(opp as int) {
            seq![pawn(my, opp + 9)]
        } else {
            move_if(!self.blocked_right(opp as int), pawn(my, opp + 1)) + move_if(
                !self.blocked_left(opp as int),
                pawn(my, opp - 1),
            )
        }
    }

    /// Moves downwards from `my`, by the same rules.
    pub open spec fn down_moves(self, my: u8, opp: u8) -> Seq<Move> {
        if self.blocked_down(my as int) {
            Seq::empty()
        } else if my - 9 != opp {
            seq![pawn(my, my - 9)]
        } else if !self.blocked_down(opp as int) {
            seq![pawn(my, opp - 9)]
        } else {
            move_if(!self.blocked_right(opp as int), pawn(my, opp + 1)) + move_if(
                !self.blocked_left(opp as int),
                pawn(my, opp - 1),
            )
        }
    }

    /// Moves to the right of `my`; the diagonal steps go up, then down.
    pub open spec fn right_moves(self, my: u8, opp: u8) -> Seq<Move> {
        if self.blocked_right(my as int) {
            Seq::empty()
        } else if my + 1 != opp {
            seq![pawn(my, my + 1)]
        } else if !self.blocked_right(opp as int) {
            seq![pawn(my, opp + 1)]
        } else {
            move_if(!self.blocked_up(opp as int), pawn(my, opp + 9)) + move_if(
                !self.blocked_down(opp as int),
                pawn(my, opp - 9),
            )
        }
    }

    /// Moves to the left of `my`; the diagonal steps go up, then down.
    pub open spec fn left_moves(self, my: u8, opp: u8) -> Seq<Move> {
        if self.blocked_left(my as int) {
            Seq::empty()
        } else if my - 1 != opp {
            seq![pawn(my, my - 1)]
        } else if !self.blocked_left(opp as int) {
            seq![pawn(my, opp - 1)]
        } else {
            move_if(!self.blocked_up(opp as int), pawn(my, opp + 9)) + move_if(
                !self.blocked_down(opp as int),
                pawn(my, opp - 9),
            )
        }
    }

    /// The pawn moves from `my` with the opponent on `opp`: up, down, left, right.
    pub open spec fn pawn_moves(self, my: u8, opp: u8) -> Seq<Move> {
        self.up_moves(my, opp) + self.down_moves(my, opp) + self.left_moves(my, opp)
            + self.right_moves(my, opp)
    }

    /// The walls that may go on corner `c`: none if a wall already sits on
    /// the corner; else the horizontal one if both edges it covers are free,
    /// then the vertical one likewise.
    pub open spec fn corner_walls(self, c: u8) -> Seq<Move> {
        let sq = corner_square(c);
        if self.walls.corners & (1u64 << c) != 0 {
            Seq::empty()
        } else {
            move_if(
                self.walls.walls_above & (1u128 << sq) == 0 && self.walls.walls_above & (1u128 << (sq
                    + 1) as u8) == 0,
                Move::Wall { corner_idx: c, orientation: Orientation::Horizontal },
            ) + move_if(
                self.walls.walls_right & (1u128 << sq) == 0 && self.walls.walls_right & (1u128 << (sq
                    + 9) as u8) == 0,
                Move::Wall { corner_idx: c, orientation: Orientation::Vertical },
            )
        }
    }

    /// The walls that may go on corners `0..n`, corner by corner.
    pub open spec fn walls_upto(self, n: nat) -> Seq<Move>
        decreases n,
    {
        if n == 0 {
            Seq::empty()
        } else {
            self.walls_upto((n - 1) as nat) + self.corner_walls((n - 1) as u8)
        }
    }

    /// The candidate moves of the given side: its pawn moves, then, if it has
    /// walls left, every wall whose corner and edges are free. A candidate
    /// wall may still be refused by [`Board::make_move`].
    pub open spec fn candidates(self, white: bool) -> Seq<Move> {
        self.pawn_moves(self.pos(white), self.pos(!white)) + if self.walls_left(white) != 0 {
            self.walls_upto(64)
        } else {
            Seq::empty()
        }
    }

    /// Each wall among the walls of corners `0..n` sits on a corner below
    /// `n` and on edges that are all free.
    proof fn lemma_walls_upto_facts(self, n: nat)
        requires
            n <= 64,
        ensures
            forall|i: int|
                0 <= i < self.walls_upto(n).len() ==> (#[trigger] self.walls_upto(n)[i] matches Move::Wall {
                    corner_idx,
                    orientation,
                } && corner_idx < n && wall_is_free(self.walls, corner_idx, orientation)),
        decreases n,
    {
        if n > 0 {
            let c = (n - 1) as u8;
            self.lemma_walls_upto_facts((n - 1) as nat);
            let sq = corner_square(c);
            lemma_wall_bits_clear(self.walls.walls_above, sq);
            lemma_wall_bits_clear(self.walls.walls_right, sq);
            let prev = self.walls_upto((n - 1) as nat);
            let cw = self.corner_walls(c);
            assert forall|i: int| 0 <= i < self.walls_upto(n).len() implies (
            #[trigger] self.walls_upto(n)[i] matches Move::Wall { corner_idx, orientation }
                && corner_idx < n && wall_is_free(self.walls, corner_idx, orientation)) by {
                if i >= prev.len() {
                    assert(self.walls_upto(n)[i] == cw[i - prev.len()]);
                } else {
                    assert(self.walls_upto(n)[i] == prev[i]);
                }
            }
        }
    }

    /// Each candidate move of the given side is one that [`Board::make_move`]
    /// and [`Board::unmake_move`] can take back: a pawn move leaves from the
    /// side's cell for a cell of the board, and a wall sits on one of the 64
    /// corners, on edges that are all free.
    pub proof fn lemma_candidate_facts(self, white: bool)
        requires
            self.wf(),
        ensures
            forall|i: int|
                0 <= i < self.candidates(white).len() ==> match #[trigger] self.candidates(white)[i] {
                    Move::Pawn { from, to } => from == self.pos(white) && to < 81,
                    Move::Wall { corner_idx, orientation } => corner_idx < 64 && wall_is_free(
                        self.walls,
                        corner_idx,
                        orientation,
                    ) && self.walls_left(white) != 0,
                },
    {
        let my = self.pos(white);
        let opp = self.pos(!white);
        let pm = self.pawn_moves(my, opp);
        let ws = if self.walls_left(white) != 0 {
            self.walls_upto(64)
        } else {
            Seq::empty()
        };
        self.lemma_walls_upto_facts(64);
        assert(self.candidates(white) == pm + ws);
        assert forall|i: int| 0 <= i < pm.len() implies (#[trigger] pm[i] matches Move::Pawn {
            from,
            to,
        } && from == my && to < 81) by {
            let a = self.up_moves(my, opp);
            let b = self.down_moves(my, opp);
            let c = self.left_moves(my, opp);
            let d = self.right_moves(my, opp);
            assert(pm == a + b + c + d);
            if i < a.len() {
                assert(pm[i] == a[i]);
            } else if i < a.len() + b.len() {
                assert(pm[i] == b[i - a.len()]);
            } else if i < a.len() + b.len() + c.len() {
                assert(pm[i] == c[i - a.len() - b.len()]);
            } else {
                assert(pm[i] == d[i - a.len() - b.len() - c.len()]);
            }
        }
        assert forall|i: int| 0 <= i < self.candidates(white).len() implies match #[trigger] self.candidates(white)[i] {
            Move::Pawn { from, to } => from == self.pos(white) && to < 81,
            Move::Wall { corner_idx, orientation } => corner_idx < 64 && wall_is_free(
                self.walls,
                corner_idx,
                orientation,
            ) && self.walls_left(white) != 0,
        } by {
            if i < pm.len() {
                assert(self.candidates(white)[i] == pm[i]);
            } else {
                assert(self.candidates(white)[i] == ws[i - pm.len()]);
            }
        }
    }

    proof fn lemma_walls_upto_len(self, n: nat)
        ensures
            self.walls_upto(n).len() <= 2 * n,
        decreases n,
    {
        if n > 0 {
            self.lemma_walls_upto_len((n - 1) as nat);
        }
    }

    fn add_available_up_moves(&self, my_idx: u8, opponent_idx: u8, moves: &mut ArrayVec<Move, 133>)
        requires
            my_idx < 81,
            opponent_idx < 81,
            move_list_items(*old(moves)).len() + 2 <= 133,
        ensures
            move_list_items(*final(moves)) == move_list_items(*old(moves)) + self.up_moves(
                my_idx,
                opponent_idx,
            ),
    {
        let ghost start = move_list_items(*moves);
        if !self.wall_above(my_idx) {
            if my_idx + 9 != opponent_idx {
                push_move(moves, Move::Pawn { from: my_idx, to: my_idx + 9 });
            } else {
                if !self.wall_above(opponent_idx) {
                    push_move(moves, Move::Pawn { from: my_idx, to: opponent_idx + 9 });
                } else {
                    if !self.wall_right(opponent_idx) {
                        push_move(moves, Move::Pawn { from: my_idx, to: opponent_idx + 1 });
                    }
                    if !self.wall_left(opponent_idx) {
                        push_move(moves, Move::Pawn { from: my_idx, to: opponent_idx - 1 });
                    }
                }
            }
        }
        assert(move_list_items(*moves) =~= start + self.up_moves(my_idx, opponent_idx));
    }

    fn add_available_down_moves(&self, my_idx: u8, opponent_idx: u8, moves: &mut ArrayVec<Move, 133>)
        requires
            my_idx < 81,
            opponent_idx < 81,
            move_list_items(*old(moves)).len() + 2 <= 133,
        ensures
            move_list_items(*final(moves)) == move_list_items(*old(moves)) + self.down_moves(
                my_idx,
                opponent_idx,
            ),
    {
        let ghost start = move_list_items(*moves);
        if !self.wall_below(my_idx) {
            if my_idx - 9 != opponent_idx {
                push_move(moves, Move::Pawn { from: my_idx, to: my_idx - 9 });
            } else {
                if !self.wall_below(opponent_idx) {
                    push_move(moves, Move::Pawn { from: my_idx, to: opponent_idx - 9 });
                } else {
                    if !self.wall_right(opponent_idx) {
                        push_move(moves, Move::Pawn { from: my_idx, to: opponent_idx + 1 });
                    }
                    if !self.wall_left(opponent_idx) {
                        push_move(moves, Move::Pawn { from: my_idx, to: opponent_idx - 1 });
                    }
                }
            }
        }
        assert(move_list_items(*moves) =~= start + self.down_moves(my_idx, opponent_idx));
    }

    fn add_available_right_moves(&self, my_idx: u8, opponent_idx: u8, moves: &mut ArrayVec<Move, 133>)
        requires
            my_idx < 81,
            opponent_idx < 81,
            move_list_items(*old(moves)).len() + 2 <= 133,
        ensures
            move_list_items(*final(moves)) == move_list_items(*old(moves)) + self.right_moves(
                my_idx,
                opponent_idx,
            ),
    {
        let ghost start = move_list_items(*moves);
        if !self.wall_right(my_idx) {
            if my_idx + 1 != opponent_idx {
                push_move(moves, Move::Pawn { from: my_idx, to: my_idx + 1 });
            } else {
                if !self.wall_right(opponent_idx) {
                    push_move(moves, Move::Pawn { from: my_idx, to: opponent_idx + 1 });
                } else {
                    if !self.wall_above(opponent_idx) {
                        push_move(moves, Move::Pawn { from: my_idx, to: opponent_idx + 9 });
                    }
                    if !self.wall_below(opponent_idx) {
                        push_move(moves, Move::Pawn { from: my_idx, to: opponent_idx - 9 });
                    }
                }
            }
        }
        assert(move_list_items(*moves) =~= start + self.right_moves(my_idx, opponent_idx));
    }

    fn add_available_left_moves(&self, my_idx: u8, opponent_idx: u8, moves: &mut ArrayVec<Move, 133>)
        requires
            my_idx < 81,
            opponent_idx < 81,
            move_list_items(*old(moves)).len() + 2 <= 133,
        ensures
            move_list_items(*final(moves)) == move_list_items(*old(moves)) + self.left_moves(
                my_idx,
                opponent_idx,
            ),
    {
        let ghost start = move_list_items(*moves);
        if !self.wall_left(my_idx) {
            if my_idx - 1 != opponent_idx {
                push_move(moves, Move::Pawn { from: my_idx, to: my_idx - 1 });
            } else {
                if !self.wall_left(opponent_idx) {
                    push_move(moves, Move::Pawn { from: my_idx, to: opponent_idx - 1 });
                } else {
                    if !self.wall_above(opponent_idx) {
                        push_move(moves, Move::Pawn { from: my_idx, to: opponent_idx + 9 });
                    }
                    if !self.wall_below(opponent_idx) {
                        push_move(moves, Move::Pawn { from: my_idx, to: opponent_idx - 9 });
                    }
                }
            }
        }
        assert(move_list_items(*moves) =~= start + self.left_moves(my_idx, opponent_idx));
    }

    fn add_available_pawn_moves(&self, my_idx: u8, opponent_idx: u8, moves: &mut ArrayVec<Move, 133>)
        requires
            my_idx < 81,
            opponent_idx < 81,
            move_list_items(*old(moves)).len() == 0,
        ensures
            move_list_items(*final(moves)) == self.pawn_moves(my_idx, opponent_idx),
            move_list_items(*final(moves)).len() <= 5,
    {
        let ghost a = self.up_moves(my_idx, opponent_idx);
        let ghost b = self.down_moves(my_idx, opponent_idx);
        let ghost c = self.left_moves(my_idx, opponent_idx);
        let ghost d = self.right_moves(my_idx, opponent_idx);
        assert(a.len() <= if my_idx + 9 == opponent_idx { 2int } else { 1int });
        assert(b.len() <= if my_idx - 9 == opponent_idx { 2int } else { 1int });
        assert(c.len() <= if my_idx - 1 == opponent_idx { 2int } else { 1int });
        assert(d.len() <= if my_idx + 1 == opponent_idx { 2int } else { 1int });
        self.add_available_up_moves(my_idx, opponent_idx, moves);
        self.add_available_down_moves(my_idx, opponent_idx, moves);
        self.add_available_left_moves(my_idx, opponent_idx, moves);
        self.add_available_right_moves(my_idx, opponent_idx, moves);
        assert(move_list_items(*moves) =~= a + b + c + d);
    }

    fn add_available_candidate_wall_moves(&self, moves: &mut ArrayVec<Move, 133>)
        requires
            move_list_items(*old(moves)).len() <= 5,
        ensures
            move_list_items(*final(moves)) == move_list_items(*old(moves)) + self.walls_upto(64),
    {
        let ghost start = move_list_items(*moves);
        let mut corner_idx: u8 = 0;
        while corner_idx < 64
            invariant
                corner_idx <= 64,
                start.len() <= 5,
                move_list_items(*moves) == start + self.walls_upto(corner_idx as nat),
            decreases 64 - corner_idx,
        {
            proof {
                self.lemma_walls_upto_len(corner_idx as nat);
            }
            let ghost before = move_list_items(*moves);
            if (self.walls.corners & (1u64 << corner_idx)) == 0 {
                let square_idx = (corner_idx / 8) * 9 + (corner_idx % 8);
                if ((self.walls.walls_above & (1u128 << square_idx)) == 0) && ((self.walls.walls_above
                    & (1u128 << (square_idx + 1))) == 0) {
                    push_move(
                        moves,
                        Move::Wall { corner_idx, orientation: Orientation::Horizontal },
                    );
                }
                if ((self.walls.walls_right & (1u128 << square_idx)) == 0) && ((self.walls.walls_right
                    & (1u128 << (square_idx + 9))) == 0) {
                    push_move(moves, Move::Wall { corner_idx, orientation: Orientation::Vertical });
                }
            }
            assert(move_list_items(*moves) =~= before + self.corner_walls(corner_idx));
            assert(self.walls_upto((corner_idx + 1) as nat) == self.walls_upto(corner_idx as nat)
                + self.corner_walls(corner_idx));
            corner_idx = corner_idx + 1;
        }
    }

    /// The candidate moves of the given side (see [`Board::candidates`]).
    pub fn get_available_candidate_moves(&self, is_white_turn: bool) -> (moves: ArrayVec<Move, 133>)
        requires
            self.wf(),
        ensures
            move_list_items(moves) == self.candidates(is_white_turn),
    {
        let mut moves = new_move_list();
        let (my_idx, opponent_idx) = if is_white_turn {
            (self.white.position_idx, self.black.position_idx)
        } else {
            (self.black.position_idx, self.white.position_idx)
        };
        self.add_available_pawn_moves(my_idx, opponent_idx, &mut moves);
        if (is_white_turn && (self.white.walls_remaining != 0)) || (!is_white_turn
            && (self.black.walls_remaining != 0)) {
            self.add_available_candidate_wall_moves(&mut moves);
        } else {
            assert(move_list_items(moves) =~= move_list_items(moves) + Seq::<Move>::empty());
        }
        moves
    }
}


/// A pawn move `m` from `my`, with the opponent on `opp`, obeys the rules of
/// movement: it leaves from `my`, does not land on the opponent, and goes
/// either one step through an open edge, or over the opponent, who stands
/// one open step away, to a cell one open step beyond.
pub open spec fn legal_pawn_move(b: Board, my: u8, opp: u8, m: Move) -> bool {
    m matches Move::Pawn { from, to } && {
        &&& from == my
        &&& to != opp
        &&& to < 81
        &&& (b.step(my as int, to as int) || (b.step(my as int, opp as int) && b.step(
            opp as int,
            to as int,
        )))
    }
}

proof fn lemma_concat_contains<A>(s: Seq<A>, t: Seq<A>, x: A)
    ensures
        s.contains(x) ==> (s + t).contains(x),
        t.contains(x) ==> (s + t).contains(x),
{
    if s.contains(x) {
        let i = choose|i: int| 0 <= i < s.len() && s[i] == x;
        assert((s + t)[i] == x);
    }
    if t.contains(x) {
        let i = choose|i: int| 0 <= i < t.len() && t[i] == x;
        assert((s + t)[s.len() + i] == x);
    }
}

impl Board {
    proof fn lemma_dir_moves_legal(self, my: u8, opp: u8)
        requires
            my < 81,
            opp < 81,
            my != opp,
        ensures
            forall|k: int|
                0 <= k < self.up_moves(my, opp).len() ==> legal_pawn_move(
                    self,
                    my,
                    opp,
                    #[trigger] self.up_moves(my, opp)[k],
                ),
            forall|k: int|
                0 <= k < self.down_moves(my, opp).len() ==> legal_pawn_move(
                    self,
                    my,
                    opp,
                    #[trigger] self.down_moves(my, opp)[k],
                ),
            forall|k: int|
                0 <= k < self.left_moves(my, opp).len() ==> legal_pawn_move(
                    self,
                    my,
                    opp,
                    #[trigger] self.left_moves(my, opp)[k],
                ),
            forall|k: int|
                0 <= k < self.right_moves(my, opp).len() ==> legal_pawn_move(
                    self,
                    my,
                    opp,
                    #[trigger] self.right_moves(my, opp)[k],
                ),
    {
        let o = opp as int;
        assert forall|k: int| 0 <= k < self.up_moves(my, opp).len() implies legal_pawn_move(
            self,
            my,
            opp,
            #[trigger] self.up_moves(my, opp)[k],
        ) by {
            if !self.blocked_up(my as int) && my + 9 == opp && self.blocked_up(o) {
                let r = move_if(!self.blocked_right(o), pawn(my, opp + 1));
                let l = move_if(!self.blocked_left(o), pawn(my, opp - 1));
                assert(self.up_moves(my, opp) == r + l);
                if k < r.len() {
                    assert(self.up_moves(my, opp)[k] == r[k]);
                } else {
                    assert(self.up_moves(my, opp)[k] == l[k - r.len()]);
                }
            }
        }
        assert forall|k: int| 0 <= k < self.down_moves(my, opp).len() implies legal_pawn_move(
            self,
            my,
            opp,
            #[trigger] self.down_moves(my, opp)[k],
        ) by {
            if !self.blocked_down(my as int) && my - 9 == opp && self.blocked_down(o) {
                let r = move_if(!self.blocked_right(o), pawn(my, opp + 1));
                let l = move_if(!self.blocked_left(o), pawn(my, opp - 1));
                assert(self.down_moves(my, opp) == r + l);
                if k < r.len() {
                    assert(self.down_moves(my, opp)[k] == r[k]);
                } else {
                    assert(self.down_moves(my, opp)[k] == l[k - r.len()]);
                }
            }
        }
        assert forall|k: int| 0 <= k < self.left_moves(my, opp).len() implies legal_pawn_move(
            self,
            my,
            opp,
            #[trigger] self.left_moves(my, opp)[k],
        ) by {
            if !self.blocked_left(my as int) && my - 1 == opp && self.blocked_left(o) {
                let u = move_if(!self.blocked_up(o), pawn(my, opp + 9));
                let d = move_if(!self.blocked_down(o), pawn(my, opp - 9));
                assert(self.left_moves(my, opp) == u + d);
                if k < u.len() {
                    assert(self.left_moves(my, opp)[k] == u[k]);
                } else {
                    assert(self.left_moves(my, opp)[k] == d[k - u.len()]);
                }
            }
        }
        assert forall|k: int| 0 <= k < self.right_moves(my, opp).len() implies legal_pawn_move(
            self,
            my,
            opp,
            #[trigger] self.right_moves(my, opp)[k],
        ) by {
            if !self.blocked_right(my as int) && my + 1 == opp && self.blocked_right(o) {
                let u = move_if(!self.blocked_up(o), pawn(my, opp + 9));
                let d = move_if(!self.blocked_down(o), pawn(my, opp - 9));
                assert(self.right_moves(my, opp) == u + d);
                if k < u.len() {
                    assert(self.right_moves(my, opp)[k] == u[k]);
                } else {
                    assert(self.right_moves(my, opp)[k] == d[k - u.len()]);
                }
            }
        }
    }

    proof fn lemma_dir_move_is_candidate(self, white: bool, x: Move)
        requires
            self.up_moves(self.pos(white), self.pos(!white)).contains(x) || self.down_moves(
                self.pos(white),
                self.pos(!white),
            ).contains(x) || self.left_moves(self.pos(white), self.pos(!white)).contains(x)
                || self.right_moves(self.pos(white), self.pos(!white)).contains(x),
        ensures
            self.candidates(white).contains(x),
    {
        let my = self.pos(white);
        let opp = self.pos(!white);
        let a = self.up_moves(my, opp);
        let b = self.down_moves(my, opp);
        let c = self.left_moves(my, opp);
        let d = self.right_moves(my, opp);
        let ws = if self.walls_left(white) != 0 {
            self.walls_upto(64)
        } else {
            Seq::empty()
        };
        lemma_concat_contains(a, b, x);
        lemma_concat_contains(a + b, c, x);
        lemma_concat_contains(a + b + c, d, x);
        lemma_concat_contains(a + b + c + d, ws, x);
    }
}

/// Every pawn move among the candidates of a side obeys the rules of
/// movement ([`legal_pawn_move`]): in particular, none lands on the
/// opponent's cell.
pub proof fn law_pawn_candidates_are_legal(b: Board, white: bool)
    requires
        b.wf(),
        b.pos(true) != b.pos(false),
    ensures
        forall|i: int|
            0 <= i < b.candidates(white).len() && (#[trigger] b.candidates(white)[i]) is Pawn
                ==> legal_pawn_move(b, b.pos(white), b.pos(!white), b.candidates(white)[i]),
{
    let my = b.pos(white);
    let opp = b.pos(!white);
    b.lemma_dir_moves_legal(my, opp);
    b.lemma_walls_upto_facts(64);
    let a = b.up_moves(my, opp);
    let bb = b.down_moves(my, opp);
    let c = b.left_moves(my, opp);
    let d = b.right_moves(my, opp);
    let pm = b.pawn_moves(my, opp);
    let ws = if b.walls_left(white) != 0 {
        b.walls_upto(64)
    } else {
        Seq::empty()
    };
    assert(b.candidates(white) == pm + ws);
    assert(pm == a + bb + c + d);
    assert forall|i: int|
        0 <= i < b.candidates(white).len() && (#[trigger] b.candidates(white)[i]) is Pawn implies legal_pawn_move(
        b,
        my,
        opp,
        b.candidates(white)[i],
    ) by {
        if i < pm.len() {
            assert(b.candidates(white)[i] == pm[i]);
            if i < a.len() {
                assert(pm[i] == a[i]);
            } else if i < a.len() + bb.len() {
                assert(pm[i] == bb[i - a.len()]);
            } else if i < a.len() + bb.len() + c.len() {
                assert(pm[i] == c[i - a.len() - bb.len()]);
            } else {
                assert(pm[i] == d[i - a.len() - bb.len() - c.len()]);
            }
        } else {
            assert(b.candidates(white)[i] == ws[i - pm.len()]);
        }
    }
}

/// The candidates of a side hold every pawn move the rules allow: a step
/// through an open edge to a cell the opponent does not hold; a jump
/// straight over an opponent one open step away when the edge behind the
/// opponent is open; and, when that edge is closed, the sideways steps from
/// the opponent's cell through open edges.
pub proof fn law_pawn_candidates_are_complete(b: Board, white: bool)
    requires
        b.wf(),
        b.pos(true) != b.pos(false),
    ensures
        ({
            let my = b.pos(white) as int;
            let opp = b.pos(!white) as int;
            &&& forall|to: int|
                b.step(my, to) && to != opp ==> #[trigger] b.candidates(white).contains(pawn(my as u8, to))
            &&& (opp == my + 9 && !b.blocked_up(my) && !b.blocked_up(opp)) ==> b.candidates(
                white,
            ).contains(pawn(my as u8, opp + 9))
            &&& (opp == my - 9 && !b.blocked_down(my) && !b.blocked_down(opp)) ==> b.candidates(
                white,
            ).contains(pawn(my as u8, opp - 9))
            &&& (opp == my + 1 && !b.blocked_right(my) && !b.blocked_right(opp)) ==> b.candidates(
                white,
            ).contains(pawn(my as u8, opp + 1))
            &&& (opp == my - 1 && !b.blocked_left(my) && !b.blocked_left(opp)) ==> b.candidates(
                white,
            ).contains(pawn(my as u8, opp - 1))
            &&& ((opp == my + 9 && !b.blocked_up(my) && b.blocked_up(opp)) || (opp == my - 9
                && !b.blocked_down(my) && b.blocked_down(opp))) ==> (!b.blocked_right(opp)
                ==> b.candidates(white).contains(pawn(my as u8, opp + 1))) && (!b.blocked_left(opp)
                ==> b.candidates(white).contains(pawn(my as u8, opp - 1)))
            &&& ((opp == my + 1 && !b.blocked_right(my) && b.blocked_right(opp)) || (opp == my - 1
                && !b.blocked_left(my) && b.blocked_left(opp))) ==> (!b.blocked_up(opp)
                ==> b.candidates(white).contains(pawn(my as u8, opp + 9))) && (!b.blocked_down(opp)
                ==> b.candidates(white).contains(pawn(my as u8, opp - 9)))
        }),
{
    let my = b.pos(white);
    let opp = b.pos(!white);
    let o = opp as int;
    assert forall|to: int|
        b.step(my as int, to) && to != o implies #[trigger] b.candidates(white).contains(
        pawn(my, to),
    ) by {
        if to == my + 9 && !b.blocked_up(my as int) {
            assert(b.up_moves(my, opp)[0] == pawn(my, to));
        } else if to == my - 9 && !b.blocked_down(my as int) {
            assert(b.down_moves(my, opp)[0] == pawn(my, to));
        } else if to == my + 1 && !b.blocked_right(my as int) {
            assert(b.right_moves(my, opp)[0] == pawn(my, to));
        } else {
            assert(b.left_moves(my, opp)[0] == pawn(my, to));
        }
        b.lemma_dir_move_is_candidate(white, pawn(my, to));
    }
    if o == my + 9 && !b.blocked_up(my as int) {
        let up = b.up_moves(my, opp);
        if !b.blocked_up(o) {
            assert(up[0] == pawn(my, o + 9));
            b.lemma_dir_move_is_candidate(white, pawn(my, o + 9));
        } else {
            let r = move_if(!b.blocked_right(o), pawn(my, o + 1));
            let l = move_if(!b.blocked_left(o), pawn(my, o - 1));
            assert(up == r + l);
            if !b.blocked_right(o) {
                assert(up[0] == pawn(my, o + 1));
                b.lemma_dir_move_is_candidate(white, pawn(my, o + 1));
            }
            if !b.blocked_left(o) {
                assert(up[r.len() as int] == pawn(my, o - 1));
                b.lemma_dir_move_is_candidate(white, pawn(my, o - 1));
            }
        }
    }
    if o == my - 9 && !b.blocked_down(my as int) {
        let dn = b.down_moves(my, opp);
        if !b.blocked_down(o) {
            assert(dn[0] == pawn(my, o - 9));
            b.lemma_dir_move_is_candidate(white, pawn(my, o - 9));
        } else {
            let r = move_if(!b.blocked_right(o), pawn(my, o + 1));
            let l = move_if(!b.blocked_left(o), pawn(my, o - 1));
            assert(dn == r + l);
            if !b.blocked_right(o) {
                assert(dn[0] == pawn(my, o + 1));
                b.lemma_dir_move_is_candidate(white, pawn(my, o + 1));
            }
            if !b.blocked_left(o) {
                assert(dn[r.len() as int] == pawn(my, o - 1));
                b.lemma_dir_move_is_candidate(white, pawn(my, o - 1));
            }
        }
    }
    if o == my + 1 && !b.blocked_right(my as int) {
        let rt = b.right_moves(my, opp);
        if !b.blocked_right(o) {
            assert(rt[0] == pawn(my, o + 1));
            b.lemma_dir_move_is_candidate(white, pawn(my, o + 1));
        } else {
            let u = move_if(!b.blocked_up(o), pawn(my, o + 9));
            let d = move_if(!b.blocked_down(o), pawn(my, o - 9));
            assert(rt == u + d);
            if !b.blocked_up(o) {
                assert(rt[0] == pawn(my, o + 9));
                b.lemma_dir_move_is_candidate(white, pawn(my, o + 9));
            }
            if !b.blocked_down(o) {
                assert(rt[u.len() as int] == pawn(my, o - 9));
                b.lemma_dir_move_is_candidate(white, pawn(my, o - 9));
            }
        }
    }
    if o == my - 1 && !b.blocked_left(my as int) {
        let lt = b.left_moves(my, opp);
        if !b.blocked_left(o) {
            assert(lt[0] == pawn(my, o - 1));
            b.lemma_dir_move_is_candidate(white, pawn(my, o - 1));
        } else {
            let u = move_if(!b.blocked_up(o), pawn(my, o + 9));
            let d = move_if(!b.blocked_down(o), pawn(my, o - 9));
            assert(lt == u + d);
            if !b.blocked_up(o) {
                assert(lt[0] == pawn(my, o + 9));
                b.lemma_dir_move_is_candidate(white, pawn(my, o + 9));
            }
            if !b.blocked_down(o) {
                assert(lt[u.len() as int] == pawn(my, o - 9));
                b.lemma_dir_move_is_candidate(white, pawn(my, o - 9));
            }
        }
    }
}

/// Making a wall move changes the counts of walls left of the mover only:
/// an accepted wall takes one from the mover's count (the mover had some
/// left), a refused one hands the mover one (the wall is taken back and
/// counted again); the other side's count and both pawns stay as they were.
/// A refused wall on free edges leaves the walls on the board as they were.
pub proof fn law_wall_move_counts(b: Board, white: bool, c: u8, o: Orientation)
    requires
        (if white {
            b.white.walls_remaining
        } else {
            b.black.walls_remaining
        }) >= 1,
        (if white {
            b.white.walls_remaining
        } else {
            b.black.walls_remaining
        }) < 255,
    ensures
        ({
            let (a, ok) = b.after_move(white, Move::Wall { corner_idx: c, orientation: o });
            &&& a.white.position_idx == b.white.position_idx
            &&& a.black.position_idx == b.black.position_idx
            &&& ok && white ==> a.white.walls_remaining == b.white.walls_remaining - 1
                && a.black.walls_remaining == b.black.walls_remaining
            &&& ok && !white ==> a.black.walls_remaining == b.black.walls_remaining - 1
                && a.white.walls_remaining == b.white.walls_remaining
            &&& !ok && white ==> a.white.walls_remaining == b.white.walls_remaining + 1
                && a.black.walls_remaining == b.black.walls_remaining
            &&& !ok && !white ==> a.black.walls_remaining == b.black.walls_remaining + 1
                && a.white.walls_remaining == b.white.walls_remaining
            &&& !ok && wall_is_free(b.walls, c, o) ==> a.walls == b.walls
        }),
{
    let placed = Board { walls: walls_with(b.walls, c, o), ..b };
    if !placed.both_reach() && wall_is_free(b.walls, c, o) {
        lemma_set_then_clear(b.walls.walls_above, above_bits(c, o));
        lemma_set_then_clear(b.walls.walls_right, right_bits(c, o));
        lemma_set_then_clear64(b.walls.corners, 1u64 << c);
    }
}

/// Unmaking a wall move hands the mover one wall back and changes neither
/// the other side's count nor the pawns; unmaking a pawn move puts the
/// mover's pawn back on the cell it left and changes nothing else.
pub proof fn law_unmake_counts(b: Board, white: bool, mv: Move)
    requires
        (if white {
            b.white.walls_remaining
        } else {
            b.black.walls_remaining
        }) < 255,
    ensures
        ({
            let a = b.after_unmake(white, mv);
            &&& mv is Wall && white ==> a.white.walls_remaining == b.white.walls_remaining + 1
                && a.black.walls_remaining == b.black.walls_remaining
                && a.white.position_idx == b.white.position_idx
                && a.black.position_idx == b.black.position_idx
            &&& mv is Wall && !white ==> a.black.walls_remaining == b.black.walls_remaining + 1
                && a.white.walls_remaining == b.white.walls_remaining
                && a.white.position_idx == b.white.position_idx
                && a.black.position_idx == b.black.position_idx
            &&& mv matches Move::Pawn { from, .. } ==> a.walls == b.walls
                && a.white.walls_remaining == b.white.walls_remaining
                && a.black.walls_remaining == b.black.walls_remaining
                && (white ==> a.white.position_idx == from && a.black.position_idx
                == b.black.position_idx) && (!white ==> a.black.position_idx == from
                && a.white.position_idx == b.white.position_idx)
        }),
{
}

/// Making a pawn move puts the mover's pawn on its destination and changes
/// nothing else: the move is always accepted.
pub proof fn law_pawn_move_effect(b: Board, white: bool, from: u8, to: u8)
    ensures
        ({
            let (a, ok) = b.after_move(white, Move::Pawn { from, to });
            &&& ok
            &&& a.walls == b.walls
            &&& a.white.walls_remaining == b.white.walls_remaining
            &&& a.black.walls_remaining == b.black.walls_remaining
            &&& white ==> a.white.position_idx == to && a.black.position_idx == b.black.position_idx
            &&& !white ==> a.black.position_idx == to && a.white.position_idx == b.white.position_idx
        }),
{
}

proof fn lemma_wall_bits_set(x: u128, s: u8)
    requires
        s < 119,
    ensures
        x & (3u128 << s) == 0 ==> x & (1u128 << s) == 0 && x & (1u128 << (s + 1) as u8) == 0,
        x & (513u128 << s) == 0 ==> x & (1u128 << s) == 0 && x & (1u128 << (s + 9) as u8) == 0,
{
    let t = s as u128;
    assert(x & (3u128 << t) == 0 ==> x & (1u128 << t) == 0 && x & (1u128 << (t + 1)) == 0)
        by (bit_vector)
        requires
            t < 119,
    ;
    assert(x & (513u128 << t) == 0 ==> x & (1u128 << t) == 0 && x & (1u128 << (t + 9)) == 0)
        by (bit_vector)
        requires
            t < 119,
    ;
}

impl Board {
    proof fn lemma_walls_upto_has(self, n: nat, c: u8, x: Move)
        requires
            n <= 64,
            c < n,
            self.corner_walls(c).contains(x),
        ensures
            self.walls_upto(n).contains(x),
        decreases n,
    {
        if c < n - 1 {
            self.lemma_walls_upto_has((n - 1) as nat, c, x);
            lemma_concat_contains(self.walls_upto((n - 1) as nat), self.corner_walls((n - 1) as u8), x);
        } else {
            lemma_concat_contains(self.walls_upto((n - 1) as nat), self.corner_walls(c), x);
        }
    }
}

/// A side with walls left has among its candidates every wall whose corner
/// and edges are all free; a side with none left has no wall among them.
pub proof fn law_free_walls_are_candidates(b: Board, white: bool, c: u8, o: Orientation)
    requires
        b.wf(),
        c < 64,
    ensures
        b.walls_left(white) != 0 && wall_is_free(b.walls, c, o) ==> b.candidates(white).contains(
            Move::Wall { corner_idx: c, orientation: o },
        ),
        b.walls_left(white) == 0 ==> forall|i: int|
            0 <= i < b.candidates(white).len() ==> (#[trigger] b.candidates(white)[i]) is Pawn,
{
    let x = Move::Wall { corner_idx: c, orientation: o };
    b.lemma_candidate_facts(white);
    if b.walls_left(white) != 0 && wall_is_free(b.walls, c, o) {
        let sq = corner_square(c);
        lemma_wall_bits_set(b.walls.walls_above, sq);
        lemma_wall_bits_set(b.walls.walls_right, sq);
        let h = move_if(
            b.walls.walls_above & (1u128 << sq) == 0 && b.walls.walls_above & (1u128 << (sq + 1) as u8) == 0,
            Move::Wall { corner_idx: c, orientation: Orientation::Horizontal },
        );
        let v = move_if(
            b.walls.walls_right & (1u128 << sq) == 0 && b.walls.walls_right & (1u128 << (sq + 9) as u8) == 0,
            Move::Wall { corner_idx: c, orientation: Orientation::Vertical },
        );
        assert(b.corner_walls(c) == h + v);
        match o {
            Orientation::Horizontal => {
                assert(h[0] == x);
                lemma_concat_contains(h, v, x);
            },
            Orientation::Vertical => {
                assert(v[0] == x);
                lemma_concat_contains(h, v, x);
            },
        }
        b.lemma_walls_upto_has(64, c, x);
        lemma_concat_contains(
            b.pawn_moves(b.pos(white), b.pos(!white)),
            b.walls_upto(64),
            x,
        );
    }
}

} // verus!

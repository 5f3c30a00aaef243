//! Flood fills over the board: which cells a pawn can reach, and how many
//! rounds of spreading it takes to reach its goal row.
use vstd::prelude::*;
use vstd::set_lib::{lemma_len_subset, set_int_range, lemma_int_range};
use crate::game::bits::{
    cells, has_bit, lemma_and_bit, lemma_bits_ext, lemma_nonzero_bit, lemma_not_bit, lemma_or_bit,
    lemma_shl_bit, lemma_shr_bit, lemma_single_bit, lemma_zero_bits,
};
use crate::game::board::Board;

verus! {

const TOP_MASK: u128 = 0x1FFu128 << 72;

const BOTTOM_MASK: u128 = 0x1FFu128;

const ALL_MASK: u128 = 0x1_FFFF_FFFF_FFFF_FFFF_FFFFu128;

// Must mask these out before shifting left/right to prevent wrapping across rows.
const COL0_MASK: u128 = (1u128 << 0) | (1u128 << 9) | (1u128 << 18) | (1u128 << 27) | (1u128 << 36)
    | (1u128 << 45) | (1u128 << 54) | (1u128 << 63) | (1u128 << 72);

const COL8_MASK: u128 = (1u128 << 8) | (1u128 << 17) | (1u128 << 26) | (1u128 << 35) | (1u128 << 44)
    | (1u128 << 53) | (1u128 << 62) | (1u128 << 71) | (1u128 << 80);

/// Cell `j` lies in the goal row: the top row for white, the bottom row for black.
pub open spec fn in_goal(top: bool, j: int) -> bool {
    if top {
        72 <= j < 81
    } else {
        0 <= j < 9
    }
}

proof fn lemma_masks(i: u128)
    requires
        i < 128,
    ensures
        has_bit(ALL_MASK, i as int) == (i < 81),
        has_bit(TOP_MASK, i as int) == (72 <= i < 81),
        has_bit(BOTTOM_MASK, i as int) == (i < 9),
        i < 81 ==> (has_bit(COL0_MASK, i as int) == (i % 9 == 0)),
        i < 81 ==> (has_bit(COL8_MASK, i as int) == (i % 9 == 8)),
{
    assert(((ALL_MASK >> i) & 1u128 == 1u128) <==> i < 81) by (bit_vector)
        requires
            i < 128,
    ;
    assert(((TOP_MASK >> i) & 1u128 == 1u128) <==> (72 <= i && i < 81)) by (bit_vector)
        requires
            i < 128,
    ;
    assert(((BOTTOM_MASK >> i) & 1u128 == 1u128) <==> i < 9) by (bit_vector)
        requires
            i < 128,
    ;
    assert(i < 81 ==> (((COL0_MASK >> i) & 1u128 == 1u128) <==> i % 9 == 0)) by (bit_vector);
    assert(i < 81 ==> (((COL8_MASK >> i) & 1u128 == 1u128) <==> i % 9 == 8)) by (bit_vector);
}

impl Board {
    /// A pawn may step from cell `i` to the neighbouring cell `j`: no wall
    /// and no edge of the board lies between them.
    pub open spec fn step(self, i: int, j: int) -> bool {
        &&& 0 <= i < 81
        &&& {
            ||| (j == i + 9 && !self.blocked_up(i))
            ||| (j == i - 9 && !self.blocked_down(i))
            ||| (j == i + 1 && !self.blocked_right(i))
            ||| (j == i - 1 && !self.blocked_left(i))
        }
    }

    /// The cells a pawn standing on `start` reaches by a walk of exactly `k`
    /// steps (a walk may come back to a cell it left).
    pub open spec fn walk(self, start: int, k: nat) -> Set<int>
        decreases k,
    {
        if k == 0 {
            Set::empty().insert(start)
        } else {
            Set::new(
                |j: int|
                    exists|i: int| #[trigger] self.walk(start, (k - 1) as nat).contains(i) && self.step(i, j),
            )
        }
    }

    /// The cells reached by walks of at most `k` steps.
    pub open spec fn seen(self, start: int, k: nat) -> Set<int>
        decreases k,
    {
        if k == 0 {
            self.walk(start, 0)
        } else {
            self.seen(start, (k - 1) as nat).union(self.walk(start, k))
        }
    }

    /// Some walk of exactly `k` steps from `start` ends in the goal row.
    pub open spec fn hits(self, start: int, top: bool, k: nat) -> bool {
        exists|j: int| #[trigger] self.walk(start, k).contains(j) && in_goal(top, j)
    }

    /// A pawn on `start` can reach its goal row.
    pub open spec fn reaches(self, start: int, top: bool) -> bool {
        exists|k: nat| #[trigger] self.hits(start, top, k)
    }

    /// The flood fill from `start` stops after `k` rounds: it touched the
    /// goal row, or the last round added no new cell.
    pub open spec fn stops(self, start: int, top: bool, k: nat) -> bool {
        ||| self.hits(start, top, k)
        ||| (k >= 1 && self.seen(start, k) == self.seen(start, (k - 1) as nat))
    }

    /// `d` is the number of rounds the flood fill from `start` runs: the
    /// first round at which it stops.
    pub open spec fn is_search_len(self, start: int, top: bool, d: nat) -> bool {
        &&& self.stops(start, top, d)
        &&& forall|k: nat| k < d ==> !#[trigger] self.stops(start, top, k)
    }

    /// The number of flood-fill rounds from the given side's pawn towards its
    /// goal row (see [`Board::is_search_len`]).
    pub open spec fn dist(self, white: bool) -> nat {
        choose|d: nat| self.is_search_len(self.pos(white) as int, white, d)
    }

    /// Both pawns can still reach their goal rows.
    pub open spec fn both_reach(self) -> bool {
        self.reaches(self.white.position_idx as int, true) && self.reaches(
            self.black.position_idx as int,
            false,
        )
    }
}

impl Board {
    proof fn lemma_step_in_board(self, i: int, j: int)
        requires
            self.step(i, j),
        ensures
            0 <= j < 81,
    {
    }

    proof fn lemma_walk_in_board(self, start: int, k: nat)
        requires
            0 <= start < 81,
        ensures
            forall|j: int| #[trigger] self.walk(start, k).contains(j) ==> 0 <= j < 81,
        decreases k,
    {
        if k > 0 {
            self.lemma_walk_in_board(start, (k - 1) as nat);
            assert forall|j: int| #[trigger] self.walk(start, k).contains(j) implies 0 <= j < 81 by {
                let i = choose|i: int|
                    #[trigger] self.walk(start, (k - 1) as nat).contains(i) && self.step(i, j);
                self.lemma_step_in_board(i, j);
            }
        }
    }

    /// The one-round spreading of a set of cells, computed on its bit mask.
    fn expand(&self, m: u128) -> (r: u128)
        requires
            forall|j: int| #[trigger] has_bit(m, j) ==> j < 81,
        ensures
            cells(r) == Set::new(
                |j: int| exists|i: int| #[trigger] cells(m).contains(i) && self.step(i, j),
            ),
            forall|j: int| #[trigger] has_bit(r, j) ==> j < 81,
    {
        let wr = self.walls.walls_right;
        let wa = self.walls.walls_above;
        let left = ((m & !COL0_MASK) >> 1) & !wr;
        let down = (m >> 9) & !wa;
        let right = ((m & !COL8_MASK) << 1) & !(wr << 1);
        let up = (m << 9) & !(wa << 9);
        let r = (left | down | right | up) & ALL_MASK;
        proof {
            assert forall|j: int| #[trigger] has_bit(r, j) <==> (exists|i: int|
                #[trigger] cells(m).contains(i) && self.step(i, j)) by {
                if 0 <= j < 128 {
                    let k = j as u128;
                    lemma_and_bit(left | down | right | up, ALL_MASK, k);
                    lemma_or_bit(left | down | right, up, k);
                    lemma_or_bit(left | down, right, k);
                    lemma_or_bit(left, down, k);
                    lemma_masks(k);
                    // moving left, from k + 1
                    lemma_and_bit((m & !COL0_MASK) >> 1, !wr, k);
                    lemma_not_bit(wr, k);
                    lemma_shr_bit(m & !COL0_MASK, 1, k);
                    if k + 1 < 128 {
                        lemma_and_bit(m, !COL0_MASK, (k + 1) as u128);
                        lemma_not_bit(COL0_MASK, (k + 1) as u128);
                        lemma_masks((k + 1) as u128);
                    }
                    // moving down, from k + 9
                    lemma_and_bit(m >> 9, !wa, k);
                    lemma_not_bit(wa, k);
                    lemma_shr_bit(m, 9, k);
                    // moving right, from k - 1
                    lemma_and_bit((m & !COL8_MASK) << 1, !(wr << 1), k);
                    lemma_not_bit(wr << 1, k);
                    lemma_shl_bit(m & !COL8_MASK, 1, k);
                    lemma_shl_bit(wr, 1, k);
                    if k >= 1 {
                        lemma_and_bit(m, !COL8_MASK, (k - 1) as u128);
                        lemma_not_bit(COL8_MASK, (k - 1) as u128);
                        lemma_masks((k - 1) as u128);
                    }
                    // moving up, from k - 9
                    lemma_and_bit(m << 9, !(wa << 9), k);
                    lemma_not_bit(wa << 9, k);
                    lemma_shl_bit(m, 9, k);
                    lemma_shl_bit(wa, 9, k);
                    if has_bit(r, j) {
                        if has_bit(left, j) {
                            assert(cells(m).contains(j + 1) && self.step(j + 1, j));
                        } else if has_bit(down, j) {
                            assert(cells(m).contains(j + 9) && self.step(j + 9, j));
                        } else if has_bit(right, j) {
                            assert(cells(m).contains(j - 1) && self.step(j - 1, j));
                        } else {
                            assert(cells(m).contains(j - 9) && self.step(j - 9, j));
                        }
                    }
                    if exists|i: int| #[trigger] cells(m).contains(i) && self.step(i, j) {
                        let i = choose|i: int| #[trigger] cells(m).contains(i) && self.step(i, j);
                        self.lemma_step_in_board(i, j);
                        if j == i - 1 && !self.blocked_left(i) {
                            assert(has_bit(left, j));
                        } else if j == i - 9 && !self.blocked_down(i) {
                            assert(has_bit(down, j));
                        } else if j == i + 1 && !self.blocked_right(i) {
                            assert(has_bit(right, j));
                        } else {
                            assert(has_bit(up, j));
                        }
                    }
                } else {
                    if exists|i: int| #[trigger] cells(m).contains(i) && self.step(i, j) {
                        let i = choose|i: int| #[trigger] cells(m).contains(i) && self.step(i, j);
                        self.lemma_step_in_board(i, j);
                    }
                }
            }
            assert forall|j: int| #[trigger] has_bit(r, j) implies j < 81 by {
                lemma_and_bit(left | down | right | up, ALL_MASK, j as u128);
                lemma_masks(j as u128);
            }
            assert(cells(r) =~= Set::new(
                |j: int| exists|i: int| #[trigger] cells(m).contains(i) && self.step(i, j),
            ));
        }
        r
    }
}

/// Two masks are equal exactly when they hold the same cells.
proof fn lemma_cells_ext(a: u128, b: u128)
    ensures
        (a == b) == (cells(a) == cells(b)),
{
    if cells(a) == cells(b) {
        assert forall|i: int| 0 <= i < 128 implies has_bit(a, i) == has_bit(b, i) by {
            assert(cells(a).contains(i) == cells(b).contains(i));
        }
        lemma_bits_ext(a, b);
    }
}

/// A mask meets the goal row exactly when one of its cells lies there.
proof fn lemma_goal_mask(mask: u128, goal: u128, top: bool)
    requires
        goal == (if top {
            TOP_MASK
        } else {
            BOTTOM_MASK
        }),
    ensures
        ((mask & goal) != 0) == exists|x: int| #[trigger] cells(mask).contains(x) && in_goal(top, x),
{
    lemma_nonzero_bit(mask & goal);
    if (mask & goal) != 0 {
        let x = choose|x: int| has_bit(mask & goal, x);
        lemma_and_bit(mask, goal, x as u128);
        lemma_masks(x as u128);
        assert(cells(mask).contains(x) && in_goal(top, x));
    }
    if exists|x: int| #[trigger] cells(mask).contains(x) && in_goal(top, x) {
        let x = choose|x: int| #[trigger] cells(mask).contains(x) && in_goal(top, x);
        lemma_and_bit(mask, goal, x as u128);
        lemma_masks(x as u128);
        assert(has_bit(mask & goal, x));
    }
}

impl Board {
    proof fn lemma_seen_members(self, start: int, k: nat)
        ensures
            forall|x: int| #[trigger] self.seen(start, k).contains(x) <==> exists|j: nat|
                j <= k && #[trigger] self.walk(start, j).contains(x),
        decreases k,
    {
        if k > 0 {
            self.lemma_seen_members(start, (k - 1) as nat);
            assert forall|x: int| #[trigger] self.seen(start, k).contains(x) <==> exists|j: nat|
                j <= k && #[trigger] self.walk(start, j).contains(x) by {
                if exists|j: nat| j <= k && #[trigger] self.walk(start, j).contains(x) {
                    let j = choose|j: nat| j <= k && #[trigger] self.walk(start, j).contains(x);
                    if j < k {
                        assert(self.seen(start, (k - 1) as nat).contains(x));
                    }
                }
                if self.seen(start, k).contains(x) {
                    if self.seen(start, (k - 1) as nat).contains(x) {
                        let j = choose|j: nat|
                            j <= (k - 1) as nat && #[trigger] self.walk(start, j).contains(x);
                        assert(j <= k && self.walk(start, j).contains(x));
                    } else {
                        assert(self.walk(start, k).contains(x));
                    }
                }
            }
        }
    }

    proof fn lemma_seen_bounded(self, start: int, k: nat)
        requires
            0 <= start < 81,
        ensures
            self.seen(start, k).subset_of(set_int_range(0, 81)),
            self.seen(start, k).finite(),
            self.seen(start, k).len() <= 81,
    {
        self.lemma_seen_members(start, k);
        assert forall|x: int| #[trigger] self.seen(start, k).contains(x) implies set_int_range(
            0,
            81,
        ).contains(x) by {
            let j = choose|j: nat| j <= k && #[trigger] self.walk(start, j).contains(x);
            self.lemma_walk_in_board(start, j);
        }
        lemma_int_range(0, 81);
        lemma_len_subset(self.seen(start, k), set_int_range(0, 81));
    }

    proof fn lemma_closed(self, start: int, k: nat, n: nat)
        requires
            k >= 1,
            self.seen(start, k) == self.seen(start, (k - 1) as nat),
            n >= k,
        ensures
            forall|x: int| #[trigger] self.walk(start, n).contains(x) ==> self.seen(
                start,
                (k - 1) as nat,
            ).contains(x),
        decreases n,
    {
        self.lemma_seen_members(start, k);
        self.lemma_seen_members(start, (k - 1) as nat);
        if n == k {
            assert forall|x: int| #[trigger] self.walk(start, n).contains(x) implies self.seen(
                start,
                (k - 1) as nat,
            ).contains(x) by {
                assert(self.seen(start, k).contains(x));
            }
        } else {
            self.lemma_closed(start, k, (n - 1) as nat);
            assert forall|x: int| #[trigger] self.walk(start, n).contains(x) implies self.seen(
                start,
                (k - 1) as nat,
            ).contains(x) by {
                let i = choose|i: int|
                    #[trigger] self.walk(start, (n - 1) as nat).contains(i) && self.step(i, x);
                assert(self.seen(start, (k - 1) as nat).contains(i));
                let j = choose|j: nat| j <= (k - 1) as nat && #[trigger] self.walk(start, j).contains(i);
                assert(self.walk(start, j + 1).contains(x));
                assert(self.seen(start, k).contains(x));
            }
        }
    }

    /// Once a round adds no new cell and no earlier round touched the goal
    /// row, no walk ever reaches it.
    proof fn lemma_no_reach(self, start: int, top: bool, k: nat)
        requires
            k >= 1,
            self.seen(start, k) == self.seen(start, (k - 1) as nat),
            forall|j: nat| j < k ==> !#[trigger] self.hits(start, top, j),
        ensures
            !self.reaches(start, top),
    {
        self.lemma_seen_members(start, (k - 1) as nat);
        if self.reaches(start, top) {
            let n = choose|n: nat| #[trigger] self.hits(start, top, n);
            let x = choose|x: int| #[trigger] self.walk(start, n).contains(x) && in_goal(top, x);
            if n < k {
                assert(self.hits(start, top, n));
            } else {
                self.lemma_closed(start, k, n);
                assert(self.seen(start, (k - 1) as nat).contains(x));
                let j = choose|j: nat| j <= (k - 1) as nat && #[trigger] self.walk(start, j).contains(x);
                assert(self.hits(start, top, j));
            }
        }
    }

    proof fn lemma_stop_stable(self, s: int, top: bool, count: nat)
        requires
            0 <= s < 81,
            count >= 1,
            self.seen(s, count) == self.seen(s, (count - 1) as nat),
            forall|k: nat| k < count ==> !#[trigger] self.hits(s, top, k),
            forall|k: nat| 1 <= k < count ==> #[trigger] self.seen(s, k) != self.seen(s, (k - 1) as nat),
        ensures
            !self.hits(s, top, count),
            self.is_search_len(s, top, count),
            !self.reaches(s, top),
    {
        self.lemma_no_reach(s, top, count);
        assert forall|k: nat| k < count implies !#[trigger] self.stops(s, top, k) by {
            if k >= 1 {
                assert(self.seen(s, k) != self.seen(s, (k - 1) as nat));
            }
        }
    }

    proof fn lemma_stop_hit(self, s: int, top: bool, count: nat)
        requires
            self.hits(s, top, count),
            forall|k: nat| k < count ==> !#[trigger] self.hits(s, top, k),
            forall|k: nat| 1 <= k < count ==> #[trigger] self.seen(s, k) != self.seen(s, (k - 1) as nat),
        ensures
            self.is_search_len(s, top, count),
            self.reaches(s, top),
    {
        assert forall|k: nat| k < count implies !#[trigger] self.stops(s, top, k) by {
            if k >= 1 {
                assert(self.seen(s, k) != self.seen(s, (k - 1) as nat));
            }
        }
    }

    proof fn lemma_next_round(
        self,
        s: int,
        count: nat,
        old_mask: u128,
        mask: u128,
        old_visited: u128,
        visited: u128,
    )
        requires
            cells(old_mask) == self.walk(s, count),
            cells(old_visited) == self.seen(s, count),
            cells(mask) == Set::new(
                |j: int| exists|i: int| #[trigger] cells(old_mask).contains(i) && self.step(i, j),
            ),
            visited == old_visited | mask,
        ensures
            cells(mask) == self.walk(s, count + 1),
            cells(visited) == self.seen(s, count + 1),
    {
        assert(cells(mask) =~= self.walk(s, count + 1));
        assert forall|x: int| #[trigger] cells(visited).contains(x) == self.seen(s, count + 1).contains(x) by {
            if 0 <= x < 128 {
                lemma_or_bit(old_visited, mask, x as u128);
            }
        }
        assert(cells(visited) =~= self.seen(s, count + 1));
    }

    proof fn lemma_grow(self, s: int, count: nat)
        requires
            0 <= s < 81,
            self.seen(s, count).len() >= count + 1,
        ensures
            self.seen(s, count + 1).len() + (if self.seen(s, count + 1) == self.seen(s, count) {
                1int
            } else {
                0int
            }) >= count + 2,
            self.seen(s, count).len() <= 81,
            count + 1 <= 81,
    {
        self.lemma_seen_bounded(s, count);
        self.lemma_seen_bounded(s, count + 1);
        let a = self.seen(s, count);
        let b = self.seen(s, count + 1);
        if a != b {
            assert(!(b =~= a));
            let x = choose|x: int| !(b.contains(x) == a.contains(x));
            assert(a.subset_of(b.remove(x)));
            lemma_len_subset(a, b.remove(x));
        }
    }

    /// Spreads from `start` one round at a time until the spread touches the
    /// goal row or stops growing; returns whether it touched the goal row
    /// and the number of rounds run.
    fn search(&self, start: u8, top: bool) -> (r: (bool, u8))
        requires
            start < 81,
        ensures
            r.0 == self.hits(start as int, top, r.1 as nat),
            self.is_search_len(start as int, top, r.1 as nat),
            r.0 == self.reaches(start as int, top),
    {
        let goal = if top {
            TOP_MASK
        } else {
            BOTTOM_MASK
        };
        let mut mask: u128 = 1u128 << start;
        let mut prev: u128 = 0;
        let mut visited: u128 = mask;
        let mut count: u8 = 0;
        let ghost s = start as int;
        proof {
            lemma_single_bit(start as u128);
            lemma_zero_bits();
            assert(cells(mask) =~= self.walk(s, 0));
            assert(has_bit(visited, s));
            lemma_nonzero_bit(visited);
            self.lemma_seen_bounded(s, 0);
            assert(self.seen(s, 0).contains(s));
            assert(self.seen(s, 0).len() == 1);
        }
        loop
            invariant
                start < 81,
                s == start as int,
                goal == (if top {
                    TOP_MASK
                } else {
                    BOTTOM_MASK
                }),
                count <= 81,
                cells(mask) == self.walk(s, count as nat),
                cells(visited) == self.seen(s, count as nat),
                count == 0 ==> prev == 0 && visited != 0,
                count >= 1 ==> cells(prev) == self.seen(s, (count - 1) as nat),
                forall|k: nat| k < count ==> !#[trigger] self.hits(s, top, k),
                forall|k: nat|
                    1 <= k < count ==> #[trigger] self.seen(s, k) != self.seen(s, (k - 1) as nat),
                self.seen(s, count as nat).len() + (if visited == prev {
                    1int
                } else {
                    0int
                }) >= count + 1,
            decreases 82 - count,
        {
            proof {
                self.lemma_seen_bounded(s, count as nat);
                self.lemma_walk_in_board(s, count as nat);
                self.lemma_seen_members(s, count as nat);
            }
            if visited == prev {
                proof {
                    self.lemma_stop_stable(s, top, count as nat);
                }
                return (false, count);
            }
            proof {
                lemma_cells_ext(visited, prev);
                lemma_goal_mask(mask, goal, top);
            }
            if (mask & goal) != 0 {
                proof {
                    self.lemma_stop_hit(s, top, count as nat);
                }
                return (true, count);
            }
            proof {
                assert forall|j: int| #[trigger] has_bit(mask, j) implies j < 81 by {
                    assert(cells(mask).contains(j));
                }
            }
            let ghost old_visited = visited;
            let ghost old_mask = mask;
            mask = self.expand(mask);
            prev = visited;
            visited = visited | mask;
            proof {
                self.lemma_next_round(s, count as nat, old_mask, mask, old_visited, visited);
                lemma_cells_ext(visited, prev);
                self.lemma_grow(s, count as nat);
            }
            count = count + 1;
        }
    }
}

impl Board {
    /// Both pawns can still reach their goal rows (white the top row, black
    /// the bottom row).
    pub fn state_valid(&self) -> (b: bool)
        requires
            self.wf(),
        ensures
            b == self.both_reach(),
    {
        let (white_can_reach, _) = self.search(self.white.position_idx, true);
        if !white_can_reach {
            return false;
        }
        let (black_can_reach, _) = self.search(self.black.position_idx, false);
        black_can_reach
    }

    /// The number of flood-fill rounds from each pawn towards its goal row:
    /// its distance to that row when it can reach it.
    pub fn distances(&self) -> (r: (u8, u8))
        requires
            self.wf(),
        ensures
            self.is_search_len(self.white.position_idx as int, true, r.0 as nat),
            self.is_search_len(self.black.position_idx as int, false, r.1 as nat),
            r.0 == self.dist(true),
            r.1 == self.dist(false),
    {
        let (_, white_dist) = self.search(self.white.position_idx, true);
        let (_, black_dist) = self.search(self.black.position_idx, false);
        proof {
            let w = self.dist(true);
            let b = self.dist(false);
            law_search_len_unique(*self, self.white.position_idx as int, true, w, white_dist as nat);
            law_search_len_unique(*self, self.black.position_idx as int, false, b, black_dist as nat);
        }
        (white_dist, black_dist)
    }
}

/// The number of flood-fill rounds is determined by the position.
pub proof fn law_search_len_unique(b: Board, start: int, top: bool, d1: nat, d2: nat)
    requires
        b.is_search_len(start, top, d1),
        b.is_search_len(start, top, d2),
    ensures
        d1 == d2,
{
    if d1 < d2 {
        assert(!b.stops(start, top, d1));
    } else if d2 < d1 {
        assert(!b.stops(start, top, d2));
    }
}

/// When the goal row can be reached, the number of flood-fill rounds is the
/// length of a shortest path to it.
pub proof fn law_search_len_is_distance(b: Board, start: int, top: bool, d: nat)
    requires
        b.is_search_len(start, top, d),
        b.reaches(start, top),
    ensures
        b.hits(start, top, d),
        forall|k: nat| k < d ==> !#[trigger] b.hits(start, top, k),
{
    assert forall|k: nat| k < d implies !#[trigger] b.hits(start, top, k) by {
        assert(!b.stops(start, top, k));
    }
    if !b.hits(start, top, d) {
        b.lemma_no_reach(start, top, d);
    }
}

} // verus!

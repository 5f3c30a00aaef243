//! Static evaluation of a position, from white's point of view: the higher
//! the score, the better for white.
use vstd::prelude::*;
use crate::game::board::Board;

verus! {

/// A static evaluation of positions.
pub trait Evaluator {
    /// The score of `board` with the given side to move.
    spec fn score(&self, board: Board, is_white_turn: bool) -> i32;

    /// Evaluates `board` with the given side to move.
    fn eval(&self, board: &Board, is_white_turn: bool) -> (r: i32)
        requires
            board.wf(),
        ensures
            r == self.score(*board, is_white_turn),
    ;
}

/// The score shared by the evaluators: a side already on its goal row
/// decides it (`i32::MAX` for white, `i32::MIN` for black); else `rest`.
pub open spec fn decided_or(board: Board, rest: int) -> i32 {
    if board.dist(true) == 0 {
        i32::MAX
    } else if board.dist(false) == 0 {
        i32::MIN
    } else {
        rest as i32
    }
}

/// The tempo term: half the distance weight for the side to move.
pub open spec fn tempo(dist_weight: u8, is_white_turn: bool) -> int {
    if is_white_turn {
        (dist_weight / 2) as int
    } else {
        -((dist_weight / 2) as int)
    }
}

/// `weight * diff`, for a difference of two byte-sized counts.
fn weighted(weight: u8, diff: i32) -> (r: i32)
    requires
        -255 <= diff <= 255,
    ensures
        r == weight * diff,
        -65025 <= r <= 65025,
{
    proof {
        assert(-65025 <= weight * diff <= 65025) by (nonlinear_arith)
            requires
                0 <= weight <= 255,
                -255 <= diff <= 255,
        ;
    }
    (weight as i32) * diff
}

/// Scores the difference of the two path lengths, `black_dist - white_dist`.
pub struct BaseEvaluator {}

impl BaseEvaluator {
    pub fn new() -> (e: Self) {
        BaseEvaluator {  }
    }
}

impl Evaluator for BaseEvaluator {
    open spec fn score(&self, board: Board, is_white_turn: bool) -> i32 {
        decided_or(board, board.dist(false) - board.dist(true))
    }

    fn eval(&self, board: &Board, _is_white_turn: bool) -> (r: i32) {
        let (white_dist, black_dist) = board.distances();
        if white_dist == 0 {
            return i32::MAX;
        }
        if black_dist == 0 {
            return i32::MIN;
        }
        (black_dist as i32) - (white_dist as i32)
    }
}

/// Scores the path-length difference times `dist_weight`, plus the
/// difference of walls left times `wall_weight`, plus a tempo bonus.
pub struct SimpleEvaluator {
    pub dist_weight: u8,
    pub wall_weight: u8,
}

impl SimpleEvaluator {
    /// Distance weight 10, wall weight 1.
    pub fn new() -> (e: Self)
        ensures
            e.dist_weight == 10,
            e.wall_weight == 1,
    {
        SimpleEvaluator { dist_weight: 10, wall_weight: 1 }
    }
}

impl Evaluator for SimpleEvaluator {
    open spec fn score(&self, board: Board, is_white_turn: bool) -> i32 {
        decided_or(
            board,
            self.dist_weight * (board.dist(false) - board.dist(true)) + self.wall_weight * (
            board.white.walls_remaining - board.black.walls_remaining) + tempo(
                self.dist_weight,
                is_white_turn,
            ),
        )
    }

    fn eval(&self, board: &Board, is_white_turn: bool) -> (r: i32) {
        let (white_dist, black_dist) = board.distances();
        if white_dist == 0 {
            return i32::MAX;
        }
        if black_dist == 0 {
            return i32::MIN;
        }
        let half = (self.dist_weight / 2) as i32;
        let dist_term = weighted(self.dist_weight, (black_dist as i32) - (white_dist as i32));
        let wall_term = weighted(
            self.wall_weight,
            (board.white_walls_remaining() as i32) - (board.black_walls_remaining() as i32),
        );
        dist_term + wall_term + if is_white_turn {
            half
        } else {
            -half
        }
    }
}

/// Like [`SimpleEvaluator`], but the wall weight depends on the urgency,
/// the shorter of the two path lengths: `wall_weight[urgency]` up to 9,
/// 1 beyond.
pub struct UrgentEvaluator {
    pub dist_weight: u8,
    pub wall_weight: [u8; 10],
}

impl UrgentEvaluator {
    /// Distance weight 10; wall weights 0, 2, 4, 6, 8, 10, 7, 4, 1, 1 by urgency.
    pub fn new() -> (e: Self)
        ensures
            e.dist_weight == 10,
            e.wall_weight@ == seq![0u8, 2, 4, 6, 8, 10, 7, 4, 1, 1],
    {
        let e = UrgentEvaluator { dist_weight: 10, wall_weight: [0, 2, 4, 6, 8, 10, 7, 4, 1, 1] };
        assert(e.wall_weight@ =~= seq![0u8, 2, 4, 6, 8, 10, 7, 4, 1, 1]);
        e
    }

    /// The wall weight at the given urgency.
    pub open spec fn weight_at(&self, urgency: nat) -> int {
        if urgency > 9 {
            1
        } else {
            self.wall_weight@[urgency as int] as int
        }
    }
}

impl Evaluator for UrgentEvaluator {
    open spec fn score(&self, board: Board, is_white_turn: bool) -> i32 {
        let urgency = if board.dist(true) < board.dist(false) {
            board.dist(true)
        } else {
            board.dist(false)
        };
        decided_or(
            board,
            self.dist_weight * (board.dist(false) - board.dist(true)) + self.weight_at(urgency) * (
            board.white.walls_remaining - board.black.walls_remaining) + tempo(
                self.dist_weight,
                is_white_turn,
            ),
        )
    }

    fn eval(&self, board: &Board, is_white_turn: bool) -> (r: i32) {
        let (white_dist, black_dist) = board.distances();
        if white_dist == 0 {
            return i32::MAX;
        }
        if black_dist == 0 {
            return i32::MIN;
        }
        let urgency = if white_dist < black_dist {
            white_dist
        } else {
            black_dist
        };
        let wall_weight: u8 = if urgency > 9 {
            1
        } else {
            self.wall_weight[urgency as usize]
        };
        let half = (self.dist_weight / 2) as i32;
        let dist_term = weighted(self.dist_weight, (black_dist as i32) - (white_dist as i32));
        let wall_term = weighted(
            wall_weight,
            (board.white_walls_remaining() as i32) - (board.black_walls_remaining() as i32),
        );
        dist_term + wall_term + if is_white_turn {
            half
        } else {
            -half
        }
    }
}

/// Every evaluator decides a finished race the same way: a position where
/// white's pawn is on its goal row scores `i32::MAX`; one where black's is
/// and white's is not scores `i32::MIN`. Any other position, with both
/// distances under 256, scores strictly between: it is never taken for a
/// won game.
pub proof fn law_evaluators_decide(
    b: Board,
    is_white_turn: bool,
    base: BaseEvaluator,
    simple: SimpleEvaluator,
    urgent: UrgentEvaluator,
)
    ensures
        b.dist(true) == 0 ==> base.score(b, is_white_turn) == i32::MAX && simple.score(
            b,
            is_white_turn,
        ) == i32::MAX && urgent.score(b, is_white_turn) == i32::MAX,
        b.dist(true) != 0 && b.dist(false) == 0 ==> base.score(b, is_white_turn) == i32::MIN
            && simple.score(b, is_white_turn) == i32::MIN && urgent.score(b, is_white_turn)
            == i32::MIN,
        b.dist(true) != 0 && b.dist(false) != 0 && b.dist(true) < 256 && b.dist(false) < 256 ==> {
            &&& i32::MIN < base.score(b, is_white_turn) < i32::MAX
            &&& i32::MIN < simple.score(b, is_white_turn) < i32::MAX
            &&& i32::MIN < urgent.score(b, is_white_turn) < i32::MAX
        },
{
    if b.dist(true) != 0 && b.dist(false) != 0 && b.dist(true) < 256 && b.dist(false) < 256 {
        let d = b.dist(false) - b.dist(true);
        let w = b.white.walls_remaining - b.black.walls_remaining;
        assert(-65025 <= simple.dist_weight * d <= 65025) by (nonlinear_arith)
            requires
                0 <= simple.dist_weight <= 255,
                -255 <= d <= 255,
        ;
        assert(-65025 <= simple.wall_weight * w <= 65025) by (nonlinear_arith)
            requires
                0 <= simple.wall_weight <= 255,
                -255 <= w <= 255,
        ;
        assert(-65025 <= urgent.dist_weight * d <= 65025) by (nonlinear_arith)
            requires
                0 <= urgent.dist_weight <= 255,
                -255 <= d <= 255,
        ;
        let urgency = if b.dist(true) < b.dist(false) {
            b.dist(true)
        } else {
            b.dist(false)
        };
        let ww = urgent.weight_at(urgency);
        assert(0 <= ww <= 255);
        assert(-65025 <= ww * w <= 65025) by (nonlinear_arith)
            requires
                0 <= ww <= 255,
                -255 <= w <= 255,
        ;
    }
}

/// With neither side home yet and both distances under 256, the base
/// evaluator favours white exactly when white's pawn is closer to its goal
/// row; the weighted evaluators add a tempo bonus, so the side to move
/// changes their score by twice that bonus and nothing else.
pub proof fn law_evaluator_relations(
    b: Board,
    base: BaseEvaluator,
    simple: SimpleEvaluator,
    urgent: UrgentEvaluator,
)
    requires
        b.dist(true) != 0,
        b.dist(false) != 0,
        b.dist(true) < 256,
        b.dist(false) < 256,
    ensures
        base.score(b, true) > 0 <==> b.dist(true) < b.dist(false),
        base.score(b, true) == 0 <==> b.dist(true) == b.dist(false),
        base.score(b, true) == base.score(b, false),
        simple.score(b, true) - simple.score(b, false) == 2 * (simple.dist_weight / 2),
        urgent.score(b, true) - urgent.score(b, false) == 2 * (urgent.dist_weight / 2),
{
    law_evaluators_decide(b, true, base, simple, urgent);
    law_evaluators_decide(b, false, base, simple, urgent);
    let d = b.dist(false) - b.dist(true);
    let w = b.white.walls_remaining - b.black.walls_remaining;
    assert(-65025 <= simple.dist_weight * d <= 65025) by (nonlinear_arith)
        requires
            0 <= simple.dist_weight <= 255,
            -255 <= d <= 255,
    ;
    assert(-65025 <= simple.wall_weight * w <= 65025) by (nonlinear_arith)
        requires
            0 <= simple.wall_weight <= 255,
            -255 <= w <= 255,
    ;
    assert(-65025 <= urgent.dist_weight * d <= 65025) by (nonlinear_arith)
        requires
            0 <= urgent.dist_weight <= 255,
            -255 <= d <= 255,
    ;
    let urgency = if b.dist(true) < b.dist(false) {
        b.dist(true)
    } else {
        b.dist(false)
    };
    let ww = urgent.weight_at(urgency);
    assert(0 <= ww <= 255);
    assert(-65025 <= ww * w <= 65025) by (nonlinear_arith)
        requires
            0 <= ww <= 255,
            -255 <= w <= 255,
    ;
}

/// The scores of a race that neither side has finished (both distances
/// under 256): the base evaluator scores black's distance less white's; the
/// simple one that difference times its distance weight, plus white's walls
/// left less black's times its wall weight, plus half the distance weight
/// for white to move or minus it for black; the urgent one likewise, with
/// the wall weight of the shorter distance (its table's entry up to 9, else
/// 1).
pub proof fn law_evaluator_formulas(
    b: Board,
    is_white_turn: bool,
    base: BaseEvaluator,
    simple: SimpleEvaluator,
    urgent: UrgentEvaluator,
)
    requires
        b.dist(true) != 0,
        b.dist(false) != 0,
        b.dist(true) < 256,
        b.dist(false) < 256,
    ensures
        base.score(b, is_white_turn) == b.dist(false) - b.dist(true),
        simple.score(b, is_white_turn) == simple.dist_weight * (b.dist(false) - b.dist(true))
            + simple.wall_weight * (b.white.walls_remaining - b.black.walls_remaining) + (if is_white_turn {
            (simple.dist_weight / 2) as int
        } else {
            -((simple.dist_weight / 2) as int)
        }),
        ({
            let near = if b.dist(true) <= b.dist(false) {
                b.dist(true)
            } else {
                b.dist(false)
            };
            let weight = if near <= 9 {
                urgent.wall_weight[near as int] as int
            } else {
                1
            };
            urgent.score(b, is_white_turn) == urgent.dist_weight * (b.dist(false) - b.dist(true))
                + weight * (b.white.walls_remaining - b.black.walls_remaining) + (if is_white_turn {
                (urgent.dist_weight / 2) as int
            } else {
                -((urgent.dist_weight / 2) as int)
            })
        }),
{
    law_evaluators_decide(b, is_white_turn, base, simple, urgent);
    let d = b.dist(false) - b.dist(true);
    let w = b.white.walls_remaining - b.black.walls_remaining;
    assert(-65025 <= simple.dist_weight * d <= 65025) by (nonlinear_arith)
        requires
            0 <= simple.dist_weight <= 255,
            -255 <= d <= 255,
    ;
    assert(-65025 <= simple.wall_weight * w <= 65025) by (nonlinear_arith)
        requires
            0 <= simple.wall_weight <= 255,
            -255 <= w <= 255,
    ;
    assert(-65025 <= urgent.dist_weight * d <= 65025) by (nonlinear_arith)
        requires
            0 <= urgent.dist_weight <= 255,
            -255 <= d <= 255,
    ;
    let urgency = if b.dist(true) < b.dist(false) {
        b.dist(true)
    } else {
        b.dist(false)
    };
    let ww = urgent.weight_at(urgency);
    assert(0 <= ww <= 255);
    assert(-65025 <= ww * w <= 65025) by (nonlinear_arith)
        requires
            0 <= ww <= 255,
            -255 <= w <= 255,
    ;
}

} // verus!

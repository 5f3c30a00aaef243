//! A bot that searches the game tree to a fixed depth with alpha-beta pruning.
use vstd::prelude::*;
use crate::ai::evaluator::Evaluator;
use crate::ai::search::{search, search_choice, search_loop, worst, SearchState};
use crate::game::board::Board;
use crate::game::move_list::{move_at, move_list_items, move_list_len};
use crate::game::moves::Move;
use crate::game::player::Player;
use crate::game::state::GameResult;

verus! {

/// Searches `depth` plies deep and scores the horizon with `evaluator`.
pub struct AlphaBetaBot<E: Evaluator> {
    depth: u8,
    evaluator: E,
}

/// Once the loop state has closed its window, later moves change nothing.
proof fn lemma_loop_done_stays<E: Evaluator>(
    e: E,
    b: Board,
    white: bool,
    depth: nat,
    alpha: i32,
    beta: i32,
    k: nat,
    n: nat,
)
    requires
        k <= n,
        search_loop(e, b, white, depth, alpha, beta, k).done,
    ensures
        search_loop(e, b, white, depth, alpha, beta, n) == search_loop(
            e,
            b,
            white,
            depth,
            alpha,
            beta,
            k,
        ),
    decreases n,
{
    if n > k {
        lemma_loop_done_stays(e, b, white, depth, alpha, beta, k, (n - 1) as nat);
    }
}

/// The exec state of a search loop agrees with the spec state `s`.
pub open spec fn agrees(s: SearchState, best: i32, alpha: i32, beta: i32, board: Board) -> bool {
    &&& s.best == best
    &&& s.alpha == alpha
    &&& s.beta == beta
    &&& s.board == board
}

impl<E: Evaluator> AlphaBetaBot<E> {
    #[verifier::type_invariant]
    spec fn depth_in_range(self) -> bool {
        1 <= self.depth <= 201
    }

    /// The search depth.
    pub closed spec fn depth(self) -> u8 {
        self.depth
    }

    /// The evaluator that scores the horizon.
    pub closed spec fn evaluator(self) -> E {
        self.evaluator
    }

    /// A bot searching `depth` plies deep. The depth is at least one (the
    /// root's replies are searched `depth - 1` plies deep) and at most 201
    /// (the scores of won games count the depth left).
    pub fn new(depth: u8, evaluator: E) -> (bot: Self)
        requires
            1 <= depth <= 201,
        ensures
            bot.depth() == depth,
            bot.evaluator() == evaluator,
    {
        AlphaBetaBot { depth, evaluator }
    }

    /// The alpha-beta score of `board` with the given side to move, searched
    /// `depth` plies deep within the window `(alpha, beta)`; the board is left
    /// as [`search`] says: with its layout restored, and its counts of walls
    /// left changed by any refused wall on the way.
    pub fn get_eval(&self, board: &mut Board, is_white: bool, depth: u8, alpha: i32, beta: i32) -> (r: i32)
        requires
            old(board).wf(),
            depth <= 200,
        ensures
            (r, *final(board)) == search(
                self.evaluator(),
                *old(board),
                is_white,
                depth as nat,
                alpha,
                beta,
            ),
            final(board).same_layout(*old(board)),
        decreases depth,
    {
        let ghost b0 = *board;
        let ghost e = self.evaluator();
        match board.check_result() {
            GameResult::WhiteWins => {
                return i32::MAX - 200 + depth as i32;
            },
            GameResult::BlackWins => {
                return i32::MIN + 200 - depth as i32;
            },
            _ => {},
        }
        if depth == 0 {
            return self.evaluator.eval(board, is_white);
        }
        let moves = board.get_available_candidate_moves(is_white);
        proof {
            b0.lemma_candidate_facts(is_white);
        }
        let n = move_list_len(&moves);
        let mut best_eval = if is_white {
            i32::MIN
        } else {
            i32::MAX
        };
        let ghost alpha0 = alpha;
        let ghost beta0 = beta;
        let mut alpha = alpha;
        let mut beta = beta;
        let ghost mut best_move: Option<Move> = None;
        let mut k: usize = 0;
        while k < n
            invariant_except_break
                !search_loop(e, b0, is_white, depth as nat, alpha0, beta0, k as nat).done,
            invariant
                e == self.evaluator(),
                n == b0.candidates(is_white).len(),
                move_list_items(moves) == b0.candidates(is_white),
                k <= n,
                0 < depth <= 200,
                b0.wf(),
                b0.result() is InProgress,
                forall|i: int|
                    0 <= i < b0.candidates(is_white).len() ==> match #[trigger] b0.candidates(
                        is_white,
                    )[i] {
                        Move::Pawn { from, to } => from == b0.pos(is_white) && to < 81,
                        Move::Wall { corner_idx, orientation } => corner_idx < 64
                            && crate::game::moves::wall_is_free(b0.walls, corner_idx, orientation),
                    },
                agrees(
                    search_loop(e, b0, is_white, depth as nat, alpha0, beta0, k as nat),
                    best_eval,
                    alpha,
                    beta,
                    *board,
                ),
                search_loop(e, b0, is_white, depth as nat, alpha0, beta0, k as nat).best_move
                    == best_move,
                best_move is None ==> best_eval == worst(is_white),
                board.same_layout(b0),
            ensures
                agrees(
                    search_loop(e, b0, is_white, depth as nat, alpha0, beta0, n as nat),
                    best_eval,
                    alpha,
                    beta,
                    *board,
                ),
                board.same_layout(b0),
            decreases n - k,
        {
            let mv = move_at(&moves, k);
            let ghost before = *board;
            k = k + 1;
            if !board.make_move(is_white, mv) {
                proof {
                    before.lemma_refused_layout(is_white, mv);
                }
                continue;
            }
            let eval = self.get_eval(board, !is_white, depth - 1, alpha, beta);
            let ghost child_after = *board;
            board.unmake_move(is_white, mv);
            proof {
                before.lemma_unmake_layout(child_after, is_white, mv);
            }
            let ghost improves = best_move is None || (is_white && eval > best_eval) || (!is_white
                && eval < best_eval);
            if (eval > best_eval && is_white) || (eval < best_eval && !is_white) {
                best_eval = eval;
            }
            proof {
                if improves {
                    best_move = Some(mv);
                }
            }
            if is_white {
                if eval > alpha {
                    alpha = eval;
                }
            } else {
                if eval < beta {
                    beta = eval;
                }
            }
            if beta <= alpha {
                proof {
                    lemma_loop_done_stays(
                        e,
                        b0,
                        is_white,
                        depth as nat,
                        alpha0,
                        beta0,
                        k as nat,
                        n as nat,
                    );
                }
                break;
            }
        }
        best_eval
    }
}

impl<E: Evaluator> Player for AlphaBetaBot<E> {
    open spec fn can_move(&self, board: Board, is_white: bool) -> bool {
        true
    }

    /// The move of the root search (see [`search_choice`]): the candidate
    /// moves are searched in order, each `depth - 1` plies deep, and the
    /// first one with the best score is played.
    fn get_move(&mut self, board: &Board, is_white: bool) -> (mv: Move)
        ensures
            search_choice(old(self).evaluator(), *board, is_white, old(self).depth() as nat)
                == Some(mv),
            *final(self) == *old(self),
    {
        proof {
            use_type_invariant(&*self);
        }
        let ghost b0 = *board;
        let ghost e = self.evaluator();
        let ghost depth = self.depth() as nat;
        let moves = board.get_available_candidate_moves(is_white);
        proof {
            b0.lemma_candidate_facts(is_white);
        }
        let n = move_list_len(&moves);
        let mut best_move: Option<Move> = None;
        let mut best_eval = if is_white {
            i32::MIN
        } else {
            i32::MAX
        };
        let mut my_board = *board;
        let mut alpha = i32::MIN;
        let mut beta = i32::MAX;
        let mut k: usize = 0;
        while k < n
            invariant_except_break
                !search_loop(e, b0, is_white, depth, i32::MIN, i32::MAX, k as nat).done,
                best_move is None ==> forall|j: int|
                    0 <= j < k ==> !#[trigger] b0.after_move(is_white, b0.candidates(is_white)[j]).1,
            invariant
                e == self.evaluator(),
                depth == self.depth(),
                1 <= depth <= 201,
                n == b0.candidates(is_white).len(),
                move_list_items(moves) == b0.candidates(is_white),
                k <= n,
                b0.wf(),
                forall|i: int|
                    0 <= i < b0.candidates(is_white).len() ==> match #[trigger] b0.candidates(
                        is_white,
                    )[i] {
                        Move::Pawn { from, to } => from == b0.pos(is_white) && to < 81,
                        Move::Wall { corner_idx, orientation } => corner_idx < 64
                            && crate::game::moves::wall_is_free(b0.walls, corner_idx, orientation),
                    },
                agrees(
                    search_loop(e, b0, is_white, depth, i32::MIN, i32::MAX, k as nat),
                    best_eval,
                    alpha,
                    beta,
                    my_board,
                ),
                search_loop(e, b0, is_white, depth, i32::MIN, i32::MAX, k as nat).best_move
                    == best_move,
                best_move is None ==> best_eval == worst(is_white),
                best_move matches Some(m) ==> b0.is_legal(is_white, m),
                my_board.same_layout(b0),
            ensures
                search_loop(e, b0, is_white, depth, i32::MIN, i32::MAX, n as nat).best_move
                    == best_move,
                best_move is None ==> forall|j: int|
                    0 <= j < n ==> !#[trigger] b0.after_move(is_white, b0.candidates(is_white)[j]).1,
                best_move matches Some(m) ==> b0.is_legal(is_white, m),
            decreases n - k,
        {
            let mv = move_at(&moves, k);
            let ghost before = my_board;
            proof {
                before.lemma_move_same_layout(b0, is_white, mv);
            }
            k = k + 1;
            if !my_board.make_move(is_white, mv) {
                proof {
                    before.lemma_refused_layout(is_white, mv);
                }
                continue;
            }
            let eval = self.get_eval(&mut my_board, !is_white, self.depth - 1, alpha, beta);
            let ghost child_after = my_board;
            my_board.unmake_move(is_white, mv);
            proof {
                before.lemma_unmake_layout(child_after, is_white, mv);
                assert(b0.candidates(is_white)[k - 1] == mv);
            }
            if best_move.is_none() || eval > best_eval && is_white || eval < best_eval && !is_white {
                best_move = Some(mv);
                best_eval = eval;
            }
            if is_white {
                if eval > alpha {
                    alpha = eval;
                }
            } else {
                if eval < beta {
                    beta = eval;
                }
            }
            if beta <= alpha {
                proof {
                    lemma_loop_done_stays(
                        e,
                        b0,
                        is_white,
                        depth,
                        i32::MIN,
                        i32::MAX,
                        k as nat,
                        n as nat,
                    );
                }
                break;
            }
        }
        proof {
            if best_move is None {
                let m = choose|m: Move| #[trigger] b0.is_legal(is_white, m);
                let j = choose|j: int|
                    0 <= j < b0.candidates(is_white).len() && b0.candidates(is_white)[j] == m;
                assert(!b0.after_move(is_white, b0.candidates(is_white)[j]).1);
            }
        }
        best_move.expect("invariant violated: no valid moves found")
    }
}

} // verus!

//! What the game-tree searches compute: the minimax value of a position,
//! and the alpha-beta search as the bots run it, move by move.
use vstd::prelude::*;
use crate::ai::evaluator::Evaluator;
use crate::game::board::Board;
use crate::game::moves::{law_unmake_undoes_make, Move};
use crate::game::state::GameResult;

verus! {

/// The score of a finished game, `depth` plies before the search horizon:
/// the sooner a side wins, the better for it.
pub open spec fn win_score(result: GameResult, depth: nat) -> i32 {
    match result {
        GameResult::WhiteWins => (i32::MAX - 200 + depth) as i32,
        _ => (i32::MIN + 200 - depth) as i32,
    }
}

/// The worst score for the side to move, where its search starts.
pub open spec fn worst(white: bool) -> i32 {
    if white {
        i32::MIN
    } else {
        i32::MAX
    }
}

/// The better of two scores for the side to move.
pub open spec fn better_of(white: bool, a: i32, b: i32) -> i32 {
    if white {
        if b > a {
            b
        } else {
            a
        }
    } else {
        if b < a {
            b
        } else {
            a
        }
    }
}

/// The minimax value of `b` with the given side to move, searched `depth`
/// plies deep: a finished game scores [`win_score`], the horizon scores
/// the evaluator's score, and else the side to move takes the best value
/// among the candidate moves that are accepted.
pub open spec fn minimax<E: Evaluator>(e: E, b: Board, white: bool, depth: nat) -> i32
    decreases depth, 1nat, 0nat,
{
    if !(b.result() is InProgress) {
        win_score(b.result(), depth)
    } else if depth == 0 {
        e.score(b, white)
    } else {
        minimax_over(e, b, white, depth, b.candidates(white).len())
    }
}

/// The best value for the side to move among the first `n` candidate moves.
pub open spec fn minimax_over<E: Evaluator>(
    e: E,
    b: Board,
    white: bool,
    depth: nat,
    n: nat,
) -> i32
    decreases depth, 0nat, n,
{
    if n == 0 || depth == 0 {
        worst(white)
    } else {
        let prev = minimax_over(e, b, white, depth, (n - 1) as nat);
        let (child, ok) = b.after_move(white, b.candidates(white)[n - 1]);
        if ok {
            better_of(white, prev, minimax(e, child, !white, (depth - 1) as nat))
        } else {
            prev
        }
    }
}

/// Every candidate move met in the search of `b`, `depth` plies deep, is
/// accepted: no wall in the tree would cut a pawn off.
pub open spec fn all_accepted(b: Board, white: bool, depth: nat) -> bool
    decreases depth,
{
    (b.result() is InProgress && depth > 0) ==> forall|i: int|
        0 <= i < b.candidates(white).len() ==> {
            let (child, ok) = #[trigger] b.after_move(white, b.candidates(white)[i]);
            ok && all_accepted(child, !white, (depth - 1) as nat)
        }
}

/// The state of a search loop over candidate moves: the best move so far
/// and its score, the window, the board as the loop left it, and whether
/// the window has closed.
pub struct SearchState {
    pub best_move: Option<Move>,
    pub best: i32,
    pub alpha: i32,
    pub beta: i32,
    pub board: Board,
    pub done: bool,
}

/// The alpha-beta search of `b`, `depth` plies deep, within the window
/// `(alpha, beta)`: its score, and the board it leaves behind. A finished
/// game and the horizon score as in [`minimax`]; else the candidate moves
/// are searched in order (see [`search_loop`]).
pub open spec fn search<E: Evaluator>(
    e: E,
    b: Board,
    white: bool,
    depth: nat,
    alpha: i32,
    beta: i32,
) -> (i32, Board)
    decreases depth, 1nat, 0nat,
{
    if !(b.result() is InProgress) {
        (win_score(b.result(), depth), b)
    } else if depth == 0 {
        (e.score(b, white), b)
    } else {
        let s = search_loop(e, b, white, depth, alpha, beta, b.candidates(white).len());
        (s.best, s.board)
    }
}

/// The state after the search loop of `b` has gone through its first `n`
/// candidate moves. Each move is made on the board as the loop left it; a
/// refused wall changes the board as [`Board::after_move`] says and is
/// skipped; an accepted move is searched one ply less deep within the
/// current window and then unmade. A score better than the best so far (or
/// the first score) becomes the best, the window narrows on the side to
/// move, and the loop stops once `beta <= alpha`.
pub open spec fn search_loop<E: Evaluator>(
    e: E,
    b: Board,
    white: bool,
    depth: nat,
    alpha: i32,
    beta: i32,
    n: nat,
) -> SearchState
    decreases depth, 0nat, n,
{
    if n == 0 || depth == 0 {
        SearchState { best_move: None, best: worst(white), alpha, beta, board: b, done: false }
    } else {
        let s = search_loop(e, b, white, depth, alpha, beta, (n - 1) as nat);
        let mv = b.candidates(white)[n - 1];
        let (moved, ok) = s.board.after_move(white, mv);
        if s.done {
            s
        } else if !ok {
            SearchState { board: moved, ..s }
        } else {
            let (eval, after) = search(e, moved, !white, (depth - 1) as nat, s.alpha, s.beta);
            let improves = s.best_move is None || (white && eval > s.best) || (!white && eval
                < s.best);
            let new_alpha = if white && eval > s.alpha {
                eval
            } else {
                s.alpha
            };
            let new_beta = if !white && eval < s.beta {
                eval
            } else {
                s.beta
            };
            SearchState {
                best_move: if improves {
                    Some(mv)
                } else {
                    s.best_move
                },
                best: if improves {
                    eval
                } else {
                    s.best
                },
                alpha: new_alpha,
                beta: new_beta,
                board: after.after_unmake(white, mv),
                done: new_beta <= new_alpha,
            }
        }
    }
}

/// The move the root search of `b` settles on: the best move of the search
/// loop over all candidates, each searched `depth - 1` plies deep within
/// the full window.
pub open spec fn search_choice<E: Evaluator>(e: E, b: Board, white: bool, depth: nat) -> Option<
    Move,
> {
    search_loop(e, b, white, depth, i32::MIN, i32::MAX, b.candidates(white).len()).best_move
}

/// `r` is what a fail-soft alpha-beta search may answer for a position of
/// value `v` searched within the window `(alpha, beta)`: at or below
/// `alpha` an upper bound of `v`, at or above `beta` a lower bound, and
/// strictly inside the window `v` itself.
pub open spec fn within_window(r: i32, v: i32, alpha: i32, beta: i32) -> bool {
    &&& r <= alpha ==> v <= r
    &&& r >= beta ==> r <= v
    &&& (alpha < r && r < beta) ==> r == v
}

proof fn lemma_loop_bounds<E: Evaluator>(
    e: E,
    b: Board,
    white: bool,
    depth: nat,
    alpha: i32,
    beta: i32,
    n: nat,
)
    requires
        b.wf(),
        b.result() is InProgress,
        depth > 0,
        all_accepted(b, white, depth),
        alpha < beta,
        n <= b.candidates(white).len(),
    ensures
        ({
            let s = search_loop(e, b, white, depth, alpha, beta, n);
            let m = minimax_over(e, b, white, depth, n);
            &&& s.board == b
            &&& white ==> s.beta == beta && s.alpha == better_of(true, alpha, s.best)
            &&& !white ==> s.alpha == alpha && s.beta == better_of(false, beta, s.best)
            &&& s.done == (s.beta <= s.alpha)
            &&& s.best_move is None ==> s.best == worst(white)
            &&& n > 0 ==> s.best_move is Some
            &&& within_window(s.best, m, alpha, beta)
            &&& (alpha == i32::MIN && beta == i32::MAX) ==> (s.best_move matches Some(mv) ==> {
                &&& b.candidates(white).contains(mv)
                &&& minimax(e, b.after_move(white, mv).0, !white, (depth - 1) as nat) == s.best
            })
        }),
    decreases depth, 0nat, n,
{
    if n > 0 {
        lemma_loop_bounds(e, b, white, depth, alpha, beta, (n - 1) as nat);
        let s = search_loop(e, b, white, depth, alpha, beta, (n - 1) as nat);
        let mv = b.candidates(white)[n - 1];
        let (child, ok) = b.after_move(white, mv);
        assert(ok && all_accepted(child, !white, (depth - 1) as nat));
        if !s.done {
            b.lemma_candidate_facts(white);
            assert(child.wf());
            law_search_bounds_minimax(e, child, !white, (depth - 1) as nat, s.alpha, s.beta);
            law_unmake_undoes_make(b, white, mv);
            let (eval, after) = search(e, child, !white, (depth - 1) as nat, s.alpha, s.beta);
            assert(after.after_unmake(white, mv) == b);
            if alpha == i32::MIN && beta == i32::MAX {
                let improves = s.best_move is None || (white && eval > s.best) || (!white && eval
                    < s.best);
                if improves {
                    assert(b.candidates(white)[n - 1] == mv);
                }
            }
        }
    }
}

/// Alpha-beta search agrees with minimax: searched within a window
/// `(alpha, beta)`, a position scores as [`within_window`] says of its
/// minimax value, and the board comes back as it was. This holds where
/// every candidate move met in the search is accepted; a refused wall hands
/// its side a wall back on the board that the search goes on with, and the
/// scores may then differ from [`minimax`]'s.
pub proof fn law_search_bounds_minimax<E: Evaluator>(
    e: E,
    b: Board,
    white: bool,
    depth: nat,
    alpha: i32,
    beta: i32,
)
    requires
        b.wf(),
        all_accepted(b, white, depth),
        alpha < beta,
    ensures
        search(e, b, white, depth, alpha, beta).1 == b,
        within_window(
            search(e, b, white, depth, alpha, beta).0,
            minimax(e, b, white, depth),
            alpha,
            beta,
        ),
    decreases depth, 1nat, 0nat,
{
    if b.result() is InProgress && depth > 0 {
        lemma_loop_bounds(e, b, white, depth, alpha, beta, b.candidates(white).len());
    }
}

/// The move the root search settles on is one of the side's candidate moves
/// whose minimax value, searched one ply less deep, is the minimax value of
/// the position: alpha-beta plays as minimax would (where every candidate
/// move met in the search is accepted, see [`law_search_bounds_minimax`]).
pub proof fn law_alpha_beta_plays_minimax<E: Evaluator>(e: E, b: Board, white: bool, depth: nat)
    requires
        b.wf(),
        b.result() is InProgress,
        depth >= 1,
        all_accepted(b, white, depth),
        b.candidates(white).len() > 0,
    ensures
        search_choice(e, b, white, depth) matches Some(mv) && {
            &&& b.candidates(white).contains(mv)
            &&& minimax(e, b.after_move(white, mv).0, !white, (depth - 1) as nat) == minimax(
                e,
                b,
                white,
                depth,
            )
        },
{
    lemma_loop_bounds(e, b, white, depth, i32::MIN, i32::MAX, b.candidates(white).len());
}

} // verus!

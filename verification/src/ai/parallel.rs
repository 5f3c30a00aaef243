//! What the parallel bots share: window bounds that all threads read and
//! narrow, and a parallel map over the root moves.
use std::sync::atomic::{AtomicI32, Ordering};
use rayon::iter::{IntoParallelRefIterator, ParallelIterator};
use vstd::prelude::*;
use crate::ai::search::{better_of, worst};
use crate::game::board::Board;
use crate::game::moves::Move;

verus! {

/// The current value of a shared window bound. Other threads may change it
/// at any time, so nothing is known of what comes back.
pub fn load_bound(a: &AtomicI32) -> i32 {
    a.load(Ordering::Relaxed)
}

/// Raises the shared lower bound to at least `v`.
pub fn raise_bound(a: &AtomicI32, v: i32) {
    a.fetch_max(v, Ordering::Relaxed);
}

/// Lowers the shared upper bound to at most `v`.
pub fn lower_bound(a: &AtomicI32, v: i32) {
    a.fetch_min(v, Ordering::Relaxed);
}

/// The best score and the window `(alpha, beta)` after a child scored
/// `eval`: the better score for the side to move, and the window narrowed
/// on its side.
pub open spec fn window_after(white: bool, best: i32, alpha: i32, beta: i32, eval: i32) -> (i32, i32, i32) {
    (
        better_of(white, best, eval),
        if white && eval > alpha {
            eval
        } else {
            alpha
        },
        if !white && eval < beta {
            eval
        } else {
            beta
        },
    )
}

/// The best score and the window after the children scored `evals` in
/// order, starting from the worst score for the side to move and the window
/// `(alpha, beta)`: once the window closes (`beta <= alpha`), later scores
/// change nothing.
pub open spec fn window_scan(white: bool, alpha: i32, beta: i32, evals: Seq<i32>) -> (i32, i32, i32)
    decreases evals.len(),
{
    if evals.len() == 0 {
        (worst(white), alpha, beta)
    } else {
        let s = window_scan(white, alpha, beta, evals.drop_last());
        if s.2 <= s.1 {
            s
        } else {
            window_after(white, s.0, s.1, s.2, evals.last())
        }
    }
}

/// One step of a search loop: the best score and the window after a child
/// scored `eval` (see [`window_after`]).
pub fn window_step(white: bool, best: i32, alpha: i32, beta: i32, eval: i32) -> (r: (i32, i32, i32))
    ensures
        r == window_after(white, best, alpha, beta, eval),
{
    let best = if eval > best && white || eval < best && !white {
        eval
    } else {
        best
    };
    let alpha = if white && eval > alpha {
        eval
    } else {
        alpha
    };
    let beta = if !white && eval < beta {
        eval
    } else {
        beta
    };
    (best, alpha, beta)
}

/// The values kept from `s`, in order.
pub open spec fn somes<A>(s: Seq<Option<A>>) -> Seq<A>
    decreases s.len(),
{
    if s.len() == 0 {
        Seq::empty()
    } else {
        match s.last() {
            Some(a) => somes(s.drop_last()).push(a),
            None => somes(s.drop_last()),
        }
    }
}

/// `results` are what `f` answered to `moves`, one call per move, keeping
/// the answers that hold a value, in the order of the moves.
pub open spec fn kept_answers<F: Fn(Move) -> Option<(Move, i32)>>(
    f: F,
    moves: Seq<Move>,
    results: Seq<(Move, i32)>,
) -> bool {
    exists|outs: Seq<Option<(Move, i32)>>|
        outs.len() == moves.len() && (forall|i: int|
            0 <= i < moves.len() ==> f.ensures((#[trigger] moves[i],), outs[i])) && results
            == #[trigger] somes(outs)
}

/// `a` is a strictly better score than `b` for the side to move.
pub open spec fn strictly_better(white: bool, a: i32, b: i32) -> bool {
    if white {
        a > b
    } else {
        a < b
    }
}

/// Result `i` is the first of `results` with the best score for the side to
/// move.
pub open spec fn first_best(results: Seq<(Move, i32)>, white: bool, i: int) -> bool {
    &&& 0 <= i < results.len()
    &&& forall|j: int| 0 <= j < results.len() ==> !strictly_better(white, #[trigger] results[j].1, results[i].1)
    &&& forall|j: int| 0 <= j < i ==> strictly_better(white, results[i].1, #[trigger] results[j].1)
}

/// The move a root search plays from its `results`: the move of the first
/// result with the best score, or, with no result, the first candidate move
/// that is accepted.
pub open spec fn root_choice(board: Board, white: bool, results: Seq<(Move, i32)>, mv: Move) -> bool {
    &&& results.len() > 0 ==> exists|i: int| #[trigger] first_best(results, white, i) && results[i].0 == mv
    &&& results.len() == 0 ==> mv == board.candidates(white).filter(|m: Move| board.after_move(white, m).1)[0]
}

/// The first of the results with the best score for the side to move, or
/// nothing if there are none.
pub fn pick_best(results: &Vec<(Move, i32)>, white: bool) -> (r: Option<(Move, i32)>)
    ensures
        r is None <==> results@.len() == 0,
        r matches Some(p) ==> exists|i: int| #[trigger] first_best(results@, white, i) && results@[i] == p,
{
    let mut best: Option<(Move, i32)> = None;
    let ghost mut bi: int = 0;
    let mut k: usize = 0;
    while k < results.len()
        invariant
            k <= results@.len(),
            best is None <==> k == 0,
            best matches Some(p) ==> 0 <= bi < k && results@[bi] == p && (forall|j: int|
                0 <= j < k ==> !strictly_better(white, #[trigger] results@[j].1, p.1)) && (forall|j: int|
                0 <= j < bi ==> strictly_better(white, p.1, #[trigger] results@[j].1)),
        decreases results.len() - k,
    {
        let (mv, eval) = results[k];
        let replace = match best {
            None => true,
            Some((_, b)) => eval > b && white || eval < b && !white,
        };
        if replace {
            best = Some((mv, eval));
            proof {
                bi = k as int;
            }
        }
        k = k + 1;
    }
    proof {
        if let Some(p) = best {
            assert(results@[bi] == p);
            assert(first_best(results@, white, bi));
        }
    }
    best
}

/// A fresh shared bound.
pub fn new_bound(v: i32) -> AtomicI32 {
    AtomicI32::new(v)
}

/// Rayon's `par_iter().filter_map(f).collect()` over the moves: calls `f`
/// once on each move on the thread pool and keeps what it returned for the
/// moves where it returned something, in the order of the moves: there are
/// answers of `f`, one to each move, whose kept values are the results.
/// Each result kept is thus an answer of `f` to one of the moves.
#[verifier::external_body]
pub(crate) fn par_filter_map<F>(moves: &[Move], f: F) -> (results: Vec<(Move, i32)>)
    where
        F: Fn(Move) -> Option<(Move, i32)> + Sync + Send,
    requires
        forall|i: int| 0 <= i < moves@.len() ==> f.requires((#[trigger] moves@[i],)),
    ensures
        forall|k: int|
            0 <= k < results@.len() ==> exists|i: int|
                0 <= i < moves@.len() && f.ensures((#[trigger] moves@[i],), Some(#[trigger] results@[k])),
        kept_answers(f, moves@, results@),
{
    moves.par_iter().filter_map(|&mv| f(mv)).collect()
}

} // verus!

//! A bot that searches the replies to each of its moves in parallel with
//! alpha-beta pruning, the threads sharing their window bounds, and that
//! searches deeper once both sides have run out of walls.
use std::sync::atomic::AtomicI32;
use vstd::prelude::*;
use crate::ai::evaluator::Evaluator;
use crate::ai::parallel::{
    first_best, load_bound, lower_bound, new_bound, par_filter_map, pick_best, raise_bound, root_choice,
    window_scan, window_step,
};
use crate::ai::search::worst;
use crate::game::board::Board;
use crate::game::move_list::{move_at, move_list_items, move_list_len};
use crate::game::moves::Move;
use crate::game::player::Player;
use crate::game::state::GameResult;
use crate::ai::random_bot::RandomBot;

verus! {

/// Searches `depth` plies deep, then `extend` plies more once both sides
/// have no walls left.
pub struct PABExtendBot<E: Evaluator> {
    depth: u8,
    evaluator: E,
    extend: u8,
}

/// The same candidate facts as [`Board::lemma_candidate_facts`] states, as a predicate.
pub open spec fn candidate_facts(b: Board, white: bool) -> bool {
    forall|i: int|
        0 <= i < b.candidates(white).len() ==> match #[trigger] b.candidates(white)[i] {
            Move::Pawn { from, to } => from == b.pos(white) && to < 81,
            Move::Wall { corner_idx, orientation } => corner_idx < 64
                && crate::game::moves::wall_is_free(b.walls, corner_idx, orientation),
        }
}

/// The lower bound of a window narrowed by a shared lower bound.
pub open spec fn narrowed_alpha(alpha: i32, ga: i32) -> i32 {
    if ga > alpha {
        ga
    } else {
        alpha
    }
}

/// The upper bound of a window narrowed by a shared upper bound.
pub open spec fn narrowed_beta(beta: i32, gb: i32) -> i32 {
    if gb < beta {
        gb
    } else {
        beta
    }
}

/// Whether a search at the horizon goes on `extend` plies more: both sides
/// have just run out of walls, neither extended yet.
pub open spec fn starts_extension(b: Board, white_ext: bool, black_ext: bool, extend: u8) -> bool {
    &&& !white_ext
    &&& !black_ext
    &&& b.white.walls_remaining == 0
    &&& b.black.walls_remaining == 0
    &&& extend > 0
}

/// The 0/1 first part of the alpha-beta search's termination measure: 0
/// once both sides have extended.
pub open spec fn ext_rank(white_ext: bool, black_ext: bool) -> int {
    if white_ext && black_ext {
        0
    } else {
        1
    }
}

/// The alpha-beta search of `b` within `(alpha, beta)` that
/// [`PABExtendBot::get_eval`] makes when no other thread narrows the shared
/// bounds: its score and the board it leaves. A closed window scores its
/// bound on the side to move; a finished game scores by the plies left and
/// the loser's distance; at the horizon, the first time both sides are out
/// of walls, the search goes on `extend` plies, else the evaluator scores;
/// else the candidate moves are searched in order (see [`pab_ab_loop`]) and
/// the best child score is the answer.
pub open spec fn pab_ab<E: Evaluator>(
    bot: PABExtendBot<E>,
    b: Board,
    white: bool,
    depth: nat,
    white_ext: bool,
    black_ext: bool,
    alpha: i32,
    beta: i32,
) -> (i32, Board)
    decreases ext_rank(white_ext, black_ext), depth, 1nat, 0nat,
{
    if beta <= alpha {
        (if white {
            alpha
        } else {
            beta
        }, b)
    } else if b.result() is WhiteWins {
        ((i32::MAX - (8192 - depth * 16) + b.dist(false)) as i32, b)
    } else if b.result() is BlackWins {
        ((i32::MIN + (8192 - depth * 16) - b.dist(true)) as i32, b)
    } else if depth == 0 {
        if starts_extension(b, white_ext, black_ext, bot.extend()) {
            pab_ab(bot, b, white, bot.extend() as nat, true, true, alpha, beta)
        } else {
            (bot.evaluator().score(b, white), b)
        }
    } else {
        let (evals, fin, done) = pab_ab_loop(
            bot,
            b,
            white,
            depth,
            white_ext,
            black_ext,
            alpha,
            beta,
            b.candidates(white).len(),
        );
        (window_scan(white, alpha, beta, evals).0, fin)
    }
}

/// The loop of [`pab_ab`] after its first `k` candidate moves, as
/// [`pab_loop_run`] describes it with every child searched by [`pab_ab`].
pub open spec fn pab_ab_loop<E: Evaluator>(
    bot: PABExtendBot<E>,
    b0: Board,
    white: bool,
    depth: nat,
    white_ext: bool,
    black_ext: bool,
    a0: i32,
    z0: i32,
    k: nat,
) -> (Seq<i32>, Board, bool)
    decreases ext_rank(white_ext, black_ext), depth, 0nat, k,
{
    if k == 0 {
        (seq![], b0, false)
    } else {
        let (pe, pb, closed) = pab_ab_loop(bot, b0, white, depth, white_ext, black_ext, a0, z0, (k - 1) as nat);
        if closed || depth == 0 || k > b0.candidates(white).len() {
            (pe, pb, closed)
        } else {
            let mv = b0.candidates(white)[k - 1];
            let (moved, ok) = pb.after_move(white, mv);
            if !ok {
                (pe, moved, false)
            } else {
                let w = window_scan(white, a0, z0, pe);
                let (e, cf) = pab_ab(bot, moved, !white, (depth - 1) as nat, white_ext, black_ext, w.1, w.2);
                let ne = pe.push(e);
                let w2 = window_scan(white, a0, z0, ne);
                (ne, cf.after_unmake(white, mv), w2.2 <= w2.1)
            }
        }
    }
}

/// No other thread narrowed anything: every read of the shared bounds in
/// the trace gave the widest window.
pub open spec fn pab_quiet(t: PabTrace) -> bool
    decreases t, 1nat,
{
    &&& t.ga == i32::MIN
    &&& t.gb == i32::MAX
    &&& t.ga2 == i32::MIN
    &&& t.gb2 == i32::MAX
    &&& pab_quiet_all(t.sub)
}

/// Every trace of `s` is quiet (see [`pab_quiet`]).
pub open spec fn pab_quiet_all(s: Seq<PabTrace>) -> bool
    decreases s, s.len(),
{
    if s.len() == 0 {
        true
    } else {
        pab_quiet(s.last()) && pab_quiet_all(s.drop_last())
    }
}

proof fn lemma_quiet_all_index(s: Seq<PabTrace>, i: int)
    requires
        pab_quiet_all(s),
        0 <= i < s.len(),
    ensures
        pab_quiet(s[i]),
    decreases s.len(),
{
    if i < s.len() - 1 {
        lemma_quiet_all_index(s.drop_last(), i);
        assert(s.drop_last()[i] == s[i]);
    }
}

/// When no other thread narrows the shared bounds, the parallel search
/// answers exactly what the alpha-beta search [`pab_ab`] answers, and
/// leaves the board it leaves.
pub proof fn law_quiet_search_is_alpha_beta<E: Evaluator>(
    bot: PABExtendBot<E>,
    b: Board,
    white: bool,
    depth: nat,
    white_ext: bool,
    black_ext: bool,
    alpha: i32,
    beta: i32,
    t: PabTrace,
)
    requires
        pab_quiet(t),
    ensures
        pab_run(bot, b, white, depth, white_ext, black_ext, alpha, beta, t) == pab_ab(
            bot,
            b,
            white,
            depth,
            white_ext,
            black_ext,
            alpha,
            beta,
        ),
    decreases t, 0nat,
{
    assert(narrowed_alpha(alpha, t.ga) == alpha);
    assert(narrowed_beta(beta, t.gb) == beta);
    if !(beta <= alpha) && b.result() is InProgress {
        if depth == 0 {
            if starts_extension(b, white_ext, black_ext, bot.extend()) {
                if t.sub.len() > 0 {
                    lemma_quiet_all_index(t.sub, 0);
                    law_quiet_search_is_alpha_beta(bot, b, white, bot.extend() as nat, true, true, alpha, beta, t.sub[0]);
                }
            }
        } else {
            lemma_quiet_loop(bot, b, white, depth, white_ext, black_ext, alpha, beta, t.sub, b.candidates(white).len());
        }
    }
}

/// The alpha-beta answer is one the parallel search may give (see
/// [`pab_value`]): the one it gives when no other thread narrows the shared
/// bounds.
pub proof fn law_alpha_beta_is_possible<E: Evaluator>(
    bot: PABExtendBot<E>,
    b: Board,
    white: bool,
    depth: nat,
    white_ext: bool,
    black_ext: bool,
    alpha: i32,
    beta: i32,
)
    ensures
        pab_value(
            bot,
            b,
            white,
            depth,
            white_ext,
            black_ext,
            alpha,
            beta,
            pab_ab(bot, b, white, depth, white_ext, black_ext, alpha, beta).0,
            pab_ab(bot, b, white, depth, white_ext, black_ext, alpha, beta).1,
        ),
{
    let t = PabTrace { ga: i32::MIN, gb: i32::MAX, ga2: i32::MIN, gb2: i32::MAX, sub: seq![] };
    law_quiet_search_is_alpha_beta(bot, b, white, depth, white_ext, black_ext, alpha, beta, t);
}

proof fn lemma_quiet_loop<E: Evaluator>(
    bot: PABExtendBot<E>,
    b0: Board,
    white: bool,
    depth: nat,
    white_ext: bool,
    black_ext: bool,
    a0: i32,
    z0: i32,
    subs: Seq<PabTrace>,
    k: nat,
)
    requires
        pab_quiet_all(subs),
    ensures
        pab_loop_run(bot, b0, white, depth, white_ext, black_ext, a0, z0, subs, k) == pab_ab_loop(
            bot,
            b0,
            white,
            depth,
            white_ext,
            black_ext,
            a0,
            z0,
            k,
        ),
    decreases subs, k,
{
    if k > 0 {
        lemma_quiet_loop(bot, b0, white, depth, white_ext, black_ext, a0, z0, subs, (k - 1) as nat);
        let (pe, pb, closed) = pab_loop_run(bot, b0, white, depth, white_ext, black_ext, a0, z0, subs, (k - 1) as nat);
        if !closed && depth > 0 && k <= b0.candidates(white).len() {
            let mv = b0.candidates(white)[k - 1];
            let (moved, ok) = pb.after_move(white, mv);
            let j = pe.len();
            if ok && j < subs.len() {
                lemma_quiet_all_index(subs, j as int);
                let w = window_scan(white, a0, z0, pe);
                law_quiet_search_is_alpha_beta(bot, moved, !white, (depth - 1) as nat, white_ext, black_ext, w.1, w.2, subs[j as int]);
            }
        }
    }
}

/// What the shared bounds held each time a search read them: at its window
/// (`ga`, `gb`) and at an extension (`ga2`, `gb2`); and the same for each
/// search it started, in order: the extension, or the accepted moves.
pub struct PabTrace {
    pub ga: i32,
    pub gb: i32,
    pub ga2: i32,
    pub gb2: i32,
    pub sub: Seq<PabTrace>,
}

/// The score and the board that a search of `b` (see
/// [`PABExtendBot::get_eval`]) gives when the shared bounds hold what `t`
/// says: the window narrowed by them, if closed, scores its bound on the
/// side to move; a finished game scores by the plies left and the loser's
/// distance; at the horizon, the first time both sides are out of walls,
/// the bounds are read again and the search goes on `extend` plies (its
/// first sub-search), else the evaluator scores; else the candidate moves
/// are searched in order (see [`pab_loop_run`]) and the best child score is
/// the answer.
pub open spec fn pab_run<E: Evaluator>(
    bot: PABExtendBot<E>,
    b: Board,
    white: bool,
    depth: nat,
    white_ext: bool,
    black_ext: bool,
    alpha: i32,
    beta: i32,
    t: PabTrace,
) -> (i32, Board)
    decreases t, 0nat,
{
    let na = narrowed_alpha(alpha, t.ga);
    let nb = narrowed_beta(beta, t.gb);
    if nb <= na {
        (if white {
            na
        } else {
            nb
        }, b)
    } else if b.result() is WhiteWins {
        ((i32::MAX - (8192 - depth * 16) + b.dist(false)) as i32, b)
    } else if b.result() is BlackWins {
        ((i32::MIN + (8192 - depth * 16) - b.dist(true)) as i32, b)
    } else if depth == 0 {
        if starts_extension(b, white_ext, black_ext, bot.extend()) {
            let na2 = narrowed_alpha(na, t.ga2);
            let nb2 = narrowed_beta(nb, t.gb2);
            if nb2 <= na2 {
                (if white {
                    na2
                } else {
                    nb2
                }, b)
            } else if t.sub.len() > 0 {
                pab_run(bot, b, white, bot.extend() as nat, true, true, na2, nb2, t.sub[0])
            } else {
                pab_ab(bot, b, white, bot.extend() as nat, true, true, na2, nb2)
            }
        } else {
            (bot.evaluator().score(b, white), b)
        }
    } else {
        let (evals, fin, done) = pab_loop_run(
            bot,
            b,
            white,
            depth,
            white_ext,
            black_ext,
            na,
            nb,
            t.sub,
            b.candidates(white).len(),
        );
        (window_scan(white, na, nb, evals).0, fin)
    }
}

/// The search loop of `b0` within the window `(a0, z0)` after its first `k`
/// candidate moves, the accepted moves searched as `subs` says in order:
/// the child scores so far, the board left, and whether the window has
/// closed. Once it has closed nothing more happens. Each move is made on
/// the board as the loop left it; a refused wall changes the board as
/// [`Board::after_move`] says; an accepted move is searched one ply less
/// deep within the window narrowed by the scores so far (see
/// [`window_scan`]), gives its score, and is unmade on the board that the
/// child search left.
pub open spec fn pab_loop_run<E: Evaluator>(
    bot: PABExtendBot<E>,
    b0: Board,
    white: bool,
    depth: nat,
    white_ext: bool,
    black_ext: bool,
    a0: i32,
    z0: i32,
    subs: Seq<PabTrace>,
    k: nat,
) -> (Seq<i32>, Board, bool)
    decreases subs, k,
{
    if k == 0 {
        (seq![], b0, false)
    } else {
        let (pe, pb, closed) = pab_loop_run(
            bot,
            b0,
            white,
            depth,
            white_ext,
            black_ext,
            a0,
            z0,
            subs,
            (k - 1) as nat,
        );
        if closed || depth == 0 || k > b0.candidates(white).len() {
            (pe, pb, closed)
        } else {
            let mv = b0.candidates(white)[k - 1];
            let (moved, ok) = pb.after_move(white, mv);
            if !ok {
                (pe, moved, false)
            } else {
                let w = window_scan(white, a0, z0, pe);
                let j = pe.len();
                let (e, cf) = if j < subs.len() {
                    pab_run(bot, moved, !white, (depth - 1) as nat, white_ext, black_ext, w.1, w.2, subs[j as int])
                } else {
                    pab_ab(bot, moved, !white, (depth - 1) as nat, white_ext, black_ext, w.1, w.2)
                };
                let ne = pe.push(e);
                let w2 = window_scan(white, a0, z0, ne);
                (ne, cf.after_unmake(white, mv), w2.2 <= w2.1)
            }
        }
    }
}

/// What a search of `b` may answer and leave: what [`pab_run`] gives for
/// some values of the shared bounds at each read.
pub open spec fn pab_value<E: Evaluator>(
    bot: PABExtendBot<E>,
    b: Board,
    white: bool,
    depth: nat,
    white_ext: bool,
    black_ext: bool,
    alpha: i32,
    beta: i32,
    r: i32,
    fin: Board,
) -> bool {
    exists|t: PabTrace|
        #[trigger] pab_run(bot, b, white, depth, white_ext, black_ext, alpha, beta, t) == (r, fin)
}

/// Adding a sub-search at the end changes nothing in the first `k` steps
/// of a loop that used no more sub-searches than it had.
proof fn lemma_loop_run_prefix<E: Evaluator>(
    bot: PABExtendBot<E>,
    b0: Board,
    white: bool,
    depth: nat,
    white_ext: bool,
    black_ext: bool,
    a0: i32,
    z0: i32,
    subs: Seq<PabTrace>,
    x: PabTrace,
    k: nat,
)
    requires
        pab_loop_run(bot, b0, white, depth, white_ext, black_ext, a0, z0, subs, k).0.len() <= subs.len(),
    ensures
        pab_loop_run(bot, b0, white, depth, white_ext, black_ext, a0, z0, subs.push(x), k) == pab_loop_run(
            bot,
            b0,
            white,
            depth,
            white_ext,
            black_ext,
            a0,
            z0,
            subs,
            k,
        ),
    decreases k,
{
    if k > 0 {
        lemma_loop_run_prefix(bot, b0, white, depth, white_ext, black_ext, a0, z0, subs, x, (k - 1) as nat);
        let pe = pab_loop_run(bot, b0, white, depth, white_ext, black_ext, a0, z0, subs, (k - 1) as nat).0;
        if pe.len() < subs.len() {
            assert(subs.push(x)[pe.len() as int] == subs[pe.len() as int]);
        }
    }
}

/// A loop whose window has closed stays as it is.
proof fn lemma_loop_run_closed<E: Evaluator>(
    bot: PABExtendBot<E>,
    b0: Board,
    white: bool,
    depth: nat,
    white_ext: bool,
    black_ext: bool,
    a0: i32,
    z0: i32,
    subs: Seq<PabTrace>,
    k: nat,
    m: nat,
)
    requires
        k <= m,
        pab_loop_run(bot, b0, white, depth, white_ext, black_ext, a0, z0, subs, k).2,
    ensures
        pab_loop_run(bot, b0, white, depth, white_ext, black_ext, a0, z0, subs, m) == pab_loop_run(
            bot,
            b0,
            white,
            depth,
            white_ext,
            black_ext,
            a0,
            z0,
            subs,
            k,
        ),
    decreases m,
{
    if m > k {
        lemma_loop_run_closed(bot, b0, white, depth, white_ext, black_ext, a0, z0, subs, k, (m - 1) as nat);
    }
}

impl<E: Evaluator> PABExtendBot<E> {
    #[verifier::type_invariant]
    spec fn depth_positive(self) -> bool {
        self.depth >= 1
    }

    /// The search depth.
    pub closed spec fn depth(self) -> u8 {
        self.depth
    }

    /// The extra depth once both sides are out of walls.
    pub closed spec fn extend(self) -> u8 {
        self.extend
    }

    /// The evaluator scoring the positions at the horizon.
    pub closed spec fn evaluator(self) -> E {
        self.evaluator
    }

    /// A bot searching `depth` plies deep (at least one), extending by 8.
    pub fn new(depth: u8, evaluator: E) -> (bot: Self)
        requires
            depth >= 1,
        ensures
            bot.depth() == depth,
            bot.extend() == 8,
            bot.evaluator() == evaluator,
    {
        PABExtendBot { depth, evaluator, extend: 8 }
    }

    /// The alpha-beta score of `board`, searched `depth` plies deep within
    /// `(alpha, beta)` narrowed by the shared bounds. A finished game scores
    /// by the plies left and the loser's distance to its goal row; at the
    /// horizon, the first time both sides are out of walls the search goes
    /// on `extend` plies more. The board comes back with its layout; the
    /// score depends on what the other threads publish in the shared bounds,
    /// read here and passed to [`Self::get_eval_in_window`].
    pub fn get_eval(
        &self,
        board: &mut Board,
        is_white: bool,
        depth: u8,
        white_ext: bool,
        black_ext: bool,
        alpha: i32,
        beta: i32,
        global_alpha: &AtomicI32,
        global_beta: &AtomicI32,
    ) -> (r: i32)
        requires
            old(board).wf(),
        ensures
            final(board).same_layout(*old(board)),
            pab_value(
                *self,
                *old(board),
                is_white,
                depth as nat,
                white_ext,
                black_ext,
                alpha,
                beta,
                r,
                *final(board),
            ),
        decreases (if white_ext && black_ext {
            0int
        } else {
            1int
        }), depth, 1int,
    {
        let ga = load_bound(global_alpha);
        let gb = load_bound(global_beta);
        let ghost b_in = *board;
        let r = self.get_eval_in_window(
            board,
            is_white,
            depth,
            white_ext,
            black_ext,
            alpha,
            beta,
            ga,
            gb,
            global_alpha,
            global_beta,
        );
        r
    }

    /// The search of [`Self::get_eval`] once the shared bounds read `ga` and
    /// `gb`: the window `(alpha, beta)` narrowed by them. A closed window
    /// scores its bound on the side to move; else a finished game scores by
    /// the plies left and the loser's distance to its goal row, and a
    /// position at the horizon that starts no extension scores the
    /// evaluator's score. Deeper searches read the shared bounds again.
    #[verifier::rlimit(60)]
    #[verifier::spinoff_prover]
    pub fn get_eval_in_window(
        &self,
        board: &mut Board,
        is_white: bool,
        depth: u8,
        white_ext: bool,
        black_ext: bool,
        alpha: i32,
        beta: i32,
        ga: i32,
        gb: i32,
        global_alpha: &AtomicI32,
        global_beta: &AtomicI32,
    ) -> (r: i32)
        requires
            old(board).wf(),
        ensures
            final(board).same_layout(*old(board)),
            narrowed_beta(beta, gb) <= narrowed_alpha(alpha, ga) ==> r == (if is_white {
                narrowed_alpha(alpha, ga)
            } else {
                narrowed_beta(beta, gb)
            }),
            narrowed_alpha(alpha, ga) < narrowed_beta(beta, gb) && old(board).result() is WhiteWins
                ==> r == i32::MAX - (8192 - depth * 16) + old(board).dist(false),
            narrowed_alpha(alpha, ga) < narrowed_beta(beta, gb) && old(board).result() is BlackWins
                ==> r == i32::MIN + (8192 - depth * 16) - old(board).dist(true),
            narrowed_alpha(alpha, ga) < narrowed_beta(beta, gb) && old(board).result() is InProgress
                && depth == 0 && !starts_extension(*old(board), white_ext, black_ext, self.extend())
                ==> r == self.evaluator().score(*old(board), is_white),
            exists|t: PabTrace|
                t.ga == ga && t.gb == gb && #[trigger] pab_run(
                    *self,
                    *old(board),
                    is_white,
                    depth as nat,
                    white_ext,
                    black_ext,
                    alpha,
                    beta,
                    t,
                ) == (r, *final(board)),
            narrowed_alpha(alpha, ga) < narrowed_beta(beta, gb) && old(board).result() is InProgress
                && depth > 0 && old(board).candidates(is_white).len() == 0 ==> r == worst(is_white),
        decreases (if white_ext && black_ext {
            0int
        } else {
            1int
        }), depth, 0int,
    {
        let ghost b0 = *board;
        let ghost alpha_in = alpha;
        let ghost beta_in = beta;
        let ghost leaf = PabTrace { ga, gb, ga2: 0, gb2: 0, sub: seq![] };
        let mut alpha = alpha;
        let mut beta = beta;
        if ga > alpha {
            alpha = ga;
        }
        if gb < beta {
            beta = gb;
        }
        if beta <= alpha {
            let r = if is_white {
                alpha
            } else {
                beta
            };
            proof {
                assert(pab_run(*self, b0, is_white, depth as nat, white_ext, black_ext, alpha_in, beta_in, leaf) == (r, *board));
            }
            return r;
        }
        match board.check_result() {
            GameResult::WhiteWins => {
                let (_, black_dist) = board.distances();
                let r = i32::MAX - (8192 - (depth as i32) * 16) + black_dist as i32;
                proof {
                    assert(pab_run(*self, b0, is_white, depth as nat, white_ext, black_ext, alpha_in, beta_in, leaf) == (r, *board));
                }
                return r;
            },
            GameResult::BlackWins => {
                let (white_dist, _) = board.distances();
                let r = i32::MIN + (8192 - (depth as i32) * 16) - white_dist as i32;
                proof {
                    assert(pab_run(*self, b0, is_white, depth as nat, white_ext, black_ext, alpha_in, beta_in, leaf) == (r, *board));
                }
                return r;
            },
            _ => {},
        }
        if depth == 0 {
            let new_white = !white_ext && board.white_walls_remaining() == 0;
            let new_black = !black_ext && board.black_walls_remaining() == 0;
            let ext_depth = (new_white && new_black) as u8 * self.extend;
            if ext_depth > 0 {
                let ga2 = load_bound(global_alpha);
                if ga2 > alpha {
                    alpha = ga2;
                }
                let gb2 = load_bound(global_beta);
                if gb2 < beta {
                    beta = gb2;
                }
                if beta <= alpha {
                    let r = if is_white {
                        alpha
                    } else {
                        beta
                    };
                    proof {
                        let t = PabTrace { ga, gb, ga2, gb2, sub: seq![] };
                        assert(pab_run(*self, b0, is_white, depth as nat, white_ext, black_ext, alpha_in, beta_in, t) == (r, *board));
                    }
                    return r;
                }
                let ghost ext_alpha = alpha;
                let ghost ext_beta = beta;
                let r = self.get_eval(
                    board,
                    is_white,
                    ext_depth,
                    true,
                    true,
                    alpha,
                    beta,
                    global_alpha,
                    global_beta,
                );
                proof {
                    assert(ext_depth == self.extend());
                    let tc = choose|tc: PabTrace|
                        #[trigger] pab_run(*self, b0, is_white, ext_depth as nat, true, true, ext_alpha, ext_beta, tc) == (r, *board);
                    let t = PabTrace { ga, gb, ga2, gb2, sub: seq![tc] };
                    assert(t.sub[0] == tc);
                    assert(pab_run(*self, b0, is_white, depth as nat, white_ext, black_ext, alpha_in, beta_in, t) == (r, *board));
                }
                return r;
            }
            let r = self.evaluator.eval(board, is_white);
            proof {
                assert(pab_run(*self, b0, is_white, depth as nat, white_ext, black_ext, alpha_in, beta_in, leaf) == (r, *board));
            }
            return r;
        }
        let moves = board.get_available_candidate_moves(is_white);
        proof {
            b0.lemma_candidate_facts(is_white);
        }
        let n = move_list_len(&moves);
        let mut best_eval = if is_white {
            i32::MIN
        } else {
            i32::MAX
        };
        let ghost a0 = alpha;
        let ghost z0 = beta;
        let ghost mut evals: Seq<i32> = Seq::empty();
        let ghost mut subs: Seq<PabTrace> = Seq::empty();
        let mut k: usize = 0;
        while k < n
            invariant_except_break
                alpha < beta,
            invariant
                n == b0.candidates(is_white).len(),
                move_list_items(moves) == b0.candidates(is_white),
                k <= n,
                depth > 0,
                b0.wf(),
                candidate_facts(b0, is_white),
                board.same_layout(b0),
                evals.len() <= k,
                (best_eval, alpha, beta) == window_scan(is_white, a0, z0, evals),
                subs.len() == evals.len(),
                pab_loop_run(*self, b0, is_white, depth as nat, white_ext, black_ext, a0, z0, subs, k as nat)
                    == (evals, *board, beta <= alpha),
            ensures
                k == n || beta <= alpha,
            decreases n - k,
        {
            let mv = move_at(&moves, k);
            let ghost before = *board;
            let ghost pk = k;
            proof {
                assert(mv == b0.candidates(is_white)[pk as int]);
            }
            k = k + 1;
            proof {
                assert((k as nat - 1) as nat == pk as nat);
            }
            if !board.make_move(is_white, mv) {
                proof {
                    before.lemma_refused_layout(is_white, mv);
                }
                continue;
            }
            let ghost w_alpha = alpha;
            let ghost w_beta = beta;
            let eval = self.get_eval(
                board,
                !is_white,
                if depth == 0 {
                    depth
                } else {
                    depth - 1
                },
                white_ext,
                black_ext,
                alpha,
                beta,
                global_alpha,
                global_beta,
            );
            let ghost child_after = *board;
            board.unmake_move(is_white, mv);
            proof {
                before.lemma_unmake_layout(child_after, is_white, mv);
                assert(evals.push(eval).drop_last() == evals);
            }
            let (next_best, next_alpha, next_beta) = window_step(is_white, best_eval, alpha, beta, eval);
            best_eval = next_best;
            alpha = next_alpha;
            beta = next_beta;
            proof {
                let moved = before.after_move(is_white, mv).0;
                let other = !is_white;
                let tc = choose|tc: PabTrace|
                    #[trigger] pab_run(*self, moved, other, (depth - 1) as nat, white_ext, black_ext, w_alpha, w_beta, tc) == (eval, child_after);
                lemma_loop_run_prefix(*self, b0, is_white, depth as nat, white_ext, black_ext, a0, z0, subs, tc, pk as nat);
                let old_subs = subs;
                subs = subs.push(tc);
                assert(subs[old_subs.len() as int] == tc);
                evals = evals.push(eval);
            }
            if beta <= alpha {
                break;
            }
        }
        proof {
            assert(best_eval == window_scan(is_white, a0, z0, evals).0);
            if k < n {
                lemma_loop_run_closed(*self, b0, is_white, depth as nat, white_ext, black_ext, a0, z0, subs, k as nat, n as nat);
            }
            let t = PabTrace { ga, gb, ga2: 0, gb2: 0, sub: subs };
            assert(a0 == narrowed_alpha(alpha_in, ga));
            assert(pab_run(*self, b0, is_white, depth as nat, white_ext, black_ext, alpha_in, beta_in, t) == (best_eval, *board));
        }
        best_eval
    }
}

/// The other side.
pub open spec fn other_side(white: bool) -> bool {
    !white
}

/// A score the search of the replies to the root move `mv` may give: what
/// [`pab_value`] allows for the position after `mv`, searched one ply less
/// deep, within some window read from the shared bounds.
pub open spec fn pab_root_score<E: Evaluator>(
    bot: PABExtendBot<E>,
    board: Board,
    white: bool,
    mv: Move,
    e: i32,
) -> bool {
    exists|alpha: i32, beta: i32| #[trigger] pab_child_score(bot, board, white, mv, alpha, beta, e)
}

/// A score the search of the replies to the root move `mv` may give within
/// the window `(alpha, beta)` (see [`pab_value`]).
pub open spec fn pab_child_score<E: Evaluator>(
    bot: PABExtendBot<E>,
    board: Board,
    white: bool,
    mv: Move,
    alpha: i32,
    beta: i32,
    e: i32,
) -> bool {
    exists|fin: Board|
        #[trigger] pab_value(
            bot,
            board.after_move(white, mv).0,
            other_side(white),
            (bot.depth() - 1) as nat,
            false,
            false,
            alpha,
            beta,
            e,
            fin,
        )
}

/// A result of a root search: a candidate move the side may play, and a
/// score its search may give (see [`pab_root_score`]).
pub open spec fn pab_root_result<E: Evaluator>(
    bot: PABExtendBot<E>,
    board: Board,
    white: bool,
    p: (Move, i32),
) -> bool {
    &&& board.candidates(white).contains(p.0)
    &&& board.after_move(white, p.0).1
    &&& pab_root_score(bot, board, white, p.0, p.1)
}

/// Searches the replies to one root move within the shared window: nothing
/// if the window has already closed or the move is a refused wall; else the
/// move and its score, which then narrows the shared window.
pub fn search_root_move<E: Evaluator>(
    mv: Move,
    board: &Board,
    is_white: bool,
    bot: &PABExtendBot<E>,
    shared_alpha: &AtomicI32,
    shared_beta: &AtomicI32,
) -> (r: Option<(Move, i32)>)
    requires
        board.wf(),
        board.candidates(is_white).contains(mv),
    ensures
        r matches Some((m, e)) ==> m == mv && board.after_move(is_white, mv).1 && pab_root_score(
            *bot,
            *board,
            is_white,
            mv,
            e,
        ),
{
    let alpha = load_bound(shared_alpha);
    let beta = load_bound(shared_beta);
    search_root_move_in_window(mv, board, is_white, bot, alpha, beta, shared_alpha, shared_beta)
}

/// Searches the replies to one root move within the window `alpha..beta`
/// last read from the shared bounds: nothing if that window is closed or the
/// move is a refused wall; else the move and its score, which then narrows
/// the shared window.
pub fn search_root_move_in_window<E: Evaluator>(
    mv: Move,
    board: &Board,
    is_white: bool,
    bot: &PABExtendBot<E>,
    alpha: i32,
    beta: i32,
    shared_alpha: &AtomicI32,
    shared_beta: &AtomicI32,
) -> (r: Option<(Move, i32)>)
    requires
        board.wf(),
        board.candidates(is_white).contains(mv),
    ensures
        r is Some <==> alpha < beta && board.after_move(is_white, mv).1,
        r matches Some((m, _)) ==> m == mv,
        r matches Some((_, e)) ==> pab_child_score(*bot, *board, is_white, mv, alpha, beta, e),
{
    proof {
        use_type_invariant(bot);
        board.lemma_candidate_facts(is_white);
    }
    if beta <= alpha {
        return None;
    }
    let mut local_board = *board;
    if !local_board.make_move(is_white, mv) {
        return None;
    }
    let ghost child = local_board;
    let eval = bot.get_eval(
        &mut local_board,
        !is_white,
        bot.depth - 1,
        false,
        false,
        alpha,
        beta,
        shared_alpha,
        shared_beta,
    );
    if is_white {
        raise_bound(shared_alpha, eval);
    } else {
        lower_bound(shared_beta, eval);
    }
    proof {
        assert((bot.depth - 1) as nat == (bot.depth() - 1) as nat);
        assert(child == board.after_move(is_white, mv).0);
        assert(pab_value(*bot, child, !is_white, (bot.depth() - 1) as nat, false, false, alpha, beta, eval, local_board));
        assert(pab_value(*bot, board.after_move(is_white, mv).0, !is_white, (bot.depth() - 1) as nat, false, false, alpha, beta, eval, local_board));
        assert(pab_value(*bot, board.after_move(is_white, mv).0, other_side(is_white), (bot.depth() - 1) as nat, false, false, alpha, beta, eval, local_board));
        assert(pab_child_score(*bot, *board, is_white, mv, alpha, beta, eval));
    }
    Some((mv, eval))
}

/// The candidate moves, split before the first wall: the pawn moves, then
/// the walls.
pub fn split_candidates(board: &Board, is_white: bool) -> (r: (Vec<Move>, Vec<Move>))
    requires
        board.wf(),
    ensures
        r.0@ + r.1@ == board.candidates(is_white),
        forall|i: int| 0 <= i < r.0@.len() ==> #[trigger] r.0@[i] is Pawn,
        r.1@.len() > 0 ==> r.1@[0] is Wall,
{
    let cands = board.get_available_candidate_moves(is_white);
    let n = move_list_len(&cands);
    let ghost c = board.candidates(is_white);
    let mut pawn_moves: Vec<Move> = Vec::new();
    let mut wall_moves: Vec<Move> = Vec::new();
    let mut k: usize = 0;
    let mut seen_wall = false;
    while k < n
        invariant
            n == c.len(),
            c == board.candidates(is_white),
            move_list_items(cands) == c,
            k <= n,
            pawn_moves@ + wall_moves@ == c.take(k as int),
            forall|i: int| 0 <= i < pawn_moves@.len() ==> #[trigger] pawn_moves@[i] is Pawn,
            wall_moves@.len() > 0 ==> wall_moves@[0] is Wall,
            seen_wall == (wall_moves@.len() > 0),
        decreases n - k,
    {
        let mv = move_at(&cands, k);
        let is_wall = match mv {
            Move::Wall { .. } => true,
            Move::Pawn { .. } => false,
        };
        if seen_wall || is_wall {
            wall_moves.push(mv);
            seen_wall = true;
        } else {
            pawn_moves.push(mv);
        }
        k = k + 1;
        assert(c.take(k as int) == c.take(k - 1).push(mv));
    }
    assert(c.take(n as int) == c);
    (pawn_moves, wall_moves)
}

impl<E: Evaluator + Sync> Player for PABExtendBot<E> {
    open spec fn can_move(&self, board: Board, is_white: bool) -> bool {
        true
    }

    /// Searches the pawn moves in parallel, then the walls (starting from
    /// the window the pawn moves left), and plays the first move of the
    /// best score found. Should no search return a score, the first move the
    /// side may play is played.
    fn get_move(&mut self, board: &Board, is_white: bool) -> (mv: Move)
        ensures
            exists|results: Seq<(Move, i32)>|
                #[trigger] root_choice(*board, is_white, results, mv) && forall|k: int|
                    0 <= k < results.len() ==> #[trigger] pab_root_result(
                        *old(self),
                        *board,
                        is_white,
                        results[k],
                    ),
    {
        let (pawn_moves, wall_moves) = split_candidates(board, is_white);
        let ghost c = board.candidates(is_white);
        assert forall|i: int| 0 <= i < pawn_moves@.len() implies c.contains(
            #[trigger] pawn_moves@[i],
        ) by {
            assert(c[i] == (pawn_moves@ + wall_moves@)[i]);
        }
        assert forall|i: int| 0 <= i < wall_moves@.len() implies c.contains(
            #[trigger] wall_moves@[i],
        ) by {
            assert(c[pawn_moves@.len() + i] == (pawn_moves@ + wall_moves@)[pawn_moves@.len() + i]);
        }
        let shared_alpha = new_bound(i32::MIN);
        let shared_beta = new_bound(i32::MAX);
        let this: &Self = self;
        let search = |mv: Move| -> (r: Option<(Move, i32)>)
            requires
                board.wf(),
                board.candidates(is_white).contains(mv),
            ensures
                r matches Some((m, e)) ==> m == mv && board.after_move(is_white, mv).1
                    && pab_root_score(*this, *board, is_white, mv, e),
            { search_root_move(mv, board, is_white, this, &shared_alpha, &shared_beta) };
        let mut results = par_filter_map(pawn_moves.as_slice(), search);
        let wall_results = par_filter_map(wall_moves.as_slice(), search);
        proof {
            assert forall|k: int| 0 <= k < results@.len() implies #[trigger] pab_root_result(
                *this,
                *board,
                is_white,
                results@[k],
            ) by {
                let i = choose|i: int|
                    0 <= i < pawn_moves@.len() && search.ensures(
                        (#[trigger] pawn_moves@[i],),
                        Some(results@[k]),
                    );
            }
            assert forall|k: int| 0 <= k < wall_results@.len() implies wall_moves@.contains(
                wall_results@[k].0,
            ) && #[trigger] pab_root_result(*this, *board, is_white, wall_results@[k]) by {
                let i = choose|i: int|
                    0 <= i < wall_moves@.len() && search.ensures(
                        (#[trigger] wall_moves@[i],),
                        Some(wall_results@[k]),
                    );
            }
        }
        let mut i: usize = 0;
        while i < wall_results.len()
            invariant
                i <= wall_results@.len(),
                c == board.candidates(is_white),
                forall|k: int| 0 <= k < results@.len() ==> #[trigger] pab_root_result(*this, *board, is_white, results@[k]),
                forall|k: int|
                    0 <= k < wall_results@.len() ==> wall_moves@.contains(wall_results@[k].0)
                        && #[trigger] pab_root_result(*this, *board, is_white, wall_results@[k]),
                forall|i: int| 0 <= i < wall_moves@.len() ==> c.contains(#[trigger] wall_moves@[i]),
            decreases wall_results.len() - i,
        {
            let item = wall_results[i];
            proof {
                assert(pab_root_result(*this, *board, is_white, wall_results@[i as int]));
                let j = choose|j: int| 0 <= j < wall_moves@.len() && wall_moves@[j] == item.0;
                assert(c.contains(wall_moves@[j]));
            }
            let ghost before = results@;
            results.push(item);
            proof {
                assert forall|k: int| 0 <= k < results@.len() implies #[trigger] pab_root_result(*this, *board, is_white, results@[k]) by {
                    if k < before.len() {
                        assert(results@[k] == before[k]);
                    }
                }
            }
            i = i + 1;
        }
        proof {
            assert forall|k: int| 0 <= k < results@.len() implies board.is_legal(
                is_white,
                #[trigger] results@[k].0,
            ) by {
                assert(pab_root_result(*this, *board, is_white, results@[k]));
            }
        }
        match pick_best(&results, is_white) {
            Some(p) => {
                proof {
                    let i = choose|i: int| #[trigger] first_best(results@, is_white, i) && results@[i] == p;
                    assert(board.is_legal(is_white, results@[i].0));
                    assert(root_choice(*board, is_white, results@, p.0));
                }
                p.0
            },
            None => {
                let legal = RandomBot::legal_moves(board, is_white);
                proof {
                    let m = choose|m: Move| #[trigger] board.is_legal(is_white, m);
                    assert(legal@.contains(m));
                    assert(root_choice(*board, is_white, results@, legal@[0]));
                }
                legal[0]
            },
        }
    }
}

} // verus!

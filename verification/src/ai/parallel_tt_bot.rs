//! A bot that searches the replies to each of its moves in parallel with
//! alpha-beta pruning, shares a transposition table and its window bounds
//! between the threads, and searches a few plies deeper at the horizon when
//! the side to move has no walls left.
use std::sync::atomic::AtomicI32;
use vstd::prelude::*;
use crate::ai::evaluator::Evaluator;
use crate::ai::parallel::{
    first_best, load_bound, lower_bound, new_bound, par_filter_map, pick_best, raise_bound, root_choice,
    window_scan, window_step,
};
use crate::ai::pab_extend_bot::{
    candidate_facts, narrowed_alpha, narrowed_beta, other_side, split_candidates,
};
use crate::ai::random_bot::RandomBot;
use crate::ai::search::{win_score, worst};
use crate::ai::tt::{classify, NodeType, TT};
use crate::game::board::Board;
use crate::game::move_list::{move_at, move_list_items, move_list_len};
use crate::game::moves::Move;
use crate::game::player::Player;
use crate::game::state::GameResult;
use crate::game::zobrist::{get_zobrist, ZobristTables};

verus! {

/// The extra plies a search path may add in all.
pub const MAX_EXT: u8 = 10;

/// The extra plies added at the horizon when the side to move has no walls.
pub const PAWN_EXT: u8 = 5;

/// The lower end of the window `(alpha, beta)` once a table entry has
/// narrowed it: a lower bound above `alpha` replaces it.
pub open spec fn entry_alpha(entry: Option<(i32, NodeType)>, alpha: i32) -> i32 {
    match entry {
        Some((score, NodeType::LowerBound)) => if score > alpha {
            score
        } else {
            alpha
        },
        _ => alpha,
    }
}

/// The upper end of the window `(alpha, beta)` once a table entry has
/// narrowed it: an upper bound below `beta` replaces it.
pub open spec fn entry_beta(entry: Option<(i32, NodeType)>, beta: i32) -> i32 {
    match entry {
        Some((score, NodeType::UpperBound)) => if score < beta {
            score
        } else {
            beta
        },
        _ => beta,
    }
}

/// Whether a table entry settles a search within `(alpha, beta)`: it is
/// exact, or its bound closes the window.
pub open spec fn entry_decides(entry: Option<(i32, NodeType)>, alpha: i32, beta: i32) -> bool {
    match entry {
        None => false,
        Some((score, NodeType::Exact)) => true,
        Some((score, NodeType::LowerBound)) => beta <= (if score > alpha {
            score
        } else {
            alpha
        }),
        Some((score, NodeType::UpperBound)) => (if score < beta {
            score
        } else {
            beta
        }) <= alpha,
    }
}

/// What the shared bounds held when a search read them (`ga`, `gb`), what
/// it found in the table (`entry`), and the same for each search it started
/// on an accepted move, in order.
pub struct TtTrace {
    pub ga: i32,
    pub gb: i32,
    pub entry: Option<(i32, NodeType)>,
    pub sub: Seq<TtTrace>,
}

/// The extra plies a search at the horizon adds: 5 when the side to move
/// has no walls and the budget allows, 5 more when the other side has none
/// either and the budget allows that too.
pub open spec fn horizon_ext(b: Board, white: bool, budget: nat) -> (nat, nat) {
    let ext: nat = if b.walls_left(white) == 0 && budget >= PAWN_EXT {
        PAWN_EXT as nat
    } else {
        0
    };
    let opp: nat = if ext > 0 && b.walls_left(!white) == 0 && budget >= ext + PAWN_EXT {
        PAWN_EXT as nat
    } else {
        0
    };
    (ext, opp)
}

/// The counts of walls left can be hashed: the key tables have eleven
/// entries, so at most ten each.
pub open spec fn hashable(b: Board) -> bool {
    b.white.walls_remaining <= 10 && b.black.walls_remaining <= 10
}

/// A search of `b` (see [`ParallelTTBot::get_eval`]) when the shared bounds
/// and the table hold what `t` says: its score, the board it leaves, and
/// whether every position it hashed could be hashed. A window the bounds
/// close scores its bound on the side to move and hashes nothing; else the
/// position is hashed, and see [`tt_entry_run`].
pub open spec fn tt_run<E: Evaluator>(
    bot: ParallelTTBot<E>,
    b: Board,
    white: bool,
    depth: nat,
    budget: nat,
    alpha: i32,
    beta: i32,
    t: TtTrace,
) -> (i32, Board, bool)
    decreases t, 0nat,
{
    let na = narrowed_alpha(alpha, t.ga);
    let nb = narrowed_beta(beta, t.gb);
    if nb <= na {
        (if white {
            na
        } else {
            nb
        }, b, true)
    } else {
        let (r, fin, ok) = tt_entry_run(bot, b, white, depth, budget, na, nb, t.entry, t.sub);
        (r, fin, hashable(b) && ok)
    }
}

/// A search of `b` within `(alpha, beta)` once the table gave `entry`, its
/// searches of the accepted moves going as `subs` says: an entry that
/// decides (see [`entry_decides`]) scores its score; a finished game scores
/// [`win_score`]; at the horizon without an extension (see [`horizon_ext`])
/// the evaluator scores; else the candidate moves are searched in order
/// within the window the entry narrowed (see [`tt_loop_run`]) and the best
/// child score is the answer.
pub open spec fn tt_entry_run<E: Evaluator>(
    bot: ParallelTTBot<E>,
    b: Board,
    white: bool,
    depth: nat,
    budget: nat,
    alpha: i32,
    beta: i32,
    entry: Option<(i32, NodeType)>,
    subs: Seq<TtTrace>,
) -> (i32, Board, bool)
    decreases subs, b.candidates(white).len() + 1,
{
    if entry_decides(entry, alpha, beta) {
        (entry.unwrap().0, b, true)
    } else if !(b.result() is InProgress) {
        (win_score(b.result(), depth), b, true)
    } else {
        let (ext, opp) = horizon_ext(b, white, budget);
        if depth == 0 && ext == 0 {
            (bot.evaluator().score(b, white), b, true)
        } else {
            let ed: nat = if depth == 0 {
                ext + opp
            } else {
                depth
            };
            let rb: nat = if depth == 0 {
                (budget - ext - opp) as nat
            } else {
                budget
            };
            let a1 = entry_alpha(entry, alpha);
            let b1 = entry_beta(entry, beta);
            let (evals, fin, done, ok) = tt_loop_run(bot, b, white, ed, rb, a1, b1, subs, b.candidates(white).len());
            (window_scan(white, a1, b1, evals).0, fin, ok)
        }
    }
}

/// The search loop of `b0` within `(a0, z0)` after its first `k` candidate
/// moves, `depth` plies deep with `budget` extra plies left, the accepted
/// moves searched as `subs` says in order: the child scores so far, the
/// board left, whether the window has closed (after which nothing more
/// happens), and whether every hash so far could be made. Each move is made
/// on the board as the loop left it; a refused wall changes the board as
/// [`Board::after_move`] says; an accepted move is searched one ply less
/// deep within the window narrowed by the scores so far (see
/// [`window_scan`]) and unmade on the board the child search left.
pub open spec fn tt_loop_run<E: Evaluator>(
    bot: ParallelTTBot<E>,
    b0: Board,
    white: bool,
    depth: nat,
    budget: nat,
    a0: i32,
    z0: i32,
    subs: Seq<TtTrace>,
    k: nat,
) -> (Seq<i32>, Board, bool, bool)
    decreases subs, k,
{
    if k == 0 {
        (seq![], b0, false, true)
    } else {
        let (pe, pb, closed, ok) = tt_loop_run(bot, b0, white, depth, budget, a0, z0, subs, (k - 1) as nat);
        if closed || depth == 0 || k > b0.candidates(white).len() {
            (pe, pb, closed, ok)
        } else {
            let mv = b0.candidates(white)[k - 1];
            let (moved, acc) = pb.after_move(white, mv);
            if !acc {
                (pe, moved, false, ok)
            } else {
                let w = window_scan(white, a0, z0, pe);
                let j = pe.len();
                let (e, cf, cok) = if j < subs.len() {
                    tt_run(bot, moved, !white, (depth - 1) as nat, budget, w.1, w.2, subs[j as int])
                } else {
                    tt_ab(bot, moved, !white, (depth - 1) as nat, budget, w.1, w.2)
                };
                let ne = pe.push(e);
                let w2 = window_scan(white, a0, z0, ne);
                (ne, cf.after_unmake(white, mv), w2.2 <= w2.1, ok && cok)
            }
        }
    }
}

/// Adding a sub-search at the end changes nothing in the first `k` steps
/// of a loop that used no more sub-searches than it had.
proof fn lemma_tt_loop_prefix<E: Evaluator>(
    bot: ParallelTTBot<E>,
    b0: Board,
    white: bool,
    depth: nat,
    budget: nat,
    a0: i32,
    z0: i32,
    subs: Seq<TtTrace>,
    x: TtTrace,
    k: nat,
)
    requires
        tt_loop_run(bot, b0, white, depth, budget, a0, z0, subs, k).0.len() <= subs.len(),
    ensures
        tt_loop_run(bot, b0, white, depth, budget, a0, z0, subs.push(x), k) == tt_loop_run(
            bot,
            b0,
            white,
            depth,
            budget,
            a0,
            z0,
            subs,
            k,
        ),
    decreases k,
{
    if k > 0 {
        lemma_tt_loop_prefix(bot, b0, white, depth, budget, a0, z0, subs, x, (k - 1) as nat);
        let pe = tt_loop_run(bot, b0, white, depth, budget, a0, z0, subs, (k - 1) as nat).0;
        if pe.len() < subs.len() {
            assert(subs.push(x)[pe.len() as int] == subs[pe.len() as int]);
        }
    }
}

/// A loop whose window has closed stays as it is.
proof fn lemma_tt_loop_closed<E: Evaluator>(
    bot: ParallelTTBot<E>,
    b0: Board,
    white: bool,
    depth: nat,
    budget: nat,
    a0: i32,
    z0: i32,
    subs: Seq<TtTrace>,
    k: nat,
    m: nat,
)
    requires
        k <= m,
        tt_loop_run(bot, b0, white, depth, budget, a0, z0, subs, k).2,
    ensures
        tt_loop_run(bot, b0, white, depth, budget, a0, z0, subs, m) == tt_loop_run(
            bot,
            b0,
            white,
            depth,
            budget,
            a0,
            z0,
            subs,
            k,
        ),
    decreases m,
{
    if m > k {
        lemma_tt_loop_closed(bot, b0, white, depth, budget, a0, z0, subs, k, (m - 1) as nat);
    }
}

/// A loop whose hashes all could be made after `m` steps could make them
/// after its first `k` steps.
proof fn lemma_tt_loop_ok_prefix<E: Evaluator>(
    bot: ParallelTTBot<E>,
    b0: Board,
    white: bool,
    depth: nat,
    budget: nat,
    a0: i32,
    z0: i32,
    subs: Seq<TtTrace>,
    k: nat,
    m: nat,
)
    requires
        k <= m,
        tt_loop_run(bot, b0, white, depth, budget, a0, z0, subs, m).3,
    ensures
        tt_loop_run(bot, b0, white, depth, budget, a0, z0, subs, k).3,
    decreases m,
{
    if m > k {
        lemma_tt_loop_ok_prefix(bot, b0, white, depth, budget, a0, z0, subs, k, (m - 1) as nat);
    }
}

/// The alpha-beta search of `b` within `(alpha, beta)`, `depth` plies deep
/// with `budget` extra plies left, that [`ParallelTTBot::get_eval`] makes
/// when no other thread narrows the shared bounds and the table holds
/// nothing for the positions met: as [`tt_run`] with every read of the
/// bounds giving the widest window and every lookup missing.
pub open spec fn tt_ab<E: Evaluator>(
    bot: ParallelTTBot<E>,
    b: Board,
    white: bool,
    depth: nat,
    budget: nat,
    alpha: i32,
    beta: i32,
) -> (i32, Board, bool)
    decreases depth + budget, 1nat, 0nat,
{
    if beta <= alpha {
        (if white {
            alpha
        } else {
            beta
        }, b, true)
    } else if !(b.result() is InProgress) {
        (win_score(b.result(), depth), b, hashable(b))
    } else {
        let (ext, opp) = horizon_ext(b, white, budget);
        if depth == 0 && ext == 0 {
            (bot.evaluator().score(b, white), b, hashable(b))
        } else {
            let ed: nat = if depth == 0 {
                ext + opp
            } else {
                depth
            };
            let rb: nat = if depth == 0 {
                (budget - ext - opp) as nat
            } else {
                budget
            };
            let (evals, fin, done, ok) = tt_ab_loop(bot, b, white, ed, rb, alpha, beta, b.candidates(white).len());
            (window_scan(white, alpha, beta, evals).0, fin, hashable(b) && ok)
        }
    }
}

/// The loop of [`tt_ab`] after its first `k` candidate moves, as
/// [`tt_loop_run`] describes it with every child searched by [`tt_ab`].
pub open spec fn tt_ab_loop<E: Evaluator>(
    bot: ParallelTTBot<E>,
    b0: Board,
    white: bool,
    depth: nat,
    budget: nat,
    a0: i32,
    z0: i32,
    k: nat,
) -> (Seq<i32>, Board, bool, bool)
    decreases depth + budget, 0nat, k,
{
    if k == 0 {
        (seq![], b0, false, true)
    } else {
        let (pe, pb, closed, ok) = tt_ab_loop(bot, b0, white, depth, budget, a0, z0, (k - 1) as nat);
        if closed || depth == 0 || k > b0.candidates(white).len() {
            (pe, pb, closed, ok)
        } else {
            let mv = b0.candidates(white)[k - 1];
            let (moved, acc) = pb.after_move(white, mv);
            if !acc {
                (pe, moved, false, ok)
            } else {
                let w = window_scan(white, a0, z0, pe);
                let (e, cf, cok) = tt_ab(bot, moved, !white, (depth - 1) as nat, budget, w.1, w.2);
                let ne = pe.push(e);
                let w2 = window_scan(white, a0, z0, ne);
                (ne, cf.after_unmake(white, mv), w2.2 <= w2.1, ok && cok)
            }
        }
    }
}

/// No other thread narrowed anything and the table held nothing: every
/// read of the shared bounds in the trace gave the widest window, and every
/// lookup missed.
pub open spec fn tt_quiet(t: TtTrace) -> bool
    decreases t, 1nat,
{
    &&& t.ga == i32::MIN
    &&& t.gb == i32::MAX
    &&& t.entry is None
    &&& tt_quiet_all(t.sub)
}

/// Every trace of `s` is quiet (see [`tt_quiet`]).
pub open spec fn tt_quiet_all(s: Seq<TtTrace>) -> bool
    decreases s, s.len(),
{
    if s.len() == 0 {
        true
    } else {
        tt_quiet(s.last()) && tt_quiet_all(s.drop_last())
    }
}

proof fn lemma_tt_quiet_all_index(s: Seq<TtTrace>, i: int)
    requires
        tt_quiet_all(s),
        0 <= i < s.len(),
    ensures
        tt_quiet(s[i]),
    decreases s.len(),
{
    if i < s.len() - 1 {
        lemma_tt_quiet_all_index(s.drop_last(), i);
        assert(s.drop_last()[i] == s[i]);
    }
}

/// When no other thread narrows the shared bounds and the table holds
/// nothing for the positions met, the parallel search answers exactly what
/// the alpha-beta search [`tt_ab`] answers, and leaves the board it leaves.
pub proof fn law_quiet_tt_search_is_alpha_beta<E: Evaluator>(
    bot: ParallelTTBot<E>,
    b: Board,
    white: bool,
    depth: nat,
    budget: nat,
    alpha: i32,
    beta: i32,
    t: TtTrace,
)
    requires
        tt_quiet(t),
    ensures
        tt_run(bot, b, white, depth, budget, alpha, beta, t) == tt_ab(bot, b, white, depth, budget, alpha, beta),
    decreases t, 0nat,
{
    assert(narrowed_alpha(alpha, t.ga) == alpha);
    assert(narrowed_beta(beta, t.gb) == beta);
    if !(beta <= alpha) && b.result() is InProgress {
        let (ext, opp) = horizon_ext(b, white, budget);
        if !(depth == 0 && ext == 0) {
            let ed: nat = if depth == 0 {
                ext + opp
            } else {
                depth
            };
            let rb: nat = if depth == 0 {
                (budget - ext - opp) as nat
            } else {
                budget
            };
            lemma_tt_quiet_loop(bot, b, white, ed, rb, alpha, beta, t.sub, b.candidates(white).len());
        }
    }
}

/// The alpha-beta answer is one the parallel search may give: the one it
/// gives when no other thread narrows the shared bounds and the table holds
/// nothing for the positions met.
pub proof fn law_tt_alpha_beta_is_possible<E: Evaluator>(
    bot: ParallelTTBot<E>,
    b: Board,
    white: bool,
    depth: nat,
    budget: nat,
    alpha: i32,
    beta: i32,
)
    ensures
        exists|t: TtTrace|
            #[trigger] tt_run(bot, b, white, depth, budget, alpha, beta, t) == tt_ab(
                bot,
                b,
                white,
                depth,
                budget,
                alpha,
                beta,
            ),
{
    let t = TtTrace { ga: i32::MIN, gb: i32::MAX, entry: None, sub: seq![] };
    law_quiet_tt_search_is_alpha_beta(bot, b, white, depth, budget, alpha, beta, t);
}

proof fn lemma_tt_quiet_loop<E: Evaluator>(
    bot: ParallelTTBot<E>,
    b0: Board,
    white: bool,
    depth: nat,
    budget: nat,
    a0: i32,
    z0: i32,
    subs: Seq<TtTrace>,
    k: nat,
)
    requires
        tt_quiet_all(subs),
    ensures
        tt_loop_run(bot, b0, white, depth, budget, a0, z0, subs, k) == tt_ab_loop(
            bot,
            b0,
            white,
            depth,
            budget,
            a0,
            z0,
            k,
        ),
    decreases subs, k,
{
    if k > 0 {
        lemma_tt_quiet_loop(bot, b0, white, depth, budget, a0, z0, subs, (k - 1) as nat);
        let (pe, pb, closed, ok) = tt_loop_run(bot, b0, white, depth, budget, a0, z0, subs, (k - 1) as nat);
        if !closed && depth > 0 && k <= b0.candidates(white).len() {
            let mv = b0.candidates(white)[k - 1];
            let (moved, acc) = pb.after_move(white, mv);
            let j = pe.len();
            if acc && j < subs.len() {
                lemma_tt_quiet_all_index(subs, j as int);
                let w = window_scan(white, a0, z0, pe);
                law_quiet_tt_search_is_alpha_beta(bot, moved, !white, (depth - 1) as nat, budget, w.1, w.2, subs[j as int]);
            }
        }
    }
}

/// Every search of `b` the shared bounds and the table may lead to hashes
/// only positions whose counts of walls left can be hashed: the search
/// cannot fail on a count that a refused wall raised past ten.
pub open spec fn tt_safe<E: Evaluator>(
    bot: ParallelTTBot<E>,
    b: Board,
    white: bool,
    depth: nat,
    budget: nat,
    alpha: i32,
    beta: i32,
) -> bool {
    forall|t: TtTrace| #[trigger] tt_run(bot, b, white, depth, budget, alpha, beta, t).2
}

/// Searches `depth` plies deep with a table of `2^tt_size_log2` slots.
pub struct ParallelTTBot<E: Evaluator> {
    depth: u8,
    evaluator: E,
    tt: TT,
    zobrist: ZobristTables,
}

impl<E: Evaluator> ParallelTTBot<E> {
    #[verifier::type_invariant]
    spec fn well_formed(self) -> bool {
        &&& 1 <= self.depth <= 201
        &&& self.zobrist.is_standard()
    }

    /// The search depth.
    pub closed spec fn depth(&self) -> u8 {
        self.depth
    }

    /// The evaluator scoring the positions at the horizon.
    pub closed spec fn evaluator(&self) -> E {
        self.evaluator
    }

    /// A bot searching `depth` plies deep (from 1 to 201) with a table of
    /// `2^tt_size_log2` slots (fewer than 32 doublings).
    pub fn new(depth: u8, evaluator: E, tt_size_log2: u8) -> (bot: Self)
        requires
            1 <= depth <= 201,
            tt_size_log2 < 32,
        ensures
            bot.depth() == depth,
            bot.evaluator() == evaluator,
    {
        ParallelTTBot { depth, evaluator, tt: TT::new(tt_size_log2), zobrist: get_zobrist() }
    }

    /// The score of `board`, searched `depth` plies deep within `(alpha,
    /// beta)` narrowed by the shared bounds and by what the table holds for
    /// the position. At the horizon, a side to move without walls searches
    /// 5 plies more, 10 when neither side has walls, while the budget of
    /// `ext_budget` extra plies lasts. The score found is stored in the
    /// table. A refused wall hands its wall back, so the counts of walls
    /// left may grow; they index key tables of eleven entries, so the search
    /// is for positions where no search the other threads may lead to hashes
    /// a count above ten ([`tt_safe`]). The score and the board left are
    /// what [`tt_run`] gives for what the shared bounds and the table held
    /// (read here, and passed on to [`Self::get_eval_in_window`]).
    pub fn get_eval(
        &self,
        board: &mut Board,
        is_white: bool,
        depth: u8,
        alpha: i32,
        beta: i32,
        ext_budget: u8,
        global_alpha: &AtomicI32,
        global_beta: &AtomicI32,
    ) -> (r: i32)
        requires
            old(board).wf(),
            depth <= 200,
            tt_safe(*self, *old(board), is_white, depth as nat, ext_budget as nat, alpha, beta),
        ensures
            final(board).same_layout(*old(board)),
            exists|t: TtTrace|
                #[trigger] tt_run(
                    *self,
                    *old(board),
                    is_white,
                    depth as nat,
                    ext_budget as nat,
                    alpha,
                    beta,
                    t,
                ) == (r, *final(board), true),
        decreases depth as int + ext_budget as int, 2int,
    {
        let ga = load_bound(global_alpha);
        let gb = load_bound(global_beta);
        self.get_eval_in_window(
            board,
            is_white,
            depth,
            alpha,
            beta,
            ext_budget,
            ga,
            gb,
            global_alpha,
            global_beta,
        )
    }

    /// The search of [`Self::get_eval`] once the shared bounds read `ga` and
    /// `gb`: a window `(alpha, beta)` that they close scores its bound on
    /// the side to move; else the position is hashed, the table is read, and
    /// [`Self::get_eval_from_entry`] goes on with what it holds.
    pub fn get_eval_in_window(
        &self,
        board: &mut Board,
        is_white: bool,
        depth: u8,
        alpha: i32,
        beta: i32,
        ext_budget: u8,
        ga: i32,
        gb: i32,
        global_alpha: &AtomicI32,
        global_beta: &AtomicI32,
    ) -> (r: i32)
        requires
            old(board).wf(),
            depth <= 200,
            tt_safe(*self, *old(board), is_white, depth as nat, ext_budget as nat, alpha, beta),
        ensures
            final(board).same_layout(*old(board)),
            narrowed_beta(beta, gb) <= narrowed_alpha(alpha, ga) ==> r == (if is_white {
                narrowed_alpha(alpha, ga)
            } else {
                narrowed_beta(beta, gb)
            }),
            exists|t: TtTrace|
                t.ga == ga && t.gb == gb && #[trigger] tt_run(
                    *self,
                    *old(board),
                    is_white,
                    depth as nat,
                    ext_budget as nat,
                    alpha,
                    beta,
                    t,
                ) == (r, *final(board), true),
        decreases depth as int + ext_budget as int, 1int,
    {
        proof {
            use_type_invariant(self);
        }
        let ghost b0 = *board;
        let ghost alpha_in = alpha;
        let ghost beta_in = beta;
        let mut alpha = alpha;
        let mut beta = beta;
        if ga > alpha {
            alpha = ga;
        }
        if gb < beta {
            beta = gb;
        }
        if beta <= alpha {
            let r = if is_white {
                alpha
            } else {
                beta
            };
            proof {
                let t = TtTrace { ga, gb, entry: None, sub: seq![] };
                assert(tt_run(*self, b0, is_white, depth as nat, ext_budget as nat, alpha_in, beta_in, t) == (r, *board, true));
            }
            return r;
        }
        proof {
            let t0 = TtTrace { ga, gb, entry: None, sub: seq![] };
            assert(tt_run(*self, b0, is_white, depth as nat, ext_budget as nat, alpha_in, beta_in, t0).2);
            assert forall|subs: Seq<TtTrace>|
                #[trigger] tt_entry_run(*self, b0, is_white, depth as nat, ext_budget as nat, alpha, beta, None, subs).2 by {
                let t = TtTrace { ga, gb, entry: None, sub: subs };
                assert(tt_run(*self, b0, is_white, depth as nat, ext_budget as nat, alpha_in, beta_in, t).2);
            }
        }
        let hash = board.zobrist_hash_with(&self.zobrist, is_white);
        let entry = self.tt.lookup(hash, depth);
        proof {
            assert forall|subs: Seq<TtTrace>|
                #[trigger] tt_entry_run(*self, b0, is_white, depth as nat, ext_budget as nat, alpha, beta, entry, subs).2 by {
                let t = TtTrace { ga, gb, entry, sub: subs };
                assert(tt_run(*self, b0, is_white, depth as nat, ext_budget as nat, alpha_in, beta_in, t).2);
            }
        }
        let r = self.get_eval_from_entry(
            board,
            is_white,
            depth,
            alpha,
            beta,
            ext_budget,
            hash,
            entry,
            global_alpha,
            global_beta,
        );
        proof {
            let subs = choose|subs: Seq<TtTrace>|
                #[trigger] tt_entry_run(*self, b0, is_white, depth as nat, ext_budget as nat, alpha, beta, entry, subs) == (r, *board, true);
            let t = TtTrace { ga, gb, entry, sub: subs };
            assert(tt_run(*self, b0, is_white, depth as nat, ext_budget as nat, alpha_in, beta_in, t) == (r, *board, true));
        }
        r
    }

    /// The search of [`Self::get_eval`] within the window `(alpha, beta)`
    /// once the table gave `entry` for the position, whose hash is `hash`
    /// (see [`tt_entry_run`]). The score of a searched position is stored
    /// under `hash`, with the node type [`classify`] gives.
    #[verifier::rlimit(60)]
    #[verifier::spinoff_prover]
    pub fn get_eval_from_entry(
        &self,
        board: &mut Board,
        is_white: bool,
        depth: u8,
        alpha: i32,
        beta: i32,
        ext_budget: u8,
        hash: u64,
        entry: Option<(i32, NodeType)>,
        global_alpha: &AtomicI32,
        global_beta: &AtomicI32,
    ) -> (r: i32)
        requires
            old(board).wf(),
            depth <= 200,
            forall|subs: Seq<TtTrace>|
                #[trigger] tt_entry_run(
                    *self,
                    *old(board),
                    is_white,
                    depth as nat,
                    ext_budget as nat,
                    alpha,
                    beta,
                    entry,
                    subs,
                ).2,
        ensures
            final(board).same_layout(*old(board)),
            entry_decides(entry, alpha, beta) ==> r == entry.unwrap().0,
            !entry_decides(entry, alpha, beta) && old(board).result() !is InProgress ==> r
                == win_score(old(board).result(), depth as nat),
            !entry_decides(entry, alpha, beta) && old(board).result() is InProgress && depth == 0
                && !(old(board).walls_left(is_white) == 0 && ext_budget >= PAWN_EXT) ==> r
                == self.evaluator().score(*old(board), is_white),
            entry_decides(entry, alpha, beta) || entry_alpha(entry, alpha) < entry_beta(entry, beta)
                ==> exists|subs: Seq<TtTrace>|
                #[trigger] tt_entry_run(
                    *self,
                    *old(board),
                    is_white,
                    depth as nat,
                    ext_budget as nat,
                    alpha,
                    beta,
                    entry,
                    subs,
                ) == (r, *final(board), true),
        decreases depth as int + ext_budget as int, 0int,
    {
        proof {
            use_type_invariant(self);
        }
        let ghost b0 = *board;
        let ghost empty = Seq::<TtTrace>::empty();
        let mut alpha = alpha;
        let mut beta = beta;
        let alpha_at_entry = alpha;
        let ghost beta_at_entry = beta;
        if let Some((score, node_type)) = entry {
            match node_type {
                NodeType::Exact => {
                    let r = score;
                    proof {
                        assert(tt_entry_run(*self, b0, is_white, depth as nat, ext_budget as nat, alpha_at_entry, beta_at_entry, entry, empty) == (r, *board, true));
                    }
                    return r;
                },
                NodeType::LowerBound => {
                    if score > alpha {
                        alpha = score;
                    }
                },
                NodeType::UpperBound => {
                    if score < beta {
                        beta = score;
                    }
                },
            }
            if beta <= alpha {
                let r = score;
                proof {
                    assert(tt_entry_run(*self, b0, is_white, depth as nat, ext_budget as nat, alpha_at_entry, beta_at_entry, entry, empty) == (r, *board, true));
                }
                return r;
            }
        }
        match board.check_result() {
            GameResult::WhiteWins => {
                let r = i32::MAX - 200 + depth as i32;
                proof {
                    assert(tt_entry_run(*self, b0, is_white, depth as nat, ext_budget as nat, alpha_at_entry, beta_at_entry, entry, empty) == (r, *board, true));
                }
                return r;
            },
            GameResult::BlackWins => {
                let r = i32::MIN + 200 - depth as i32;
                proof {
                    assert(tt_entry_run(*self, b0, is_white, depth as nat, ext_budget as nat, alpha_at_entry, beta_at_entry, entry, empty) == (r, *board, true));
                }
                return r;
            },
            _ => {},
        }
        let (effective_depth, remaining_budget) = if depth == 0 {
            let cur_walls = if is_white {
                board.white_walls_remaining()
            } else {
                board.black_walls_remaining()
            };
            let opp_walls = if is_white {
                board.black_walls_remaining()
            } else {
                board.white_walls_remaining()
            };
            let ext = if cur_walls == 0 && ext_budget >= PAWN_EXT {
                PAWN_EXT
            } else {
                0
            };
            let opp_ext = if ext > 0 && opp_walls == 0 && ext_budget >= ext + PAWN_EXT {
                PAWN_EXT
            } else {
                0
            };
            if ext == 0 {
                let r = self.evaluator.eval(board, is_white);
                proof {
                    assert(tt_entry_run(*self, b0, is_white, depth as nat, ext_budget as nat, alpha_at_entry, beta_at_entry, entry, empty) == (r, *board, true));
                }
                return r;
            }
            (ext + opp_ext, ext_budget - ext - opp_ext)
        } else {
            (depth, ext_budget)
        };
        let moves = board.get_available_candidate_moves(is_white);
        proof {
            b0.lemma_candidate_facts(is_white);
        }
        let n = move_list_len(&moves);
        let mut best_eval = if is_white {
            i32::MIN
        } else {
            i32::MAX
        };
        let ghost a0 = alpha;
        let ghost z0 = beta;
        let ghost ed = effective_depth as nat;
        let ghost rb = remaining_budget as nat;
        let ghost mut evals: Seq<i32> = Seq::empty();
        let ghost mut subs: Seq<TtTrace> = Seq::empty();
        proof {
            assert forall|ss: Seq<TtTrace>|
                #[trigger] tt_entry_run(*self, b0, is_white, depth as nat, ext_budget as nat, alpha_at_entry, beta_at_entry, entry, ss)
                    == (
                    window_scan(is_white, a0, z0, tt_loop_run(*self, b0, is_white, ed, rb, a0, z0, ss, n as nat).0).0,
                    tt_loop_run(*self, b0, is_white, ed, rb, a0, z0, ss, n as nat).1,
                    tt_loop_run(*self, b0, is_white, ed, rb, a0, z0, ss, n as nat).3,
                ) by {}
        }
        let mut k: usize = 0;
        while k < n
            invariant_except_break
                a0 < z0 ==> alpha < beta,
                !(evals.len() > 0 && beta <= alpha),
            invariant
                a0 == entry_alpha(entry, alpha_at_entry),
                z0 == entry_beta(entry, beta_at_entry),
                evals.len() <= k,
                a0 < z0 ==> (best_eval, alpha, beta) == window_scan(is_white, a0, z0, evals),
                evals.len() == 0 ==> best_eval == worst(is_white) && alpha == a0 && beta == z0,
                a0 >= z0 ==> beta <= alpha,
                n == b0.candidates(is_white).len(),
                move_list_items(moves) == b0.candidates(is_white),
                k <= n,
                1 <= effective_depth <= 200,
                effective_depth as int + remaining_budget as int == depth as int + ext_budget as int,
                ed == effective_depth as nat,
                rb == remaining_budget as nat,
                b0 == *old(board),
                b0.wf(),
                b0.result() is InProgress,
                candidate_facts(b0, is_white),
                board.same_layout(b0),
                subs.len() == evals.len(),
                forall|ss: Seq<TtTrace>|
                    #[trigger] tt_entry_run(*self, b0, is_white, depth as nat, ext_budget as nat, alpha_at_entry, beta_at_entry, entry, ss).2,
                forall|ss: Seq<TtTrace>|
                    #[trigger] tt_entry_run(*self, b0, is_white, depth as nat, ext_budget as nat, alpha_at_entry, beta_at_entry, entry, ss)
                        == (
                        window_scan(is_white, a0, z0, tt_loop_run(*self, b0, is_white, ed, rb, a0, z0, ss, n as nat).0).0,
                        tt_loop_run(*self, b0, is_white, ed, rb, a0, z0, ss, n as nat).1,
                        tt_loop_run(*self, b0, is_white, ed, rb, a0, z0, ss, n as nat).3,
                    ),
                tt_loop_run(*self, b0, is_white, ed, rb, a0, z0, subs, k as nat) == (
                    evals,
                    *board,
                    evals.len() > 0 && beta <= alpha,
                    true,
                ),
            ensures
                k == n || (evals.len() > 0 && beta <= alpha),
            decreases n - k,
        {
            let mv = move_at(&moves, k);
            let ghost before = *board;
            let ghost pk = k;
            proof {
                assert(mv == b0.candidates(is_white)[pk as int]);
            }
            k = k + 1;
            proof {
                assert((k as nat - 1) as nat == pk as nat);
            }
            if !board.make_move(is_white, mv) {
                proof {
                    before.lemma_refused_layout(is_white, mv);
                    assert(*board == before.after_move(is_white, mv).0);
                    assert(tt_loop_run(*self, b0, is_white, ed, rb, a0, z0, subs, k as nat) == (
                        evals,
                        *board,
                        evals.len() > 0 && beta <= alpha,
                        true,
                    ));
                }
                continue;
            }
            let ghost w_alpha = alpha;
            let ghost w_beta = beta;
            let ghost moved = *board;
            proof {
                assert(moved == before.after_move(is_white, mv).0);
                assert(before.after_move(is_white, mv).1);
                assert(w_alpha == window_scan(is_white, a0, z0, evals).1);
                assert(w_beta == window_scan(is_white, a0, z0, evals).2);
                let other = !is_white;
                let cd = (effective_depth - 1) as nat;
                assert(cd == (ed - 1) as nat);
                assert forall|tc: TtTrace|
                    #[trigger] tt_run(*self, moved, other, cd, rb, w_alpha, w_beta, tc).2 by {
                    let ss = subs.push(tc);
                    lemma_tt_loop_prefix(*self, b0, is_white, ed, rb, a0, z0, subs, tc, pk as nat);
                    assert(ss[subs.len() as int] == tc);
                    assert(tt_entry_run(*self, b0, is_white, depth as nat, ext_budget as nat, alpha_at_entry, beta_at_entry, entry, ss).2);
                    lemma_tt_loop_ok_prefix(*self, b0, is_white, ed, rb, a0, z0, ss, k as nat, n as nat);
                    assert(tt_loop_run(*self, b0, is_white, ed, rb, a0, z0, ss, pk as nat) == (evals, before, false, true));
                    assert(tt_loop_run(*self, b0, is_white, ed, rb, a0, z0, ss, k as nat).3);
                }
            }
            let eval = self.get_eval(
                board,
                !is_white,
                effective_depth - 1,
                alpha,
                beta,
                remaining_budget,
                global_alpha,
                global_beta,
            );
            let ghost child_after = *board;
            board.unmake_move(is_white, mv);
            proof {
                before.lemma_unmake_layout(child_after, is_white, mv);
                assert(evals.push(eval).drop_last() == evals);
            }
            let (next_best, next_alpha, next_beta) = window_step(is_white, best_eval, alpha, beta, eval);
            best_eval = next_best;
            alpha = next_alpha;
            beta = next_beta;
            proof {
                let other = !is_white;
                let cd = (effective_depth - 1) as nat;
                let tc = choose|tc: TtTrace|
                    #[trigger] tt_run(*self, moved, other, cd, rb, w_alpha, w_beta, tc) == (eval, child_after, true);
                lemma_tt_loop_prefix(*self, b0, is_white, ed, rb, a0, z0, subs, tc, pk as nat);
                let old_subs = subs;
                let old_evals = evals;
                subs = subs.push(tc);
                assert(subs[old_subs.len() as int] == tc);
                evals = evals.push(eval);
                assert(tt_loop_run(*self, b0, is_white, ed, rb, a0, z0, subs, pk as nat) == (old_evals, before, false, true));
                if a0 >= z0 {
                    assert(window_scan(is_white, a0, z0, evals) == window_scan(is_white, a0, z0, old_evals));
                }
                assert(tt_loop_run(*self, b0, is_white, ed, rb, a0, z0, subs, k as nat) == (
                    evals,
                    *board,
                    evals.len() > 0 && beta <= alpha,
                    true,
                ));
            }
            if beta <= alpha {
                break;
            }
        }
        proof {
            if k < n {
                lemma_tt_loop_closed(*self, b0, is_white, ed, rb, a0, z0, subs, k as nat, n as nat);
            }
            if a0 < z0 {
                assert(best_eval == window_scan(is_white, a0, z0, evals).0);
                assert(tt_entry_run(
                    *self,
                    b0,
                    is_white,
                    depth as nat,
                    ext_budget as nat,
                    alpha_at_entry,
                    beta_at_entry,
                    entry,
                    subs,
                ) == (best_eval, *board, true));
            }
        }
        let node_type = classify(best_eval, alpha_at_entry, beta);
        self.tt.store(hash, best_eval, effective_depth, node_type);
        best_eval
    }
}

/// A score the search of the replies to the root move `mv` may give within
/// the window `(alpha, beta)`: what [`tt_run`] gives for the position after
/// `mv`, one ply less deep with the whole extension budget, for some values
/// of the shared bounds and the table.
pub open spec fn tt_child_score<E: Evaluator>(
    bot: ParallelTTBot<E>,
    board: Board,
    white: bool,
    mv: Move,
    alpha: i32,
    beta: i32,
    e: i32,
) -> bool {
    exists|t: TtTrace|
        #[trigger] tt_run(
            bot,
            board.after_move(white, mv).0,
            other_side(white),
            (bot.depth() - 1) as nat,
            MAX_EXT as nat,
            alpha,
            beta,
            t,
        ) == (e, tt_run(
            bot,
            board.after_move(white, mv).0,
            other_side(white),
            (bot.depth() - 1) as nat,
            MAX_EXT as nat,
            alpha,
            beta,
            t,
        ).1, true)
}

/// Every search of the replies to any accepted candidate move of `board`,
/// within any window, is safe to hash (see [`tt_safe`]).
pub open spec fn tt_root_safe<E: Evaluator>(bot: &ParallelTTBot<E>, board: Board, white: bool) -> bool {
    forall|mv: Move, alpha: i32, beta: i32|
        board.candidates(white).contains(mv) && board.after_move(white, mv).1 ==> #[trigger] tt_safe(
            *bot,
            board.after_move(white, mv).0,
            other_side(white),
            (bot.depth() - 1) as nat,
            MAX_EXT as nat,
            alpha,
            beta,
        )
}

/// A score the search of the replies to the root move `mv` may give, within
/// some window read from the shared bounds (see [`tt_child_score`]).
pub open spec fn tt_root_score<E: Evaluator>(
    bot: ParallelTTBot<E>,
    board: Board,
    white: bool,
    mv: Move,
    e: i32,
) -> bool {
    exists|alpha: i32, beta: i32| #[trigger] tt_child_score(bot, board, white, mv, alpha, beta, e)
}

/// A result of a root search: a candidate move the side may play, and a
/// score its search may give (see [`tt_root_score`]).
pub open spec fn tt_root_result<E: Evaluator>(
    bot: ParallelTTBot<E>,
    board: Board,
    white: bool,
    p: (Move, i32),
) -> bool {
    &&& board.candidates(white).contains(p.0)
    &&& board.after_move(white, p.0).1
    &&& tt_root_score(bot, board, white, p.0, p.1)
}

/// Searches the replies to one root move within the shared window and the
/// extension budget [`MAX_EXT`]: nothing if the window has already closed or
/// the move is a refused wall; else the move and its score, which then
/// narrows the shared window.
pub fn search_root_move<E: Evaluator>(
    mv: Move,
    board: &Board,
    is_white: bool,
    bot: &ParallelTTBot<E>,
    shared_alpha: &AtomicI32,
    shared_beta: &AtomicI32,
) -> (r: Option<(Move, i32)>)
    requires
        board.wf(),
        tt_root_safe(bot, *board, is_white),
        board.candidates(is_white).contains(mv),
    ensures
        r matches Some((m, e)) ==> m == mv && board.after_move(is_white, mv).1 && tt_root_score(
            *bot,
            *board,
            is_white,
            mv,
            e,
        ),
{
    let alpha = load_bound(shared_alpha);
    let beta = load_bound(shared_beta);
    search_root_move_in_window(mv, board, is_white, bot, alpha, beta, shared_alpha, shared_beta)
}

/// Searches the replies to one root move within the window `alpha..beta`
/// last read from the shared bounds and the extension budget [`MAX_EXT`]:
/// nothing if that window is closed or the move is a refused wall; else the
/// move and its score, which then narrows the shared window.
pub fn search_root_move_in_window<E: Evaluator>(
    mv: Move,
    board: &Board,
    is_white: bool,
    bot: &ParallelTTBot<E>,
    alpha: i32,
    beta: i32,
    shared_alpha: &AtomicI32,
    shared_beta: &AtomicI32,
) -> (r: Option<(Move, i32)>)
    requires
        board.wf(),
        tt_root_safe(bot, *board, is_white),
        board.candidates(is_white).contains(mv),
    ensures
        r is Some <==> alpha < beta && board.after_move(is_white, mv).1,
        r matches Some((m, _)) ==> m == mv,
        r matches Some((_, e)) ==> tt_child_score(*bot, *board, is_white, mv, alpha, beta, e),
{
    proof {
        use_type_invariant(bot);
        board.lemma_candidate_facts(is_white);
    }
    if beta <= alpha {
        return None;
    }
    let mut local_board = *board;
    if !local_board.make_move(is_white, mv) {
        return None;
    }
    let ghost child = local_board;
    proof {
        assert(child == board.after_move(is_white, mv).0);
        assert(tt_safe(*bot, board.after_move(is_white, mv).0, other_side(is_white), (bot.depth() - 1) as nat, MAX_EXT as nat, alpha, beta));
        assert((bot.depth - 1) as nat == (bot.depth() - 1) as nat);
    }
    let eval = bot.get_eval(
        &mut local_board,
        !is_white,
        bot.depth - 1,
        alpha,
        beta,
        MAX_EXT,
        shared_alpha,
        shared_beta,
    );
    proof {
        assert((bot.depth - 1) as nat == (bot.depth() - 1) as nat);
        assert(child == board.after_move(is_white, mv).0);
        let other = !is_white;
        let t = choose|t: TtTrace|
            #[trigger] tt_run(*bot, child, other, (bot.depth - 1) as nat, MAX_EXT as nat, alpha, beta, t) == (eval, local_board, true);
        assert(tt_run(*bot, board.after_move(is_white, mv).0, other_side(is_white), (bot.depth() - 1) as nat, MAX_EXT as nat, alpha, beta, t) == (eval, local_board, true));
        assert(tt_child_score(*bot, *board, is_white, mv, alpha, beta, eval));
    }
    if is_white {
        raise_bound(shared_alpha, eval);
    } else {
        lower_bound(shared_beta, eval);
    }
    Some((mv, eval))
}

impl<E: Evaluator + Sync> Player for ParallelTTBot<E> {
    /// Positions where no search of the replies to a move may hash a count
    /// of walls left above ten (see [`tt_root_safe`]).
    open spec fn can_move(&self, board: Board, is_white: bool) -> bool {
        tt_root_safe(self, board, is_white)
    }

    /// Searches the pawn moves in parallel, then the walls, and plays the
    /// first move of the best score found. Should no search return a score,
    /// the first move the side may play is played.
    fn get_move(&mut self, board: &Board, is_white: bool) -> (mv: Move)
        ensures
            exists|results: Seq<(Move, i32)>|
                #[trigger] root_choice(*board, is_white, results, mv) && forall|k: int|
                    0 <= k < results.len() ==> #[trigger] tt_root_result(
                        *old(self),
                        *board,
                        is_white,
                        results[k],
                    ),
    {
        let (pawn_moves, wall_moves) = split_candidates(board, is_white);
        let ghost c = board.candidates(is_white);
        assert forall|i: int| 0 <= i < pawn_moves@.len() implies c.contains(
            #[trigger] pawn_moves@[i],
        ) by {
            assert(c[i] == (pawn_moves@ + wall_moves@)[i]);
        }
        assert forall|i: int| 0 <= i < wall_moves@.len() implies c.contains(
            #[trigger] wall_moves@[i],
        ) by {
            assert(c[pawn_moves@.len() + i] == (pawn_moves@ + wall_moves@)[pawn_moves@.len() + i]);
        }
        let shared_alpha = new_bound(i32::MIN);
        let shared_beta = new_bound(i32::MAX);
        let this: &Self = self;
        let search = |mv: Move| -> (r: Option<(Move, i32)>)
            requires
                board.wf(),
                tt_root_safe(this, *board, is_white),
                board.candidates(is_white).contains(mv),
            ensures
                r matches Some((m, e)) ==> m == mv && board.after_move(is_white, mv).1
                    && tt_root_score(*this, *board, is_white, mv, e),
            { search_root_move(mv, board, is_white, this, &shared_alpha, &shared_beta) };
        let mut results = par_filter_map(pawn_moves.as_slice(), search);
        let wall_results = par_filter_map(wall_moves.as_slice(), search);
        proof {
            assert forall|k: int| 0 <= k < results@.len() implies #[trigger] tt_root_result(
                *this,
                *board,
                is_white,
                results@[k],
            ) by {
                let i = choose|i: int|
                    0 <= i < pawn_moves@.len() && search.ensures(
                        (#[trigger] pawn_moves@[i],),
                        Some(results@[k]),
                    );
            }
            assert forall|k: int| 0 <= k < wall_results@.len() implies #[trigger] tt_root_result(
                *this,
                *board,
                is_white,
                wall_results@[k],
            ) by {
                let i = choose|i: int|
                    0 <= i < wall_moves@.len() && search.ensures(
                        (#[trigger] wall_moves@[i],),
                        Some(wall_results@[k]),
                    );
            }
        }
        let mut i: usize = 0;
        while i < wall_results.len()
            invariant
                i <= wall_results@.len(),
                forall|k: int| 0 <= k < results@.len() ==> #[trigger] tt_root_result(*this, *board, is_white, results@[k]),
                forall|k: int|
                    0 <= k < wall_results@.len() ==> #[trigger] tt_root_result(*this, *board, is_white, wall_results@[k]),
            decreases wall_results.len() - i,
        {
            let item = wall_results[i];
            proof {
                assert(tt_root_result(*this, *board, is_white, wall_results@[i as int]));
            }
            let ghost before = results@;
            results.push(item);
            proof {
                assert forall|k: int| 0 <= k < results@.len() implies #[trigger] tt_root_result(*this, *board, is_white, results@[k]) by {
                    if k < before.len() {
                        assert(results@[k] == before[k]);
                    }
                }
            }
            i = i + 1;
        }
        proof {
            assert forall|k: int| 0 <= k < results@.len() implies board.is_legal(
                is_white,
                #[trigger] results@[k].0,
            ) by {
                assert(tt_root_result(*this, *board, is_white, results@[k]));
            }
        }
        match pick_best(&results, is_white) {
            Some(p) => {
                proof {
                    let i = choose|i: int| #[trigger] first_best(results@, is_white, i) && results@[i] == p;
                    assert(board.is_legal(is_white, results@[i].0));
                    assert(root_choice(*board, is_white, results@, p.0));
                }
                p.0
            },
            None => {
                let legal = RandomBot::legal_moves(board, is_white);
                proof {
                    let m = choose|m: Move| #[trigger] board.is_legal(is_white, m);
                    assert(legal@.contains(m));
                    assert(root_choice(*board, is_white, results@, legal@[0]));
                }
                legal[0]
            },
        }
    }
}

} // verus!

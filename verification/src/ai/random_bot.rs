//! A bot that plays a move chosen at random, with equal chances, among the
//! moves it may play.
use rand::rngs::ThreadRng;
use rand::seq::IndexedRandom;
use vstd::prelude::*;
use crate::game::board::Board;
use crate::game::move_list::{move_at, move_list_items, move_list_len};
use crate::game::moves::Move;
use crate::game::player::Player;

verus! {

#[verifier::external_type_specification]
#[verifier::external_body]
pub struct ExThreadRng(ThreadRng);

/// `rand::rng`: the random number generator of this thread.
#[verifier::external_body]
fn thread_rng() -> ThreadRng {
    rand::rng()
}

/// `IndexedRandom::choose` on a slice: one of its items, each with the same
/// chance. Of a non-empty slice it never returns `None`, so the item is
/// handed out directly.
#[verifier::external_body]
fn choose_one(moves: &Vec<Move>, rng: &mut ThreadRng) -> (mv: Move)
    requires
        moves.len() > 0,
    ensures
        moves@.contains(mv),
{
    *moves.as_slice().choose(rng).unwrap()
}

/// Plays a random move.
pub struct RandomBot {
    seed: ThreadRng,
}

impl RandomBot {
    pub fn new() -> Self {
        RandomBot { seed: thread_rng() }
    }

    /// The candidate moves of the given side that it may play, in order:
    /// the pawn moves, and the walls that [`Board::make_move`] accepts.
    pub fn legal_moves(board: &Board, is_white: bool) -> (legal: Vec<Move>)
        requires
            board.wf(),
        ensures
            forall|mv: Move| legal@.contains(mv) <==> #[trigger] board.is_legal(is_white, mv),
            legal@ == board.candidates(is_white).filter(|mv: Move| board.after_move(is_white, mv).1),
    {
        let moves = board.get_available_candidate_moves(is_white);
        proof {
            board.lemma_candidate_facts(is_white);
        }
        let ghost cands = board.candidates(is_white);
        let ghost keep = |mv: Move| board.after_move(is_white, mv).1;
        let n = move_list_len(&moves);
        let mut legal: Vec<Move> = Vec::new();
        let mut k: usize = 0;
        while k < n
            invariant
                n == cands.len(),
                move_list_items(moves) == cands,
                cands == board.candidates(is_white),
                keep == (|mv: Move| board.after_move(is_white, mv).1),
                k <= n,
                board.wf(),
                forall|i: int|
                    0 <= i < cands.len() ==> match #[trigger] cands[i] {
                        Move::Pawn { from, to } => from == board.pos(is_white) && to < 81,
                        Move::Wall { corner_idx, orientation } => corner_idx < 64
                            && crate::game::moves::wall_is_free(board.walls, corner_idx, orientation),
                    },
                legal@ == cands.take(k as int).filter(keep),
            decreases n - k,
        {
            let mv = move_at(&moves, k);
            proof {
                assert(cands.take(k + 1) == cands.take(k as int).push(mv));
                cands.take(k as int).lemma_filter_push(mv, keep);
            }
            match mv {
                Move::Pawn { .. } => {
                    legal.push(mv);
                },
                Move::Wall { .. } => {
                    let mut test = *board;
                    if test.make_move(is_white, mv) {
                        legal.push(mv);
                    }
                },
            }
            k = k + 1;
        }
        proof {
            assert(cands.take(n as int) == cands);
            broadcast use vstd::seq_lib::group_filter_ensures;
            assert forall|mv: Move| legal@.contains(mv) <==> #[trigger] board.is_legal(is_white, mv) by {
                if board.is_legal(is_white, mv) {
                    let j = choose|j: int| 0 <= j < cands.len() && cands[j] == mv;
                    assert(keep(cands[j]));
                    assert(cands.filter(keep).contains(cands[j]));
                }
                if legal@.contains(mv) {
                    let j = choose|j: int| 0 <= j < legal@.len() && legal@[j] == mv;
                    assert(keep(cands.filter(keep)[j]));
                    cands.lemma_filter_contains_rev(keep, mv);
                }
            }
        }
        legal
    }
}

impl Player for RandomBot {
    open spec fn can_move(&self, board: Board, is_white: bool) -> bool {
        true
    }

    /// A move it may play, chosen at random: each such move is as likely.
    fn get_move(&mut self, board: &Board, is_white: bool) -> (mv: Move) {
        let legal = RandomBot::legal_moves(board, is_white);
        proof {
            let m = choose|m: Move| #[trigger] board.is_legal(is_white, m);
            assert(legal@.contains(m));
        }
        choose_one(&legal, &mut self.seed)
    }
}

} // verus!

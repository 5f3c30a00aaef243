//! A human player types moves: `e2` moves the pawn to column `e`, row 2;
//! `e3h` and `d4v` place a horizontal or vertical wall on the corner at the
//! top right of that cell. Letters may be upper or lower case.
use vstd::prelude::*;
use crate::game::board::Board;
use crate::game::move_list::{move_at, move_list_items, move_list_len};
use crate::game::moves::{Move, Orientation};
use crate::text::chars_of;

verus! {

/// The ASCII lower case of `c`.
pub open spec fn lower(c: char) -> char {
    if 'A' <= c && c <= 'Z' {
        ((c as u32) + 32) as char
    } else {
        c
    }
}

/// The move typed as `s` (see the module's documentation), for the side
/// whose pawn stands on `from`: the first character is a column `a` to
/// `i`, the second a row `1` to `9`; two characters move the pawn there;
/// a third `h` or `v` places a wall on a corner, whose column and row are
/// at most `h` and `8`.
pub open spec fn typed_move(s: Seq<char>, from: u8) -> Option<Move> {
    let t = s.map_values(|c: char| lower(c));
    if t.len() < 2 {
        None
    } else {
        let col = t[0] as int - 'a' as int;
        let row = t[1] as int - '1' as int;
        if !(0 <= col < 9 && 0 <= row < 9) {
            None
        } else if t.len() == 2 {
            Some(Move::Pawn { from, to: (row * 9 + col) as u8 })
        } else if t.len() == 3 {
            if col >= 8 || row >= 8 {
                None
            } else if t[2] == 'h' {
                Some(Move::Wall { corner_idx: (row * 8 + col) as u8, orientation: Orientation::Horizontal })
            } else if t[2] == 'v' {
                Some(Move::Wall { corner_idx: (row * 8 + col) as u8, orientation: Orientation::Vertical })
            } else {
                None
            }
        } else {
            None
        }
    }
}

fn lower_char(c: char) -> (r: char)
    ensures
        r == lower(c),
{
    if 'A' <= c && c <= 'Z' {
        ((c as u8) + 32) as char
    } else {
        c
    }
}

/// The move typed as `s` for the side to move (see [`typed_move`]).
pub fn parse_move(s: &str, board: &Board, is_white: bool) -> (r: Option<Move>)
    ensures
        r == typed_move(s@, board.pos(is_white)),
{
    let cs = chars_of(s);
    let ghost t = s@.map_values(|c: char| lower(c));
    let n = cs.len();
    if n < 2 {
        return None;
    }
    let c0 = lower_char(cs[0]);
    let c1 = lower_char(cs[1]);
    assert(c0 == t[0] && c1 == t[1]);
    if !('a' <= c0 && c0 <= 'i' && '1' <= c1 && c1 <= '9') {
        return None;
    }
    let col = (c0 as u8) - ('a' as u8);
    let row = (c1 as u8) - ('1' as u8);
    let from = if is_white {
        board.white_pos()
    } else {
        board.black_pos()
    };
    if n == 2 {
        return Some(Move::Pawn { from, to: row * 9 + col });
    }
    if n != 3 {
        return None;
    }
    if col >= 8 || row >= 8 {
        return None;
    }
    let corner_idx = row * 8 + col;
    let c2 = lower_char(cs[2]);
    assert(c2 == t[2]);
    if c2 == 'h' {
        Some(Move::Wall { corner_idx, orientation: Orientation::Horizontal })
    } else if c2 == 'v' {
        Some(Move::Wall { corner_idx, orientation: Orientation::Vertical })
    } else {
        None
    }
}

/// What becomes of a line the human entered.
#[derive(Clone, Copy, Debug, PartialEq, Eq, Structural)]
pub enum LineOutcome {
    /// The line reads as no move.
    Invalid,
    /// The move is not one of the side's candidate moves.
    Illegal,
    /// The wall would cut a pawn off from its goal row.
    TrappingWall,
    /// The move is played.
    Play(Move),
}

/// The outcome of a line that reads as `typed`.
pub open spec fn line_outcome(board: Board, white: bool, typed: Option<Move>) -> LineOutcome {
    match typed {
        None => LineOutcome::Invalid,
        Some(mv) => if !board.candidates(white).contains(mv) {
            LineOutcome::Illegal
        } else if mv is Wall && !board.after_move(white, mv).1 {
            LineOutcome::TrappingWall
        } else {
            LineOutcome::Play(mv)
        },
    }
}

/// Reads typed moves for the human at the keyboard.
pub struct Human;

impl Human {
    /// Decides on an entered line (already trimmed): the move it plays, or
    /// why it plays none (see [`line_outcome`]). A move played is one the
    /// side may play.
    pub fn on_enter(&self, line: &str, board: &Board, is_white: bool) -> (r: LineOutcome)
        requires
            board.wf(),
        ensures
            r == line_outcome(*board, is_white, typed_move(line@, board.pos(is_white))),
            r matches LineOutcome::Play(mv) ==> board.is_legal(is_white, mv),
    {
        let mv = match parse_move(line, board, is_white) {
            None => {
                return LineOutcome::Invalid;
            },
            Some(mv) => mv,
        };
        let candidates = board.get_available_candidate_moves(is_white);
        proof {
            board.lemma_candidate_facts(is_white);
        }
        let n = move_list_len(&candidates);
        let mut found = false;
        let mut k: usize = 0;
        while k < n
            invariant
                n == board.candidates(is_white).len(),
                move_list_items(candidates) == board.candidates(is_white),
                k <= n,
                found == exists|j: int| 0 <= j < k && board.candidates(is_white)[j] == mv,
            decreases n - k,
        {
            if move_at(&candidates, k) == mv {
                found = true;
            }
            k = k + 1;
        }
        if !found {
            return LineOutcome::Illegal;
        }
        let ghost j = choose|j: int| 0 <= j < n && board.candidates(is_white)[j] == mv;
        if let Move::Wall { .. } = mv {
            let mut test = *board;
            if !test.make_move(is_white, mv) {
                return LineOutcome::TrappingWall;
            }
        }
        LineOutcome::Play(mv)
    }
}

} // verus!

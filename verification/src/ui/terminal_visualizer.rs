//! The drawn board: 17 by 17 character cells, top row first. Even rows and
//! columns are the cells of the board (board row 8 at the top), odd ones the
//! gaps between them where walls stand.
use vstd::prelude::*;
use crate::game::bits::{has_bit, lemma_shifted_bit};
use crate::game::board::Board;
use crate::game::moves::{Move, Orientation};

verus! {

/// The game as the interface shows it: the board, whose turn it is, and
/// the walls each side has placed, in order.
pub struct GameState {
    pub board: Board,
    pub is_white_turn: bool,
    pub white_walls: Vec<Move>,
    pub black_walls: Vec<Move>,
}

impl GameState {
    /// A new game: the starting position, white to move, no wall placed.
    pub fn new() -> (s: Self)
        ensures
            s.board == Board::start(),
            s.is_white_turn,
            s.white_walls@.len() == 0,
            s.black_walls@.len() == 0,
    {
        GameState {
            board: Board::new(),
            is_white_turn: true,
            white_walls: Vec::new(),
            black_walls: Vec::new(),
        }
    }

    /// Notes a wall placed by the given side.
    pub fn record_wall(&mut self, mv: Move, is_white: bool)
        ensures
            final(self).board == old(self).board,
            final(self).is_white_turn == old(self).is_white_turn,
            is_white ==> final(self).white_walls@ == old(self).white_walls@.push(mv)
                && final(self).black_walls@ == old(self).black_walls@,
            !is_white ==> final(self).black_walls@ == old(self).black_walls@.push(mv)
                && final(self).white_walls@ == old(self).white_walls@,
    {
        if is_white {
            self.white_walls.push(mv);
        } else {
            self.black_walls.push(mv);
        }
    }
}

/// The cell whose top-right corner is inner corner `c`, as the interface
/// counts it.
pub open spec fn corner_cell(c: u8) -> int {
    (c / 8) * 9 + c % 8
}

/// The `walls_above` and `walls_right` bits of a list of wall moves: each
/// horizontal wall sets the two bits from its corner's cell on, each
/// vertical wall the bit of its corner's cell and the one above.
pub open spec fn walls_bits(walls: Seq<Move>) -> (u128, u128)
    decreases walls.len(),
{
    if walls.len() == 0 {
        (0, 0)
    } else {
        let (above, right) = walls_bits(walls.drop_last());
        match walls.last() {
            Move::Wall { corner_idx, orientation: Orientation::Horizontal } => (
                above | (3u128 << (corner_cell(corner_idx) as u128)),
                right,
            ),
            Move::Wall { corner_idx, orientation: Orientation::Vertical } => (
                above,
                right | (513u128 << (corner_cell(corner_idx) as u128)),
            ),
            Move::Pawn { .. } => (above, right),
        }
    }
}

/// The wall bits of a list of wall moves (see [`walls_bits`]); the corners
/// lie in the first 128 cells.
pub fn walls_to_bits(walls: &[Move]) -> (r: (u128, u128))
    requires
        forall|i: int|
            0 <= i < walls@.len() ==> (#[trigger] walls@[i] matches Move::Wall { corner_idx, .. }
                ==> corner_cell(corner_idx) < 128),
    ensures
        r == walls_bits(walls@),
{
    let mut above = 0u128;
    let mut right = 0u128;
    let mut k: usize = 0;
    while k < walls.len()
        invariant
            k <= walls@.len(),
            forall|i: int|
                0 <= i < walls@.len() ==> (#[trigger] walls@[i] matches Move::Wall { corner_idx, .. }
                    ==> corner_cell(corner_idx) < 128),
            (above, right) == walls_bits(walls@.take(k as int)),
        decreases walls.len() - k,
    {
        let mv = walls[k];
        proof {
            assert(walls@.take(k + 1).drop_last() == walls@.take(k as int));
        }
        if let Move::Wall { corner_idx, orientation } = mv {
            let sq = (corner_idx / 8) as u32 * 9 + (corner_idx % 8) as u32;
            match orientation {
                Orientation::Horizontal => above = above | (3u128 << sq),
                Orientation::Vertical => right = right | (513u128 << sq),
            }
        }
        k = k + 1;
    }
    assert(walls@.take(walls@.len() as int) == walls@);
    (above, right)
}

/// Which side placed the wall on a cell edge, by the bits of each side's walls.
#[derive(Clone, Copy, Debug, PartialEq, Eq, Structural)]
pub enum WallOwner {
    White,
    Black,
    Neither,
}

/// White's walls first, then black's.
pub open spec fn owner_of(sq: int, white_bits: u128, black_bits: u128) -> WallOwner {
    if has_bit(white_bits, sq) {
        WallOwner::White
    } else if has_bit(black_bits, sq) {
        WallOwner::Black
    } else {
        WallOwner::Neither
    }
}

/// The owner of the wall on edge `sq` (see [`owner_of`]).
pub fn bit_color(sq: u32, white_bits: u128, black_bits: u128) -> (o: WallOwner)
    requires
        sq < 128,
    ensures
        o == owner_of(sq as int, white_bits, black_bits),
{
    proof {
        lemma_shifted_bit(white_bits, sq as u128);
        lemma_shifted_bit(black_bits, sq as u128);
    }
    if (white_bits >> sq) & 1 != 0 {
        WallOwner::White
    } else if (black_bits >> sq) & 1 != 0 {
        WallOwner::Black
    } else {
        WallOwner::Neither
    }
}

/// What a character cell of the drawn board shows.
#[derive(Clone, Copy, Debug, PartialEq, Eq, Structural)]
pub enum Glyph {
    WhitePawn,
    BlackPawn,
    EmptyCell,
    /// A wall along a column gap, and who placed it.
    VerticalWall(WallOwner),
    /// A wall along a row gap, and who placed it.
    HorizontalWall(WallOwner),
    /// A gap with no wall.
    Gap,
}

/// What the character cell in column `x` and row `y` (from the top) shows,
/// for a board with wall bits `above` and `right`, and the bits of the walls
/// each side placed. A board cell shows a pawn or nothing; a column gap the
/// wall right of the cell left of it; a row gap the wall above the cell
/// below it; a crossing the wall right of the cell below-left of it, else
/// the wall above that cell.
pub open spec fn glyph_at(
    b: Board,
    above: u128,
    right: u128,
    white: (u128, u128),
    black: (u128, u128),
    x: int,
    y: int,
) -> Glyph {
    let col = x / 2;
    if y % 2 == 0 {
        let row = 8 - y / 2;
        let sq = row * 9 + col;
        if x % 2 == 0 {
            if b.white.position_idx == sq {
                Glyph::WhitePawn
            } else if b.black.position_idx == sq {
                Glyph::BlackPawn
            } else {
                Glyph::EmptyCell
            }
        } else if has_bit(right, sq) {
            Glyph::VerticalWall(owner_of(sq, white.1, black.1))
        } else {
            Glyph::Gap
        }
    } else {
        let lower_row = 8 - (y + 1) / 2;
        let sq = lower_row * 9 + col;
        if x % 2 == 0 {
            if has_bit(above, sq) {
                Glyph::HorizontalWall(owner_of(sq, white.0, black.0))
            } else {
                Glyph::Gap
            }
        } else if has_bit(right, sq) {
            Glyph::VerticalWall(owner_of(sq, white.1, black.1))
        } else if has_bit(above, sq) {
            Glyph::HorizontalWall(owner_of(sq, white.0, black.0))
        } else {
            Glyph::Gap
        }
    }
}

/// Every wall recorded in the state sits on a corner of the first 128 cells.
pub open spec fn walls_in_range(walls: Seq<Move>) -> bool {
    forall|i: int|
        0 <= i < walls.len() ==> (#[trigger] walls[i] matches Move::Wall { corner_idx, .. }
            ==> corner_cell(corner_idx) < 128)
}

fn glyph(
    b: &Board,
    above: u128,
    right: u128,
    white: (u128, u128),
    black: (u128, u128),
    x: usize,
    y: usize,
) -> (g: Glyph)
    requires
        x < 17,
        y < 17,
    ensures
        g == glyph_at(*b, above, right, white, black, x as int, y as int),
{
    if y % 2 == 0 {
        let row = 8 - y / 2;
        let sq = (row * 9 + x / 2) as u32;
        if x % 2 == 0 {
            let idx = sq as u8;
            if b.white_pos() == idx {
                Glyph::WhitePawn
            } else if b.black_pos() == idx {
                Glyph::BlackPawn
            } else {
                Glyph::EmptyCell
            }
        } else {
            proof {
                lemma_shifted_bit(right, sq as u128);
            }
            if (right >> sq) & 1 != 0 {
                Glyph::VerticalWall(bit_color(sq, white.1, black.1))
            } else {
                Glyph::Gap
            }
        }
    } else {
        let lower_row = 8 - (y + 1) / 2;
        let sq = (lower_row * 9 + x / 2) as u32;
        proof {
            lemma_shifted_bit(right, sq as u128);
            lemma_shifted_bit(above, sq as u128);
        }
        if x % 2 == 0 {
            if (above >> sq) & 1 != 0 {
                Glyph::HorizontalWall(bit_color(sq, white.0, black.0))
            } else {
                Glyph::Gap
            }
        } else if (right >> sq) & 1 != 0 {
            Glyph::VerticalWall(bit_color(sq, white.1, black.1))
        } else if (above >> sq) & 1 != 0 {
            Glyph::HorizontalWall(bit_color(sq, white.0, black.0))
        } else {
            Glyph::Gap
        }
    }
}

/// The drawn board, row by row from the top: 17 rows of 17 character cells
/// (see [`glyph_at`]), each wall coloured by the side that placed it.
pub fn draw_board(state: &GameState) -> (rows: Vec<Vec<Glyph>>)
    requires
        walls_in_range(state.white_walls@),
        walls_in_range(state.black_walls@),
    ensures
        rows@.len() == 17,
        forall|y: int| 0 <= y < 17 ==> #[trigger] rows@[y]@.len() == 17,
        forall|x: int, y: int|
            0 <= x < 17 && 0 <= y < 17 ==> #[trigger] rows@[y]@[x] == glyph_at(
                state.board,
                state.board.walls.walls_above,
                state.board.walls.walls_right,
                walls_bits(state.white_walls@),
                walls_bits(state.black_walls@),
                x,
                y,
            ),
{
    let walls_above = state.board.walls_above_bits();
    let walls_right = state.board.walls_right_bits();
    let white = walls_to_bits(state.white_walls.as_slice());
    let black = walls_to_bits(state.black_walls.as_slice());
    let mut rows: Vec<Vec<Glyph>> = Vec::new();
    let mut y: usize = 0;
    while y < 17
        invariant
            y <= 17,
            rows@.len() == y,
            forall|yy: int| 0 <= yy < y ==> #[trigger] rows@[yy]@.len() == 17,
            forall|x: int, yy: int|
                0 <= x < 17 && 0 <= yy < y ==> #[trigger] rows@[yy]@[x] == glyph_at(
                    state.board,
                    walls_above,
                    walls_right,
                    white,
                    black,
                    x,
                    yy,
                ),
        decreases 17 - y,
    {
        let mut line: Vec<Glyph> = Vec::new();
        let mut x: usize = 0;
        while x < 17
            invariant
                x <= 17,
                y < 17,
                line@.len() == x,
                forall|xx: int|
                    0 <= xx < x ==> #[trigger] line@[xx] == glyph_at(
                        state.board,
                        walls_above,
                        walls_right,
                        white,
                        black,
                        xx,
                        y as int,
                    ),
            decreases 17 - x,
        {
            line.push(glyph(&state.board, walls_above, walls_right, white, black, x, y));
            x = x + 1;
        }
        rows.push(line);
        y = y + 1;
    }
    rows
}

} // verus!

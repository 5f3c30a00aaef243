use rustlab::game::board::Board;
use rustlab::game::moves::{Move, Orientation};
use rustlab::player_spec::{make_player, parse_depth_eval, BotFamily, EvalKind, PlayerSpec, PlayerSpecError};
use rustlab::ui::human::{parse_move, Human, LineOutcome};
use rustlab::ui::terminal_visualizer::{
    bit_color, draw_board, walls_to_bits, GameState, Glyph, WallOwner,
};

#[test]
fn parse_pawn_and_wall_moves() {
    let b = Board::new();
    assert_eq!(parse_move("e2", &b, true), Some(Move::Pawn { from: 4, to: 13 }));
    assert_eq!(parse_move("E2", &b, true), Some(Move::Pawn { from: 4, to: 13 }));
    assert_eq!(parse_move("e8", &b, false), Some(Move::Pawn { from: 76, to: 67 }));
    assert_eq!(
        parse_move("e3h", &b, true),
        Some(Move::Wall { corner_idx: 20, orientation: Orientation::Horizontal })
    );
    assert_eq!(
        parse_move("d4V", &b, true),
        Some(Move::Wall { corner_idx: 27, orientation: Orientation::Vertical })
    );
    assert_eq!(parse_move("i9", &b, true), Some(Move::Pawn { from: 4, to: 80 }));
}

#[test]
fn parse_rejects_bad_input() {
    let b = Board::new();
    assert_eq!(parse_move("", &b, true), None);
    assert_eq!(parse_move("e", &b, true), None);
    assert_eq!(parse_move("j1", &b, true), None);
    assert_eq!(parse_move("a0", &b, true), None);
    assert_eq!(parse_move("i1h", &b, true), None);
    assert_eq!(parse_move("a9v", &b, true), None);
    assert_eq!(parse_move("a1x", &b, true), None);
    assert_eq!(parse_move("a1hh", &b, true), None);
    assert_eq!(parse_move("é2", &b, true), None);
}

#[test]
fn human_line_outcomes() {
    let b = Board::new();
    let h = Human;
    assert_eq!(h.on_enter("e2", &b, true), LineOutcome::Play(Move::Pawn { from: 4, to: 13 }));
    assert_eq!(h.on_enter("zz", &b, true), LineOutcome::Invalid);
    assert_eq!(h.on_enter("e5", &b, true), LineOutcome::Illegal);
    assert_eq!(
        h.on_enter("a1h", &b, true),
        LineOutcome::Play(Move::Wall { corner_idx: 0, orientation: Orientation::Horizontal })
    );
}

#[test]
fn human_trapping_wall() {
    let mut b = Board::new();
    assert!(b.make_move(false, Move::Wall { corner_idx: 0, orientation: Orientation::Horizontal }));
    b.make_move(true, Move::Pawn { from: 4, to: 1 });
    let h = Human;
    assert_eq!(h.on_enter("b1v", &b, false), LineOutcome::TrappingWall);
}

#[test]
fn player_specs() {
    assert_eq!(make_player("human"), Ok(PlayerSpec::Human));
    assert_eq!(make_player("random"), Ok(PlayerSpec::Random));
    assert_eq!(make_player("ab5"), Ok(PlayerSpec::Bot(BotFamily::AlphaBeta, 5, EvalKind::Simple)));
    assert_eq!(
        make_player("ab7urgent"),
        Ok(PlayerSpec::Bot(BotFamily::AlphaBeta, 7, EvalKind::Urgent))
    );
    assert_eq!(make_player("mm3base"), Ok(PlayerSpec::Bot(BotFamily::MiniMax, 3, EvalKind::Base)));
    assert_eq!(make_player("p5urgent"), Ok(PlayerSpec::Bot(BotFamily::Parallel, 5, EvalKind::Urgent)));
    assert_eq!(make_player("e4"), Ok(PlayerSpec::Bot(BotFamily::Extend, 4, EvalKind::Simple)));
    assert_eq!(make_player("ab5foo"), Ok(PlayerSpec::Bot(BotFamily::AlphaBeta, 5, EvalKind::Simple)));
    assert_eq!(make_player("ab"), Err(PlayerSpecError::BadDepth(BotFamily::AlphaBeta)));
    assert_eq!(make_player("ab300"), Err(PlayerSpecError::BadDepth(BotFamily::AlphaBeta)));
    assert_eq!(make_player("ab0"), Err(PlayerSpecError::BadDepth(BotFamily::AlphaBeta)));
    assert_eq!(make_player("e00urgent"), Err(PlayerSpecError::BadDepth(BotFamily::Extend)));
    assert_eq!(make_player("xyz"), Err(PlayerSpecError::Unknown));
    assert_eq!(make_player("Human"), Err(PlayerSpecError::Unknown));
}

#[test]
fn depth_and_evaluator() {
    assert_eq!(parse_depth_eval("3"), Some((3, EvalKind::Simple)));
    assert_eq!(parse_depth_eval("12base"), Some((12, EvalKind::Base)));
    assert_eq!(parse_depth_eval("007urgent"), Some((7, EvalKind::Urgent)));
    assert_eq!(parse_depth_eval("255"), Some((255, EvalKind::Simple)));
    assert_eq!(parse_depth_eval("256"), None);
    assert_eq!(parse_depth_eval("base"), None);
    assert_eq!(parse_depth_eval(""), None);
}

#[test]
fn wall_bits_of_moves() {
    let walls = vec![
        Move::Wall { corner_idx: 0, orientation: Orientation::Horizontal },
        Move::Wall { corner_idx: 9, orientation: Orientation::Vertical },
    ];
    let (above, right) = walls_to_bits(&walls);
    assert_eq!(above, 3);
    assert_eq!(right, 513u128 << 10);
    assert_eq!(walls_to_bits(&[]), (0, 0));
}

#[test]
fn wall_owners() {
    assert_eq!(bit_color(3, 1 << 3, 0), WallOwner::White);
    assert_eq!(bit_color(3, 0, 1 << 3), WallOwner::Black);
    assert_eq!(bit_color(3, 1 << 3, 1 << 3), WallOwner::White);
    assert_eq!(bit_color(3, 0, 0), WallOwner::Neither);
}

#[test]
fn drawn_board() {
    let mut state = GameState::new();
    let rows = draw_board(&state);
    assert_eq!(rows.len(), 17);
    assert!(rows.iter().all(|r| r.len() == 17));
    // white on e1: bottom row, column 4; black on e9: top row, column 4
    assert_eq!(rows[16][8], Glyph::WhitePawn);
    assert_eq!(rows[0][8], Glyph::BlackPawn);
    assert_eq!(rows[16][0], Glyph::EmptyCell);
    assert_eq!(rows[15][0], Glyph::Gap);
    let mv = Move::Wall { corner_idx: 0, orientation: Orientation::Horizontal };
    assert!(state.board.make_move(true, mv));
    state.record_wall(mv, true);
    let rows = draw_board(&state);
    // the wall runs above cells a1 and b1; each crossing shows the wall
    // above the cell to its left
    assert_eq!(rows[15][0], Glyph::HorizontalWall(WallOwner::White));
    assert_eq!(rows[15][1], Glyph::HorizontalWall(WallOwner::White));
    assert_eq!(rows[15][2], Glyph::HorizontalWall(WallOwner::White));
    assert_eq!(rows[15][3], Glyph::HorizontalWall(WallOwner::White));
    assert_eq!(rows[15][4], Glyph::Gap);
    let mv = Move::Wall { corner_idx: 9, orientation: Orientation::Vertical };
    assert!(state.board.make_move(false, mv));
    state.record_wall(mv, false);
    let rows = draw_board(&state);
    assert_eq!(rows[14][3], Glyph::VerticalWall(WallOwner::Black));
    assert_eq!(rows[12][3], Glyph::VerticalWall(WallOwner::Black));
    assert_eq!(state.white_walls.len(), 1);
    assert_eq!(state.black_walls.len(), 1);
}

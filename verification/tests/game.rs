use rustlab::ai::alpha_beta_bot::AlphaBetaBot;
use rustlab::ai::evaluator::{BaseEvaluator, Evaluator, SimpleEvaluator, UrgentEvaluator};
use rustlab::ai::pab_extend_bot::{self, PABExtendBot};
use rustlab::ai::parallel_tt_bot::{self, ParallelTTBot};
use rustlab::ai::random_bot::RandomBot;
use rustlab::ai::parallel::{pick_best, window_step};
use rustlab::ai::tt::{classify, pack, unpack, NodeType, TT};
use rustlab::game::board::Board;
use rustlab::game::moves::{Move, Orientation};
use rustlab::game::player::Player;
use rustlab::game::state::GameResult;
use rustlab::game::zobrist::{get_zobrist, ZOBRIST_SEED};
use std::sync::atomic::AtomicI32;
use std::time::{Duration, Instant};

fn time_bot(bot: &mut dyn Player, board: &Board, is_white: bool) -> Duration {
    let start = Instant::now();
    bot.get_move(board, is_white);
    start.elapsed()
}

fn ms(d: Duration) -> f64 {
    d.as_secs_f64() * 1000.0
}

fn run_table(label: &str, board: &Board) {
    println!("\n-- {} (black to move) --", label);
    println!("{:<7} {:>15}", "depth", "alpha-beta (ms)");
    println!("{}", "-".repeat(23));
    for depth in 1u8..=2 {
        let ab = time_bot(&mut AlphaBetaBot::new(depth, SimpleEvaluator::new()), board, false);
        println!("{:<7} {:>15.2}", depth, ms(ab));
    }
}

#[test]
fn compare() {
    // Position 1: white just played e2, black to respond
    let mut board1 = Board::new();
    board1.make_move(true, Move::Pawn { from: 4, to: 13 });
    run_table("after white e2", &board1);

    // Position 2: white e2, black e8, white e3 — black to respond
    let mut board2 = board1;
    board2.make_move(false, Move::Pawn { from: 76, to: 67 });
    board2.make_move(true, Move::Pawn { from: 13, to: 22 });
    run_table("after white e3", &board2);

    // Position 3: white e2, black e8, white e3, black e7, white e4 — black to respond
    let mut board3 = board2;
    board3.make_move(false, Move::Pawn { from: 67, to: 58 });
    board3.make_move(true, Move::Pawn { from: 22, to: 31 });
    run_table("after white e4", &board3);
}

fn candidates(board: &Board, white: bool) -> Vec<Move> {
    board.get_available_candidate_moves(white).into_iter().collect()
}

fn is_legal(board: &Board, white: bool, mv: Move) -> bool {
    if !candidates(board, white).contains(&mv) {
        return false;
    }
    let mut test = *board;
    test.make_move(white, mv)
}

#[test]
fn start_position() {
    let b = Board::new();
    assert_eq!(b.white_pos(), 4);
    assert_eq!(b.black_pos(), 76);
    assert_eq!(b.white_walls_remaining(), 10);
    assert_eq!(b.black_walls_remaining(), 10);
    assert_eq!(b.walls_above_bits(), 0);
    assert_eq!(b.walls_right_bits(), 0);
    assert_eq!(b.check_result(), GameResult::InProgress);
    assert_eq!(b.distances(), (8, 8));
    assert!(b.state_valid());
}

#[test]
fn candidates_at_start() {
    let b = Board::new();
    let c = candidates(&b, true);
    assert_eq!(c.len(), 3 + 128);
    assert_eq!(c[0], Move::Pawn { from: 4, to: 13 });
    assert_eq!(c[1], Move::Pawn { from: 4, to: 3 });
    assert_eq!(c[2], Move::Pawn { from: 4, to: 5 });
    assert_eq!(c[3], Move::Wall { corner_idx: 0, orientation: Orientation::Horizontal });
    assert_eq!(c[4], Move::Wall { corner_idx: 0, orientation: Orientation::Vertical });
}

#[test]
fn jump_over_opponent() {
    let mut b = Board::new();
    b.make_move(true, Move::Pawn { from: 4, to: 40 });
    b.make_move(false, Move::Pawn { from: 76, to: 49 });
    let c = candidates(&b, true);
    // straight jump over the pawn right above
    assert!(c.contains(&Move::Pawn { from: 40, to: 58 }));
    assert!(!c.contains(&Move::Pawn { from: 40, to: 49 }));
}

#[test]
fn wall_then_unmake_restores_board() {
    let b = Board::new();
    let mut c = b;
    let mv = Move::Wall { corner_idx: 27, orientation: Orientation::Horizontal };
    assert!(c.make_move(true, mv));
    assert_eq!(c.white_walls_remaining(), 9);
    assert_ne!(c.walls_above_bits(), 0);
    assert!(c.unmake_move(true, mv));
    assert_eq!(c, b);
}

#[test]
fn wall_raises_distance() {
    let mut b = Board::new();
    // a horizontal wall right above white's pawn (corner at cells 4 and 5's top edges)
    assert!(b.make_move(false, Move::Wall { corner_idx: 4, orientation: Orientation::Horizontal }));
    let (w, bl) = b.distances();
    // both pawns must step around the wall across column e
    assert_eq!(w, 9);
    assert_eq!(bl, 9);
}

#[test]
fn trapping_wall_is_refused() {
    let mut b = Board::new();
    // Box in white's home corner region: cells 0,1 (row 0) walled above, cell 1 walled right.
    assert!(b.make_move(false, Move::Wall { corner_idx: 0, orientation: Orientation::Horizontal }));
    b.make_move(true, Move::Pawn { from: 4, to: 3 });
    b.make_move(true, Move::Pawn { from: 3, to: 2 });
    b.make_move(true, Move::Pawn { from: 2, to: 1 });
    // white on cell 1; the vertical wall on corner 1 closes cells 0-1 off
    let mv = Move::Wall { corner_idx: 1, orientation: Orientation::Vertical };
    let before = b;
    assert!(!b.make_move(false, mv));
    // the wall is taken back, and the mover's count goes up by one
    assert_eq!(b.walls_above_bits(), before.walls_above_bits());
    assert_eq!(b.walls_right_bits(), before.walls_right_bits());
    assert_eq!(b.black_walls_remaining(), before.black_walls_remaining() + 1);
    assert!(b.state_valid());
}

#[test]
fn game_results() {
    let mut b = Board::new();
    b.make_move(true, Move::Pawn { from: 4, to: 76 });
    assert_eq!(b.check_result(), GameResult::WhiteWins);
    let mut b = Board::new();
    b.make_move(false, Move::Pawn { from: 76, to: 8 });
    assert_eq!(b.check_result(), GameResult::BlackWins);
}

#[test]
fn evaluator_scores_at_start() {
    let b = Board::new();
    assert_eq!(BaseEvaluator::new().eval(&b, true), 0);
    assert_eq!(SimpleEvaluator::new().eval(&b, true), 5);
    assert_eq!(SimpleEvaluator::new().eval(&b, false), -5);
    assert_eq!(UrgentEvaluator::new().eval(&b, true), 5);
}

#[test]
fn evaluator_scores_after_moves() {
    let mut b = Board::new();
    b.make_move(true, Move::Pawn { from: 4, to: 13 });
    assert!(b.make_move(true, Move::Wall { corner_idx: 60, orientation: Orientation::Horizontal }));
    // white 7 from goal, black 8 (the wall is beside black's column), white 9 walls, black 10
    let (w, bl) = b.distances();
    assert_eq!(BaseEvaluator::new().eval(&b, false), bl as i32 - w as i32);
    let simple = SimpleEvaluator::new().eval(&b, false);
    assert_eq!(simple, 10 * (bl as i32 - w as i32) + (9 - 10) - 5);
    let urgency = w.min(bl) as usize;
    let weights = [0, 2, 4, 6, 8, 10, 7, 4, 1, 1];
    let ww = if urgency > 9 { 1 } else { weights[urgency] };
    assert_eq!(UrgentEvaluator::new().eval(&b, true), 10 * (bl as i32 - w as i32) + ww * (9 - 10) + 5);
}

#[test]
fn evaluator_decided_games() {
    let mut b = Board::new();
    b.make_move(true, Move::Pawn { from: 4, to: 76 });
    assert_eq!(BaseEvaluator::new().eval(&b, true), i32::MAX);
    let mut b = Board::new();
    b.make_move(false, Move::Pawn { from: 76, to: 4 });
    assert_eq!(SimpleEvaluator::new().eval(&b, true), i32::MIN);
}

#[test]
fn alpha_beta_plays_legal_move() {
    let b = Board::new();
    let mut bot = AlphaBetaBot::new(1, SimpleEvaluator::new());
    let mv = bot.get_move(&b, true);
    assert!(is_legal(&b, true, mv));
    // one ply deep, the pawn steps towards its goal
    assert_eq!(mv, Move::Pawn { from: 4, to: 13 });
}

#[test]
fn alpha_beta_takes_the_win() {
    let mut b = Board::new();
    b.make_move(true, Move::Pawn { from: 4, to: 67 });
    let mut bot = AlphaBetaBot::new(2, BaseEvaluator::new());
    let mv = bot.get_move(&b, true);
    // black stands right above, so the pawn steps diagonally onto the goal row
    assert_eq!(mv, Move::Pawn { from: 67, to: 77 });
}

#[test]
fn alpha_beta_scores_finished_game() {
    let mut b = Board::new();
    b.make_move(true, Move::Pawn { from: 4, to: 76 });
    let bot = AlphaBetaBot::new(3, BaseEvaluator::new());
    let mut c = b;
    assert_eq!(bot.get_eval(&mut c, false, 3, i32::MIN, i32::MAX), i32::MAX - 200 + 3);
    assert_eq!(c, b);
}

#[test]
fn random_bot_plays_legal_moves() {
    let b = Board::new();
    let mut bot = RandomBot::new();
    for _ in 0..20 {
        let mv = bot.get_move(&b, false);
        assert!(is_legal(&b, false, mv));
    }
    assert_eq!(RandomBot::legal_moves(&b, true).len(), 131);
}

#[test]
fn extend_bot_plays_legal_move() {
    let b = Board::new();
    let mut bot = PABExtendBot::new(1, SimpleEvaluator::new());
    let mv = bot.get_move(&b, true);
    assert!(is_legal(&b, true, mv));
}

#[test]
fn parallel_tt_bot_plays_legal_move() {
    let b = Board::new();
    let mut bot = ParallelTTBot::new(1, SimpleEvaluator::new(), 10);
    let mv = bot.get_move(&b, true);
    assert!(is_legal(&b, true, mv));
}

#[test]
fn tt_words_round_trip() {
    for &(score, depth, nt) in &[
        (0, 0, NodeType::Exact),
        (-5, 3, NodeType::LowerBound),
        (i32::MIN, 255, NodeType::UpperBound),
        (i32::MAX, 7, NodeType::Exact),
    ] {
        let raw = pack(score, depth, nt);
        assert_eq!(unpack(raw, depth), Some((score, nt)));
        assert_eq!(unpack(raw, 0), Some((score, nt)));
        if depth < 255 {
            assert_eq!(unpack(raw, depth + 1), None);
        }
    }
    assert_eq!(pack(-1, 2, NodeType::UpperBound), 0xFFFF_FFFF | (2 << 32) | (2 << 40) | (1 << 42));
    // the unused code 3 reads as exact
    assert_eq!(unpack((3 << 40) | (1 << 42), 0), Some((0, NodeType::Exact)));
    // a word never written reads as nothing
    assert_eq!(unpack(0, 0), None);
}

#[test]
fn tt_store_then_lookup() {
    let tt = TT::new(4);
    assert_eq!(tt.lookup(12345, 0), None);
    // a fresh table misses even the hash its zeroed keys hold
    assert_eq!(tt.lookup(0, 0), None);
    tt.store(12345, -42, 6, NodeType::LowerBound);
    assert_eq!(tt.lookup(12345, 6), Some((-42, NodeType::LowerBound)));
    assert_eq!(tt.lookup(12345, 7), None);
    // another key in the same slot misses
    assert_eq!(tt.lookup(12345 + 16, 0), None);
}

fn xorshift(mut s: u64) -> u64 {
    s ^= s << 13;
    s ^= s >> 7;
    s ^= s << 17;
    s
}

#[test]
fn zobrist_tables_follow_generator() {
    let z = get_zobrist();
    let k0 = xorshift(ZOBRIST_SEED);
    let k1 = xorshift(k0);
    assert_eq!(z.white_pos[0], k0);
    assert_eq!(z.white_pos[1], k1);
    let mut s = ZOBRIST_SEED;
    for _ in 0..505 {
        s = xorshift(s);
    }
    assert_eq!(z.black_turn, s);
    assert_eq!(z.corner_bit.len(), 64);
    assert_eq!(z.wall_above_bit.len(), 128);
}

#[test]
fn zobrist_hash_of_positions() {
    let z = get_zobrist();
    let b = Board::new();
    let expected = z.white_pos[4] ^ z.black_pos[76] ^ z.white_walls_rem[10] ^ z.black_walls_rem[10];
    assert_eq!(b.zobrist_hash(true), expected);
    assert_eq!(b.zobrist_hash(false), expected ^ z.black_turn);
    let mut c = b;
    assert!(c.make_move(true, Move::Wall { corner_idx: 0, orientation: Orientation::Vertical }));
    let h = c.zobrist_hash(true);
    let expected = z.white_pos[4] ^ z.black_pos[76] ^ z.white_walls_rem[9] ^ z.black_walls_rem[10]
        ^ z.wall_right_bit[0] ^ z.wall_right_bit[9] ^ z.corner_bit[0];
    assert_eq!(h, expected);
    assert_eq!(c.zobrist_hash_with(&z, true), h);
}

/// Plain minimax, written out for the test, on the same rules as the bots:
/// a finished game scores by the plies left; the horizon by the evaluator;
/// refused walls are skipped.
fn minimax(e: &BaseEvaluator, b: &Board, white: bool, depth: u8) -> i32 {
    match b.check_result() {
        GameResult::WhiteWins => return i32::MAX - 200 + depth as i32,
        GameResult::BlackWins => return i32::MIN + 200 - depth as i32,
        GameResult::InProgress => {}
    }
    if depth == 0 {
        return e.eval(b, white);
    }
    let mut best = if white { i32::MIN } else { i32::MAX };
    for mv in candidates(b, white) {
        let mut child = *b;
        if !child.make_move(white, mv) {
            continue;
        }
        let v = minimax(e, &child, !white, depth - 1);
        if (white && v > best) || (!white && v < best) {
            best = v;
        }
    }
    best
}

#[test]
fn alpha_beta_plays_as_minimax() {
    let mut b = Board::new();
    b.make_move(true, Move::Pawn { from: 4, to: 13 });
    b.make_move(false, Move::Pawn { from: 76, to: 67 });
    assert!(b.make_move(true, Move::Wall { corner_idx: 51, orientation: Orientation::Horizontal }));
    let e = BaseEvaluator::new();
    let root = minimax(&e, &b, false, 2);
    let mut bot = AlphaBetaBot::new(2, BaseEvaluator::new());
    let mv = bot.get_move(&b, false);
    let mut child = b;
    assert!(child.make_move(false, mv));
    assert_eq!(minimax(&e, &child, true, 1), root);
    // searched with the full window, the score is the minimax value itself
    let mut c = b;
    assert_eq!(bot.get_eval(&mut c, false, 2, i32::MIN, i32::MAX), root);
    assert_eq!(c, b);
}

#[test]
fn accepted_wall_keeps_both_paths() {
    let mut b = Board::new();
    for c in [0u8, 2, 4, 6] {
        assert!(b.make_move(true, Move::Wall { corner_idx: c, orientation: Orientation::Horizontal }));
        assert!(b.state_valid());
    }
    // the last gap in the row is at column i: a wall there would close it
    let mut c = b;
    assert!(!c.make_move(true, Move::Wall { corner_idx: 7, orientation: Orientation::Horizontal }));
    assert!(c.state_valid());
}

#[test]
fn root_move_search_respects_window() {
    let b = Board::new();
    let bot = PABExtendBot::new(1, SimpleEvaluator::new());
    let mv = Move::Pawn { from: 4, to: 13 };
    let sa = AtomicI32::new(i32::MIN);
    let sb = AtomicI32::new(i32::MAX);
    assert_eq!(pab_extend_bot::search_root_move_in_window(mv, &b, true, &bot, 5, 5, &sa, &sb), None);
    let r = pab_extend_bot::search_root_move_in_window(mv, &b, true, &bot, i32::MIN, i32::MAX, &sa, &sb);
    assert!(matches!(r, Some((m, _)) if m == mv));
    let r = pab_extend_bot::search_root_move(mv, &b, true, &bot, &sa, &sb);
    assert!(matches!(r, Some((m, _)) if m == mv));
}

#[test]
fn tt_root_move_search_respects_window() {
    let b = Board::new();
    let bot = ParallelTTBot::new(1, SimpleEvaluator::new(), 10);
    let mv = Move::Pawn { from: 4, to: 13 };
    let sa = AtomicI32::new(i32::MIN);
    let sb = AtomicI32::new(i32::MAX);
    assert_eq!(parallel_tt_bot::search_root_move_in_window(mv, &b, true, &bot, 3, -3, &sa, &sb), None);
    let r = parallel_tt_bot::search_root_move_in_window(mv, &b, true, &bot, i32::MIN, i32::MAX, &sa, &sb);
    assert!(matches!(r, Some((m, _)) if m == mv));
    let r = parallel_tt_bot::search_root_move(mv, &b, true, &bot, &sa, &sb);
    assert!(matches!(r, Some((m, _)) if m == mv));
}

#[test]
fn extend_bot_window_and_horizon_scores() {
    let mut b = Board::new();
    let bot = PABExtendBot::new(1, SimpleEvaluator::new());
    let sa = AtomicI32::new(i32::MIN);
    let sb = AtomicI32::new(i32::MAX);
    assert_eq!(bot.get_eval_in_window(&mut b, true, 2, false, false, 0, 10, 20, i32::MAX, &sa, &sb), 20);
    assert_eq!(bot.get_eval_in_window(&mut b, false, 2, false, false, 0, 10, 20, i32::MAX, &sa, &sb), 10);
    let expected = SimpleEvaluator::new().eval(&b, true);
    assert_eq!(
        bot.get_eval_in_window(&mut b, true, 0, false, false, i32::MIN, i32::MAX, i32::MIN, i32::MAX, &sa, &sb),
        expected
    );
}

#[test]
fn tt_bot_window_entry_and_horizon_scores() {
    let mut b = Board::new();
    let bot = ParallelTTBot::new(1, SimpleEvaluator::new(), 10);
    let sa = AtomicI32::new(i32::MIN);
    let sb = AtomicI32::new(i32::MAX);
    assert_eq!(bot.get_eval_in_window(&mut b, true, 2, 0, 10, 0, 20, i32::MAX, &sa, &sb), 20);
    assert_eq!(bot.get_eval_in_window(&mut b, false, 2, 0, 10, 0, 20, -5, &sa, &sb), -5);
    assert_eq!(bot.get_eval_from_entry(&mut b, true, 2, 0, 10, 0, 7, Some((42, NodeType::Exact)), &sa, &sb), 42);
    assert_eq!(bot.get_eval_from_entry(&mut b, true, 2, 0, 10, 0, 7, Some((50, NodeType::LowerBound)), &sa, &sb), 50);
    assert_eq!(bot.get_eval_from_entry(&mut b, true, 2, 0, 10, 0, 7, Some((-3, NodeType::UpperBound)), &sa, &sb), -3);
    let expected = SimpleEvaluator::new().eval(&b, true);
    assert_eq!(bot.get_eval_from_entry(&mut b, true, 0, i32::MIN, i32::MAX, 0, 7, None, &sa, &sb), expected);
    assert_eq!(b, Board::new());
}

#[test]
fn root_results_pick_the_first_best() {
    let m = |to: u8| Move::Pawn { from: 4, to };
    let results = vec![(m(3), 3), (m(5), 5), (m(13), 5)];
    assert_eq!(pick_best(&results, true), Some((m(5), 5)));
    assert_eq!(pick_best(&results, false), Some((m(3), 3)));
    assert_eq!(pick_best(&Vec::new(), true), None);
    assert_eq!(window_step(true, i32::MIN, 0, 10, 5), (5, 5, 10));
    assert_eq!(window_step(false, i32::MAX, 0, 10, 5), (5, 0, 5));
    assert_eq!(window_step(true, 7, 0, 10, 5), (7, 5, 10));
    assert_eq!(classify(3, 3, 10), NodeType::UpperBound);
    assert_eq!(classify(10, 0, 10), NodeType::LowerBound);
    assert_eq!(classify(5, 0, 10), NodeType::Exact);
}

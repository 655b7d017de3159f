use superchess::endgame::endgame_solver;
use superchess::chess::{Move, Position};
use superchess::eval::{evaluate, Evaluator};
use superchess::lmr::lmr_base;
use superchess::search::{
    capture_score, gravity, losing_capture_reduction, pv_to_uci, soft_stop, sort_desc, Searcher,
};
use superchess::see::see;
use superchess::tt::{next_power_of_two, Bound, TranspositionTable};
use superchess::types::{score_from_tt, score_to_tt, MATE_SCORE, MATE_THRESHOLD};
use superchess::uci::{
    choose_move, command_of, parse_go, parse_i32, parse_position, parse_u64, text_is, Command,
};

fn board(fen: &str) -> Position {
    fen.parse::<Position>().expect("valid FEN")
}

fn mv(from: u8, to: u8) -> Move {
    Move { from, to, promotion: None }
}

#[test]
fn search_finds_back_rank_mate() {
    let pos = board("6k1/5ppp/8/8/8/8/8/R5K1 w - - 0 1");
    let mut s = Searcher::new(1);
    let r = s.search(&pos, 3, u64::MAX);
    assert_eq!(r.best_move, Some(mv(0, 56)));
    assert_eq!(r.pv[0], mv(0, 56));
    assert!(r.score >= MATE_SCORE - 10, "mate score expected, got {}", r.score);
}

#[test]
fn search_pv_is_a_legal_line() {
    let pos = Position::default();
    let mut s = Searcher::new(1);
    let r = s.search(&pos, 4, u64::MAX);
    assert!(r.best_move.is_some());
    assert_eq!(r.depth, 4);
    let text = pv_to_uci(&pos, &r.pv);
    assert_eq!(text.len(), r.pv.len());
    // Replaying the line plays every move: each one is legal.
    let mut tokens = vec!["position", "startpos", "moves"];
    tokens.extend(text.iter().map(|t| t.as_str()));
    let mut replay = Position::default();
    let hist = parse_position(&tokens, &mut replay);
    assert_eq!(hist.len(), r.pv.len() + 1);
}

#[test]
fn search_of_stalemate_has_no_move() {
    let pos = board("7k/5Q2/6K1/8/8/8/8/8 b - - 0 1");
    assert_eq!(choose_move(&pos, None), None);
    let mut s = Searcher::new(1);
    let r = s.search(&pos, 3, u64::MAX);
    assert_eq!(r.best_move, None);
    assert!(r.pv.is_empty());
    assert_eq!(choose_move(&pos, r.best_move), None);
}

#[test]
fn search_of_depth_zero_searches_nothing() {
    let pos = Position::default();
    let mut s = Searcher::new(1);
    let r = s.search(&pos, 0, u64::MAX);
    assert_eq!(r.best_move, None);
    assert_eq!(r.depth, 0);
}

#[test]
fn search_steps_report_each_depth() {
    let pos = Position::default();
    let mut s = Searcher::new(1);
    let mut ctl = s.start_search(3, u64::MAX);
    let mut depths = Vec::new();
    while !ctl.finished() {
        if let Some(info) = s.search_step(&pos, &mut ctl) {
            assert!(!info.pv.is_empty());
            depths.push(info.depth);
        }
    }
    assert_eq!(depths, vec![1, 2, 3]);
    let r = ctl.into_result();
    assert_eq!(r.depth, 3);
}

#[test]
fn pv_text_follows_the_line() {
    let pos = Position::default();
    // e2e4 e7e5 g1f3
    let pv = vec![mv(12, 28), mv(52, 36), mv(6, 21)];
    let text = pv_to_uci(&pos, &pv);
    assert_eq!(text, vec!["e2e4".to_string(), "e7e5".to_string(), "g1f3".to_string()]);
}

#[test]
fn choose_move_falls_back_to_a_legal_move() {
    let pos = Position::default();
    let first = choose_move(&pos, None).expect("the start position has moves");
    let text = pv_to_uci(&pos, &vec![first]);
    let mut replay = Position::default();
    let hist = parse_position(&["position", "startpos", "moves", text[0].as_str()], &mut replay);
    assert_eq!(hist.len(), 2);
    assert_eq!(choose_move(&pos, Some(mv(12, 28))), Some(mv(12, 28)));
}

#[test]
fn checkmate_is_found_at_depth_one() {
    // Black is mated: a search from it has no move and the side to move
    // scores the mate.
    let pos = board("R5k1/5ppp/8/8/8/8/8/6K1 b - - 0 1");
    let mut s = Searcher::new(1);
    let r = s.search(&pos, 1, u64::MAX);
    assert_eq!(r.best_move, None);
    assert_eq!(choose_move(&pos, None), None);
}

#[test]
fn sort_desc_orders_by_score() {
    let v = vec![(3, 0usize), (9, 1), (-1, 2), (9, 3), (5, 4)];
    let r = sort_desc(v);
    assert_eq!(r, vec![(9, 1), (9, 3), (5, 4), (3, 0), (-1, 2)]);
}

#[test]
fn lmr_base_values() {
    // floor(ln 10 * ln 10 / 2.0015) = 2
    assert_eq!(lmr_base(10, 10), 2);
    // ln 1 = 0: the first move is never reduced
    assert_eq!(lmr_base(20, 1), 0);
    // floor(ln 127 * ln 218 / 2.0015) = 13
    assert_eq!(lmr_base(127, 218), 13);
    assert_eq!(lmr_base(3, 7), 1);
    assert_eq!(lmr_base(3, 6), 0);
}

#[test]
fn gravity_moves_toward_bonus() {
    assert_eq!(gravity(0, 100), 100);
    assert_eq!(gravity(16384, 100), 16384);
    assert_eq!(gravity(-8192, 64), -8192 + 64 + 32);
}

#[test]
fn see_of_free_knight_is_its_value() {
    // White pawn e4 takes an undefended knight on d5.
    let pos = board("4k3/8/8/3n4/4P3/8/8/4K3 w - - 0 1");
    let m = mv(28, 35);
    assert_eq!(see(pos.data(), m), 320);
    // 10000 + 16 * 320 + 4 * 320 + 0 - 100 / 8
    assert_eq!(capture_score(pos.data(), m), 10_000 + 5_120 + 1_280 - 12);
}

#[test]
fn losing_capture_reduction_example() {
    // Queen takes a pawn defended by a pawn: the exchange loses 800.
    let pos = board("4k3/8/2p5/3p4/8/8/3Q4/4K3 w - - 0 1");
    let m = mv(11, 35);
    assert_eq!(see(pos.data(), m), -800);
    // 1 + 8 / 4 + min(800 / 100, 2) = 5, within 1..=6
    assert_eq!(losing_capture_reduction(pos.data(), m, 8, 5), 5);
    assert_eq!(losing_capture_reduction(pos.data(), m, 8, 3), 0);
    assert_eq!(losing_capture_reduction(pos.data(), m, 2, 5), 0);
}

#[test]
fn tt_store_then_probe_and_clear() {
    let mut tt = TranspositionTable::new(1);
    tt.store(42, 17, 5, 3, Bound::Exact, Some(mv(12, 28)));
    let e = tt.probe(42).expect("stored");
    assert_eq!(e.score, 17);
    assert_eq!(e.depth, 3);
    assert_eq!(e.bound, Bound::Exact);
    assert_eq!(e.best_move, Some(mv(12, 28)));
    tt.clear();
    assert!(tt.probe(42).is_none());
}

#[test]
fn tt_size_is_a_power_of_two() {
    assert_eq!(next_power_of_two(0), 1);
    assert_eq!(next_power_of_two(5), 8);
    assert_eq!(next_power_of_two(64), 64);
}

#[test]
fn tt_mate_scores_shift_with_ply() {
    let s = MATE_SCORE - 4;
    assert!(s > MATE_THRESHOLD);
    assert_eq!(score_to_tt(s, 6), s + 6);
    assert_eq!(score_from_tt(score_to_tt(s, 6), 2), s + 4);
    assert_eq!(score_to_tt(-s, 6), -s - 6);
}

#[test]
fn parse_numbers_like_std() {
    assert_eq!(parse_u64("1500"), Some(1500));
    assert_eq!(parse_u64("+7"), Some(7));
    assert_eq!(parse_u64("-7"), None);
    assert_eq!(parse_u64(""), None);
    assert_eq!(parse_u64("18446744073709551615"), Some(u64::MAX));
    assert_eq!(parse_u64("18446744073709551616"), None);
    assert_eq!(parse_i32("-2147483648"), Some(i32::MIN));
    assert_eq!(parse_i32("2147483648"), None);
    assert_eq!(parse_i32("12a"), None);
    assert_eq!(parse_i32("-"), None);
    for t in ["0", "+3", "-3", "999", "x", "", "4294967296"] {
        assert_eq!(parse_u64(t), t.parse::<u64>().ok());
        assert_eq!(parse_i32(t), t.parse::<i32>().ok());
    }
}

#[test]
fn parse_go_time_management() {
    let white = Position::default();
    // 60000 / 30 = 2000, three times that is 6000, below 18000.
    assert_eq!(parse_go(&["go", "wtime", "60000", "btime", "60000"], &white), (64, 6000));
    // With an increment: 1000 / 10 + 900 = 1000, tripled 3000, capped at 300.
    assert_eq!(
        parse_go(&["go", "wtime", "1000", "winc", "1000", "movestogo", "10"], &white),
        (64, 300)
    );
    assert_eq!(parse_go(&["go", "movetime", "250", "depth", "7"], &white), (7, 250));
    assert_eq!(parse_go(&["go", "infinite"], &white), (64, u64::MAX));
    assert_eq!(parse_go(&["go", "depth", "nope"], &white).0, 64);
    // Without clocks the default 60000 is used; the floor is 50 ms.
    assert_eq!(parse_go(&["go"], &white), (64, 6000));
    assert_eq!(parse_go(&["go", "wtime", "100"], &white), (64, 50));
    let black = board("4k3/8/8/8/8/8/8/4K3 b - - 0 1");
    assert_eq!(parse_go(&["go", "wtime", "60000", "btime", "3000"], &black), (64, 300));
}

#[test]
fn parse_position_skips_illegal_moves_and_keeps_history() {
    let mut pos = Position::default();
    let start_hash = pos.data().hash;
    let tokens = ["position", "startpos", "moves", "e2e4", "e2e4", "zz", "e7e5"];
    let hist = parse_position(&tokens, &mut pos);
    assert_eq!(hist.len(), 3);
    assert_eq!(hist[0], start_hash);
    assert_eq!(*hist.last().unwrap(), pos.data().hash);
    assert_eq!(pos.data().fullmove_number, 2);
}

#[test]
fn parse_position_fen_and_bad_fen() {
    let mut pos = Position::default();
    let tokens = ["position", "fen", "4k3/8/8/8/8/8/8/4K2Q", "w", "-", "-", "0", "1", "moves", "h1h8"];
    let hist = parse_position(&tokens, &mut pos);
    assert_eq!(hist.len(), 2);
    assert_eq!(pos.data().checkers != 0, true);
    let before = pos.data().hash;
    let hist2 = parse_position(&["position", "fen", "not", "a", "fen"], &mut pos);
    assert_eq!(hist2, vec![before]);
    let mut fresh = Position::default();
    let h = parse_position(&["position"], &mut fresh);
    assert_eq!(h, vec![Position::default().data().hash]);
}

#[test]
fn command_names() {
    assert_eq!(command_of("uci"), Command::Uci);
    assert_eq!(command_of("isready"), Command::IsReady);
    assert_eq!(command_of("ucinewgame"), Command::UciNewGame);
    assert_eq!(command_of("position"), Command::Position);
    assert_eq!(command_of("go"), Command::Go);
    assert_eq!(command_of("quit"), Command::Quit);
    assert_eq!(command_of("stop"), Command::Other);
    assert!(text_is("moves", "moves"));
    assert!(!text_is("move", "moves"));
}

#[test]
fn repetition_at_root_scores_draw() {
    // After Ng1-f3 Ng8-f6 Nf3-g1 Nf6-g8 the start position repeats; a search
    // from the position after Nf3-g1 sees Nf6-g8 as a repetition.
    let mut pos = Position::default();
    let hist = parse_position(
        &["position", "startpos", "moves", "g1f3", "g8f6", "f3g1", "f6g8", "g1f3", "g8f6", "f3g1"],
        &mut pos,
    );
    let mut s = Searcher::new(1);
    s.set_root_history(hist);
    let r = s.search(&pos, 2, u64::MAX);
    assert!(r.best_move.is_some());
}

#[test]
fn evaluating_again_gives_the_same_score() {
    let pos = board("r1bqkb1r/pppp1ppp/2n2n2/4N3/2B1P3/8/PPPP1PPP/RNBQK2R w KQkq - 0 1");
    let mut e = Evaluator::new();
    let first = evaluate(&pos, &mut e);
    let second = evaluate(&pos, &mut e);
    assert_eq!(first, second);
    let mut fresh = Evaluator::new();
    assert_eq!(evaluate(&pos, &mut fresh), first);
}

#[test]
fn kbnk_prefers_the_corner_of_the_bishop_colour() {
    // Light-squared bishop on d1: a8 is a light corner, a1 a dark one.
    let light_corner = board("k7/8/8/8/4K3/8/8/3B2N1 w - - 0 1");
    let dark_corner = board("8/8/8/8/4K3/8/8/k2B2N1 w - - 0 1");
    let a = endgame_solver(light_corner.data()).unwrap();
    let b = endgame_solver(dark_corner.data()).unwrap();
    assert!(a > b && b > 0, "a8 {} should beat a1 {}", a, b);
    assert_eq!(a, 330 + 320 + 100 + 40 * 3 + 20 * (7 - 4));
    assert_eq!(b, 330 + 320 + 100 + 20 * (7 - 4));
}

#[test]
fn pawn_cache_never_changes_a_score() {
    let fens = [
        "rnbqkbnr/pppppppp/8/8/4P3/8/PPPP1PPP/RNBQKBNR b KQkq - 0 1",
        "r1bqkb1r/pppp1ppp/2n2n2/4p3/2B1P3/5N2/PPPP1PPP/RNBQK2R w KQkq - 4 4",
        "8/5pk1/6p1/8/3P4/6P1/5PK1/8 w - - 0 1",
        "rnbqkbnr/pppppppp/8/8/4P3/8/PPPP1PPP/RNBQKBNR b KQkq - 0 1",
    ];
    let mut shared = Evaluator::new();
    for fen in fens {
        let pos = board(fen);
        let mut fresh = Evaluator::new();
        assert_eq!(evaluate(&pos, &mut shared), evaluate(&pos, &mut fresh), "{}", fen);
    }
}

#[test]
fn mate_in_one_found_at_depth_one() {
    let pos = board("6k1/5ppp/8/8/8/8/8/R5K1 w - - 0 1");
    let mut s = Searcher::new(1);
    let r = s.search(&pos, 1, u64::MAX);
    assert_eq!(r.best_move, Some(mv(0, 56)));
    assert_eq!(r.score, MATE_SCORE - 1);
    assert_eq!(r.depth, 1);
    assert_eq!(r.pv, vec![mv(0, 56)]);
}

#[test]
fn fifty_move_draw_with_moves_has_no_result() {
    let pos = board("4k3/8/8/8/8/8/4P3/4K3 w - - 100 80");
    let mut s = Searcher::new(1);
    let r = s.search(&pos, 3, u64::MAX);
    assert_eq!(r.best_move, None);
    assert!(r.pv.is_empty());
    assert_eq!(r.depth, 0);
    assert_eq!(r.score, 0);
}

#[test]
fn tt_same_slot_keeps_the_deeper_entry() {
    let mut tt = TranspositionTable::new(1);
    let k1 = 5u64;
    let k2 = k1 | (1u64 << 63);
    tt.store(k1, 10, 0, 10, Bound::Exact, None);
    tt.store(k2, 20, 0, 1, Bound::Lower, None);
    assert!(tt.probe(k2).is_none());
    let e = tt.probe(k1).unwrap();
    assert_eq!(e.depth, 10);
    assert_eq!(e.score, 10);
}

#[test]
fn tt_older_generation_is_replaced() {
    let mut tt = TranspositionTable::new(1);
    let k1 = 5u64;
    let k2 = k1 | (1u64 << 63);
    tt.store(k1, 10, 0, 10, Bound::Exact, None);
    tt.new_search();
    tt.store(k2, 20, 0, 1, Bound::Lower, None);
    let e = tt.probe(k2).unwrap();
    assert_eq!(e.depth, 1);
    assert_eq!(e.bound, Bound::Lower);
    assert!(tt.probe(k1).is_none());
}

#[test]
fn soft_stop_follows_move_stability() {
    assert!(!soft_stop(700, 1000, 0, 5));
    assert!(soft_stop(701, 1000, 0, 5));
    assert!(!soft_stop(850, 1000, 0, 4));
    assert!(soft_stop(851, 1000, 1, 9));
    assert!(!soft_stop(1500, 1000, 2, 9));
    assert!(soft_stop(1501, 1000, 3, 9));
    assert!(!soft_stop(u64::MAX, u64::MAX, 0, 9));
    assert!(soft_stop(u64::MAX - 1, u64::MAX - 1, 0, 9));
}

#[test]
fn see_is_at_most_the_first_gain() {
    // White rook d1 takes a pawn on d5 defended by the pawn on e6.
    let pos = board("4k3/8/4p3/3p4/8/8/8/3RK3 w - - 0 1");
    let m = mv(3, 35);
    assert_eq!(see(pos.data(), m), 100 - 500);
    assert!(see(pos.data(), m) <= 100);
}

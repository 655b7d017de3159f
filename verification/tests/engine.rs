use superchess::chess::{move_to_uci, Move, Position};
use superchess::endgame::endgame_solver;
use superchess::eval::{evaluate, Evaluator};
use superchess::types::{
    score_from_tt, score_to_tt, Color, Piece, MATE_SCORE, QUEEN_VALUE, ROOK_VALUE,
};
use superchess::uci::parse_position;

fn board(fen: &str) -> Position {
    fen.parse::<Position>().expect("valid FEN")
}

fn mv(from: u8, to: u8) -> Move {
    Move { from, to, promotion: None }
}

#[test]
fn endgame_kqk_white_wins() {
    let pos = board("4k3/8/8/8/8/8/8/4K2Q w - - 0 1");
    let s = endgame_solver(pos.data());
    assert!(s.is_some());
    assert!(s.unwrap() > QUEEN_VALUE, "KQK should return large positive score, got {}", s.unwrap());
}

#[test]
fn endgame_kqk_black_wins() {
    let pos = board("4k2q/8/8/8/8/8/8/4K3 w - - 0 1");
    let s = endgame_solver(pos.data());
    assert!(s.is_some());
    assert!(s.unwrap() < -QUEEN_VALUE, "KQK Black should return large negative, got {}", s.unwrap());
}

#[test]
fn endgame_krk_corner() {
    let pos = board("k7/8/8/8/8/8/8/4K2R w - - 0 1");
    let s = endgame_solver(pos.data());
    assert!(s.is_some());
    assert!(s.unwrap() > ROOK_VALUE, "KRK should score above rook value, got {}", s.unwrap());
}

#[test]
fn endgame_kpk_rook_pawn_draw() {
    let pos = board("8/8/8/8/P7/8/1k6/K7 w - - 0 1");
    let s = endgame_solver(pos.data());
    if let Some(score) = s {
        assert!(score.abs() <= 10, "Rook-pawn KPK with intercepting king should be draw, got {}", score);
    }
}

#[test]
fn evaluate_kqk_white_perspective() {
    let pos = board("4k3/8/8/8/8/8/8/4K2Q w - - 0 1");
    let mut eval = Evaluator::new();
    let s = evaluate(&pos, &mut eval);
    assert!(s > 500, "White KQK should be positive, got {}", s);
}

#[test]
fn evaluate_symmetric_mobility_startpos() {
    let pos = Position::default();
    let mut eval = Evaluator::new();
    let s = evaluate(&pos, &mut eval);
    assert!(s.abs() < 100, "Startpos should be near equal, got {}", s);
}

#[test]
fn knight_outpost_bonus_white() {
    let pos = board("4k3/8/8/4N3/3P4/8/8/4K3 w - - 0 1");
    let mut eval = Evaluator::new();
    let with_outpost = evaluate(&pos, &mut eval);
    let pos2 = board("4k3/8/8/8/3P4/8/4N3/4K3 w - - 0 1");
    let no_outpost = evaluate(&pos2, &mut eval);
    assert!(
        with_outpost > no_outpost,
        "Outpost knight should score higher: outpost={}, no_outpost={}",
        with_outpost,
        no_outpost
    );
}

#[test]
fn knight_outpost_bonus_awarded() {
    let outpost = board("4k3/8/8/4N3/3P4/8/8/4K3 w - - 0 1");
    let no_outpost = board("4k3/8/8/8/3P4/8/4N3/4K3 w - - 0 1");
    let mut eval = Evaluator::new();
    let s_outpost = evaluate(&outpost, &mut eval);
    let s_no = evaluate(&no_outpost, &mut eval);
    assert!(
        s_outpost > s_no,
        "Knight on outpost should score higher: outpost={}, no_outpost={}",
        s_outpost,
        s_no
    );
}

#[test]
fn opposite_color_bishop_draw_scaling() {
    let pos = board("4k3/4p3/8/3B4/4b3/8/4P3/4K3 w - - 0 1");
    let mut eval = Evaluator::new();
    let s = evaluate(&pos, &mut eval);
    assert!(s.abs() < 50, "OCB endgame should be near-draw, got {}", s);
}

#[test]
fn bishop_color_complex_penalty() {
    let board_bad = board("4k3/8/8/8/8/4B3/1P1P1P2/4K3 w - - 0 1");
    let mut eval = Evaluator::new();
    let bad = evaluate(&board_bad, &mut eval);
    let board_good = board("4k3/8/8/8/8/4B3/2P1P1P1/4K3 w - - 0 1");
    let good = evaluate(&board_good, &mut eval);
    assert!(good >= bad, "Good bishop complex should score at least as well: good={}, bad={}", good, bad);
}

#[test]
fn space_advantage_open_position() {
    let pos = board("r1bqkb1r/pppp1ppp/2n2n2/4N3/2B1P3/8/PPPP1PPP/RNBQK2R w KQkq - 0 1");
    let mut eval = Evaluator::new();
    let s = evaluate(&pos, &mut eval);
    assert!(s > 0, "White with active pieces should have positive eval, got {}", s);
}

#[test]
fn mate_score_tt_roundtrip() {
    let ply = 3usize;
    let score = -(MATE_SCORE - 8);
    let stored = score_to_tt(score, ply);
    let recovered = score_from_tt(stored, ply);
    assert_eq!(recovered, score, "Mate score should survive TT roundtrip");
}

#[test]
fn mate_score_tt_different_ply() {
    let score = MATE_SCORE - 10;
    let stored = score_to_tt(score, 3);
    let at_ply5 = score_from_tt(stored, 5);
    assert_eq!(at_ply5, score - 2, "Mate score at different ply should adjust by ply delta");
}

#[test]
fn normal_score_tt_unchanged() {
    let score = 150;
    let stored = score_to_tt(score, 7);
    let recovered = score_from_tt(stored, 7);
    assert_eq!(recovered, score);
    let at_other = score_from_tt(stored, 2);
    assert_eq!(at_other, score, "Normal scores should not change with ply");
}

#[test]
fn move_to_uci_outputs_standard_white_castling() {
    let pos = board("rnbqkb1r/ppp2ppp/4pn2/3p4/8/5NP1/PPPPPPBP/RNBQK2R w KQkq - 0 4");
    // e1h1: the king takes its own rook.
    assert_eq!(move_to_uci(mv(4, 7), &pos), "e1g1");
}

#[test]
fn move_to_uci_outputs_standard_black_castling() {
    let pos = board("rnbqk2r/ppppbppp/5n2/4p3/4P3/5N2/PPPPBPPP/RNBQ1RK1 b kq - 1 5");
    assert_eq!(move_to_uci(mv(60, 63), &pos), "e8g8");
}

#[test]
fn move_to_uci_outputs_standard_queenside_castling() {
    let white_board = board("r3kbnr/ppp1pppp/2n1b3/3p4/3P4/2N1B3/PPPQPPPP/R3KBNR w KQkq - 4 5");
    let black_board = board("r3kbnr/ppp1pppp/2n1b3/3p4/3P4/2N1B3/PPPQPPPP/2KR1BNR b kq - 5 5");
    assert_eq!(move_to_uci(mv(4, 0), &white_board), "e1c1");
    assert_eq!(move_to_uci(mv(60, 56), &black_board), "e8c8");
}

// Squares: a1 = 0, ..., h1 = 7, ..., a8 = 56, ..., h8 = 63.
const C1: u8 = 2;
const D1: u8 = 3;
const E1: u8 = 4;
const F1: u8 = 5;
const G1: u8 = 6;
const H1: u8 = 7;
const C8: u8 = 58;
const D8: u8 = 59;
const E8: u8 = 60;
const F8: u8 = 61;
const G8: u8 = 62;
const H8: u8 = 63;

#[test]
fn parse_position_accepts_standard_uci_white_castling() {
    let mut pos = Position::default();
    let tokens = [
        "position", "startpos", "moves", "e2e4", "e7e5", "g1f3", "b8c6", "f1e2", "g8f6", "e1g1",
    ];

    parse_position(&tokens, &mut pos);

    let d = pos.data();
    assert_eq!(d.piece_on(G1), Some(Piece::King));
    assert_eq!(d.color_on(G1), Some(Color::White));
    assert_eq!(d.piece_on(F1), Some(Piece::Rook));
    assert_eq!(d.color_on(F1), Some(Color::White));
    assert_eq!(d.piece_on(E1), None);
    assert_eq!(d.piece_on(H1), None);
}

#[test]
fn parse_position_accepts_standard_uci_black_castling() {
    let mut pos = Position::default();
    let tokens = [
        "position", "startpos", "moves", "e2e4", "e7e5", "g1f3", "b8c6", "f1e2", "g8f6", "e1g1",
        "f8e7", "d2d3", "e8g8",
    ];

    parse_position(&tokens, &mut pos);

    let d = pos.data();
    assert_eq!(d.piece_on(G8), Some(Piece::King));
    assert_eq!(d.color_on(G8), Some(Color::Black));
    assert_eq!(d.piece_on(F8), Some(Piece::Rook));
    assert_eq!(d.color_on(F8), Some(Color::Black));
    assert_eq!(d.piece_on(E8), None);
    assert_eq!(d.piece_on(H8), None);
}

#[test]
fn parse_position_accepts_standard_uci_queenside_castling() {
    let mut pos = Position::default();
    let tokens = [
        "position", "startpos", "moves", "d2d4", "d7d5", "b1c3", "b8c6", "c1e3", "c8e6", "d1d2",
        "d8d7", "e1c1", "e8c8",
    ];

    parse_position(&tokens, &mut pos);

    let d = pos.data();
    assert_eq!(d.piece_on(C1), Some(Piece::King));
    assert_eq!(d.color_on(C1), Some(Color::White));
    assert_eq!(d.piece_on(D1), Some(Piece::Rook));
    assert_eq!(d.color_on(D1), Some(Color::White));
    assert_eq!(d.piece_on(C8), Some(Piece::King));
    assert_eq!(d.color_on(C8), Some(Color::Black));
    assert_eq!(d.piece_on(D8), Some(Piece::Rook));
    assert_eq!(d.color_on(D8), Some(Color::Black));
}

#[test]
fn played_move_passes_the_turn() {
    let mut pos = Position::default();
    let hist = parse_position(&["position", "startpos", "moves", "e2e4"], &mut pos);
    assert_eq!(hist.len(), 2);
    assert_eq!(pos.data().side_to_move, Color::Black);
    assert_eq!(pos.data().piece_on(28), Some(Piece::Pawn));
}

#[test]
fn invalid_fen_is_refused() {
    assert!("not a fen".parse::<Position>().is_err());
    assert!("8/8/8/8/8/8/8/8 w - - 0 1".parse::<Position>().is_err());
}

use chess_sensei::engine::Stockfish;

fn pawns(cp: i64) -> f64 {
    cp as f64 / 100.0
}

#[test]
fn mate_for_side_to_move_scores_near_plus_thousand() {
    let s = Stockfish::new();
    assert_eq!(s.normalize_evaluation_cp(0, Some(3)), 99700);
    assert_eq!(pawns(s.normalize_evaluation_cp(0, Some(3))), 997.0);
}

#[test]
fn being_mated_scores_near_minus_thousand() {
    let s = Stockfish::new();
    assert_eq!(s.normalize_evaluation_cp(0, Some(-2)), -99800);
    assert_eq!(pawns(s.normalize_evaluation_cp(0, Some(-2))), -998.0);
}

#[test]
fn centipawns_convert_to_pawns() {
    let s = Stockfish::new();
    assert_eq!(s.normalize_evaluation_cp(150, None), 150);
    assert_eq!(pawns(s.normalize_evaluation_cp(150, None)), 1.5);
}

#[test]
fn mate_in_zero_counts_as_being_mated() {
    let s = Stockfish::new();
    assert_eq!(pawns(s.normalize_evaluation_cp(500, Some(0))), -1000.0);
}

#[test]
fn closer_mates_score_more_extreme() {
    let s = Stockfish::new();
    assert!(s.normalize_evaluation_cp(0, Some(1)) > s.normalize_evaluation_cp(0, Some(5)));
    assert!(s.normalize_evaluation_cp(0, Some(-1)) < s.normalize_evaluation_cp(0, Some(-5)));
    assert!(s.normalize_evaluation_cp(90000, None) < s.normalize_evaluation_cp(0, Some(20)));
}

use chess_sensei::stats::{compute_user_stats, PuzzleAttempt};

fn attempt(puzzle_id: i64, solved: bool, attempts: i32) -> PuzzleAttempt {
    PuzzleAttempt {
        puzzle_id,
        solved,
        attempts,
        time_spent: 30,
        timestamp: "2024-01-01T00:00:00Z".to_string(),
    }
}

fn ratio<N: Into<f64>>(parts: (N, u64)) -> f64 {
    parts.0.into() / parts.1 as f64
}

#[test]
fn empty_history_gives_zero_stats() {
    let stats = compute_user_stats(&Vec::new());
    assert_eq!(stats.total_attempts, 0);
    assert_eq!(stats.solved_count, 0);
    assert_eq!(stats.success_rate(), (0, 1));
    assert_eq!(stats.average_attempts(), (0, 1));
    assert_eq!(stats.success_rate().0 as f64 / stats.success_rate().1 as f64, 0.0);
    assert_eq!(stats.average_attempts().0 as f64 / stats.average_attempts().1 as f64, 0.0);
}

#[test]
fn three_attempts_two_solved() {
    let history = vec![attempt(1, true, 1), attempt(2, false, 3), attempt(1, true, 2)];
    let stats = compute_user_stats(&history);
    assert_eq!(stats.total_attempts, 3);
    assert_eq!(stats.solved_count, 2);
    assert_eq!(stats.success_rate(), (2, 3));
    let rate = ratio((stats.success_rate().0 as u32, stats.success_rate().1));
    assert_eq!(rate, 2.0 / 3.0);
    assert_eq!(stats.attempts_sum, 6);
    assert_eq!(stats.average_attempts(), (6, 3));
}

#[test]
fn unsolved_only_history_has_zero_rate() {
    let history = vec![attempt(7, false, 4)];
    let stats = compute_user_stats(&history);
    assert_eq!(stats.success_rate(), (0, 1));
    assert_eq!(stats.average_attempts(), (4, 1));
}

use chess_sensei::catalog::{
    find_opening, find_puzzle, resolve_limit, select_puzzles, sort_openings, Opening, Puzzle,
    DEFAULT_PUZZLE_LIMIT,
};
use chess_sensei::seed::seed_plan;

/// Rows as a freshly seeded store holds them, ids assigned from 1.
fn seeded_puzzles() -> Vec<Puzzle> {
    seed_plan(0)
        .puzzles
        .into_iter()
        .enumerate()
        .map(|(i, s)| Puzzle {
            id: i as i64 + 1,
            fen: s.fen,
            solution: s.solution,
            theme: s.theme,
            difficulty: s.difficulty,
            description: Some(s.description),
        })
        .collect()
}

fn seeded_openings() -> Vec<Opening> {
    seed_plan(0)
        .openings
        .into_iter()
        .enumerate()
        .map(|(i, s)| Opening {
            id: i as i64 + 1,
            eco: s.eco,
            name: s.name,
            moves: s.moves,
            description: s.description,
        })
        .collect()
}

fn puzzle(id: i64, theme: &str, difficulty: i32) -> Puzzle {
    Puzzle {
        id,
        fen: "8/8/8/8/8/8/8/K6k w - - 0 1".to_string(),
        solution: "[]".to_string(),
        theme: theme.to_string(),
        difficulty,
        description: None,
    }
}

#[test]
fn theme_filter_on_seeded_store_returns_the_mate_in_one() {
    let mut rows = seeded_puzzles();
    for _ in 0..2 {
        let got = select_puzzles(&rows, Some("mate_in_1"), None, 10);
        assert_eq!(got.len(), 1);
        assert_eq!(got[0].theme, "mate_in_1");
        assert_eq!(got[0].solution, "[\"Qxf7#\"]");
        rows.reverse();
    }
}

#[test]
fn no_filter_returns_everything_up_to_limit() {
    let rows = vec![puzzle(1, "a", 1), puzzle(2, "b", 2), puzzle(3, "a", 2)];
    assert_eq!(select_puzzles(&rows, None, None, 10).len(), 3);
    let two = select_puzzles(&rows, None, None, 2);
    assert_eq!(two.iter().map(|p| p.id).collect::<Vec<_>>(), vec![1, 2]);
    assert_eq!(select_puzzles(&rows, None, None, 0).len(), 0);
}

#[test]
fn negative_limit_sets_no_bound() {
    let rows = vec![puzzle(1, "a", 1), puzzle(2, "b", 2), puzzle(3, "a", 2)];
    assert_eq!(select_puzzles(&rows, None, None, -1).len(), 3);
}

#[test]
fn theme_and_difficulty_filters_combine() {
    let rows = vec![puzzle(1, "a", 1), puzzle(2, "b", 2), puzzle(3, "a", 2)];
    let got = select_puzzles(&rows, Some("a"), Some(2), 10);
    assert_eq!(got.iter().map(|p| p.id).collect::<Vec<_>>(), vec![3]);
    let by_level = select_puzzles(&rows, None, Some(2), 10);
    assert_eq!(by_level.iter().map(|p| p.id).collect::<Vec<_>>(), vec![2, 3]);
}

#[test]
fn nothing_matching_gives_empty_listing() {
    let rows = seeded_puzzles();
    assert!(select_puzzles(&rows, Some("endgame"), None, 10).is_empty());
    assert!(select_puzzles(&Vec::new(), None, None, 10).is_empty());
}

#[test]
fn missing_puzzle_id_is_absent() {
    let rows = seeded_puzzles();
    assert!(find_puzzle(&rows, 99).is_none());
    assert!(find_puzzle(&Vec::new(), 1).is_none());
}

#[test]
fn puzzle_lookup_finds_by_id() {
    let rows = seeded_puzzles();
    let p = find_puzzle(&rows, 2).unwrap();
    assert_eq!(p.id, 2);
    assert_eq!(p.theme, "opening");
}

#[test]
fn opening_lookup_finds_by_id_or_nothing() {
    let rows = seeded_openings();
    assert_eq!(find_opening(&rows, 2).unwrap().name, "Ruy Lopez");
    assert!(find_opening(&rows, 0).is_none());
}

#[test]
fn listing_limit_defaults_to_ten() {
    assert_eq!(resolve_limit(None), 10);
    assert_eq!(DEFAULT_PUZZLE_LIMIT, 10);
    assert_eq!(resolve_limit(Some(3)), 3);
}

fn opening(id: i64, eco: &str) -> Opening {
    Opening {
        id,
        eco: eco.to_string(),
        name: format!("line {}", id),
        moves: "[]".to_string(),
        description: String::new(),
    }
}

#[test]
fn openings_come_back_in_code_order() {
    let rows = vec![opening(1, "C60"), opening(2, "B20"), opening(3, "C20"), opening(4, "A00")];
    let sorted = sort_openings(&rows);
    let codes: Vec<&str> = sorted.iter().map(|o| o.eco.as_str()).collect();
    assert_eq!(codes, vec!["A00", "B20", "C20", "C60"]);
    let again = sort_openings(&rows);
    assert_eq!(
        again.iter().map(|o| o.id).collect::<Vec<_>>(),
        sorted.iter().map(|o| o.id).collect::<Vec<_>>()
    );
}

#[test]
fn equal_codes_keep_their_order_and_prefixes_sort_first() {
    let rows = vec![opening(1, "C2"), opening(2, "C20"), opening(3, "B"), opening(4, "C20"), opening(5, "")];
    let ids: Vec<i64> = sort_openings(&rows).iter().map(|o| o.id).collect();
    assert_eq!(ids, vec![5, 3, 1, 2, 4]);
}

#[test]
fn seeded_openings_are_listed_by_code() {
    let mut rows = seeded_openings();
    rows.reverse();
    let sorted = sort_openings(&rows);
    assert_eq!(sorted[0].eco, "C20");
    assert_eq!(sorted[1].eco, "C60");
    assert!(sort_openings(&Vec::new()).is_empty());
}

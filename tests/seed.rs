use chess_sensei::seed::seed_plan;

#[test]
fn empty_store_gets_sample_content() {
    let plan = seed_plan(0);
    assert_eq!(plan.puzzles.len(), 2);
    assert_eq!(plan.openings.len(), 2);
    assert_eq!(plan.puzzles[0].theme, "mate_in_1");
    assert_eq!(plan.puzzles[1].theme, "opening");
    assert_eq!(plan.puzzles[1].description, "King's Knight Opening");
    assert_eq!(plan.openings[0].eco, "C20");
    assert_eq!(plan.openings[1].eco, "C60");
    assert_eq!(plan.openings[1].moves, "[\"e4\", \"e5\", \"Nf3\", \"Nc6\", \"Bb5\"]");
}

#[test]
fn second_initialization_adds_nothing() {
    let first = seed_plan(0);
    let after_first = first.puzzles.len() as i64;
    let second = seed_plan(after_first);
    assert!(second.puzzles.is_empty());
    assert!(second.openings.is_empty());
    assert!(seed_plan(17).puzzles.is_empty());
}

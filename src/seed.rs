//! Sample content written into a store whose puzzle table is empty, and the
//! rule that makes repeated initialization add it only once.
use vstd::prelude::*;

verus! {

/// Columns of a puzzle row to insert; the store assigns the id.
pub struct PuzzleSeed {
    pub fen: String,
    pub solution: String,
    pub theme: String,
    pub difficulty: i32,
    pub description: String,
}

/// Columns of an opening row to insert; the store assigns the id.
pub struct OpeningSeed {
    pub eco: String,
    pub name: String,
    pub moves: String,
    pub description: String,
}

/// The rows one initialization inserts.
pub struct SeedPlan {
    pub puzzles: Vec<PuzzleSeed>,
    pub openings: Vec<OpeningSeed>,
}

impl View for PuzzleSeed {
    type V = (Seq<char>, Seq<char>, Seq<char>, i32, Seq<char>);

    open spec fn view(&self) -> Self::V {
        (self.fen@, self.solution@, self.theme@, self.difficulty, self.description@)
    }
}

impl View for OpeningSeed {
    type V = (Seq<char>, Seq<char>, Seq<char>, Seq<char>);

    open spec fn view(&self) -> Self::V {
        (self.eco@, self.name@, self.moves@, self.description@)
    }
}

/// The two sample puzzles: a mate in one and an opening move.
pub open spec fn sample_puzzles() -> Seq<(Seq<char>, Seq<char>, Seq<char>, i32, Seq<char>)> {
    seq![
        (
            "r1bqkb1r/pppp1ppp/2n2n2/4p2Q/2B1P3/8/PPPP1PPP/RNB1K1NR w KQkq - 0 1"@,
            "[\"Qxf7#\"]"@,
            "mate_in_1"@,
            1i32,
            "scholars mate pattern"@,
        ),
        (
            "rnbqkbnr/pppp1ppp/8/4p3/4P3/8/PPPP1PPP/RNBQKBNR w KQkq - 0 1"@,
            "[\"Nf3\"]"@,
            "opening"@,
            1i32,
            "King's Knight Opening"@,
        ),
    ]
}

/// The two sample openings.
pub open spec fn sample_openings() -> Seq<(Seq<char>, Seq<char>, Seq<char>, Seq<char>)> {
    seq![
        (
            "C20"@,
            "King's Pawn Game"@,
            "[\"e4\", \"e5\", \"Nf3\"]"@,
            "古典的なオープニング。中央を取り、駒を速く展開する。"@,
        ),
        (
            "C60"@,
            "Ruy Lopez"@,
            "[\"e4\", \"e5\", \"Nf3\", \"Nc6\", \"Bb5\"]"@,
            "最も有名なオープニングの一つ。b5のビショップで圧力をかける。"@,
        ),
    ]
}

/// Puzzle rows that initialization adds to a store holding `existing` puzzles.
pub open spec fn seeded_puzzle_rows(existing: int) -> nat {
    if existing == 0 {
        sample_puzzles().len()
    } else {
        0
    }
}

/// Opening rows that initialization adds to a store holding `existing` puzzles.
pub open spec fn seeded_opening_rows(existing: int) -> nat {
    if existing == 0 {
        sample_openings().len()
    } else {
        0
    }
}

/// Row counts (puzzles, openings) after one initialization.
pub open spec fn rows_after_init(puzzles: nat, openings: nat) -> (nat, nat) {
    (puzzles + seeded_puzzle_rows(puzzles as int), openings + seeded_opening_rows(puzzles as int))
}

/// Row counts (puzzles, openings) after `n` initializations in a row.
pub open spec fn rows_after_inits(puzzles: nat, openings: nat, n: nat) -> (nat, nat)
    decreases n,
{
    if n == 0 {
        (puzzles, openings)
    } else {
        let next = rows_after_init(puzzles, openings);
        rows_after_inits(next.0, next.1, (n - 1) as nat)
    }
}

/// The rows to insert when the puzzle table holds `puzzle_count` rows: all
/// sample content when it is empty, nothing otherwise.
pub fn seed_plan(puzzle_count: i64) -> (r: SeedPlan)
    ensures
        r.puzzles@.len() == seeded_puzzle_rows(puzzle_count as int),
        r.openings@.len() == seeded_opening_rows(puzzle_count as int),
        puzzle_count == 0 ==> r.puzzles@.map_values(|s: PuzzleSeed| s@) == sample_puzzles(),
        puzzle_count == 0 ==> r.openings@.map_values(|s: OpeningSeed| s@) == sample_openings(),
{
    let mut puzzles: Vec<PuzzleSeed> = Vec::new();
    let mut openings: Vec<OpeningSeed> = Vec::new();
    if puzzle_count == 0 {
        puzzles.push(
            PuzzleSeed {
                fen: String::from_str(
                    "r1bqkb1r/pppp1ppp/2n2n2/4p2Q/2B1P3/8/PPPP1PPP/RNB1K1NR w KQkq - 0 1",
                ),
                solution: String::from_str("[\"Qxf7#\"]"),
                theme: String::from_str("mate_in_1"),
                difficulty: 1,
                description: String::from_str("scholars mate pattern"),
            },
        );
        puzzles.push(
            PuzzleSeed {
                fen: String::from_str("rnbqkbnr/pppp1ppp/8/4p3/4P3/8/PPPP1PPP/RNBQKBNR w KQkq - 0 1"),
                solution: String::from_str("[\"Nf3\"]"),
                theme: String::from_str("opening"),
                difficulty: 1,
                description: String::from_str("King's Knight Opening"),
            },
        );
        openings.push(
            OpeningSeed {
                eco: String::from_str("C20"),
                name: String::from_str("King's Pawn Game"),
                moves: String::from_str("[\"e4\", \"e5\", \"Nf3\"]"),
                description: String::from_str("古典的なオープニング。中央を取り、駒を速く展開する。"),
            },
        );
        openings.push(
            OpeningSeed {
                eco: String::from_str("C60"),
                name: String::from_str("Ruy Lopez"),
                moves: String::from_str("[\"e4\", \"e5\", \"Nf3\", \"Nc6\", \"Bb5\"]"),
                description: String::from_str(
                    "最も有名なオープニングの一つ。b5のビショップで圧力をかける。",
                ),
            },
        );
        assert(puzzles@.map_values(|s: PuzzleSeed| s@) =~= sample_puzzles());
        assert(openings@.map_values(|s: OpeningSeed| s@) =~= sample_openings());
    }
    SeedPlan { puzzles, openings }
}

/// Once a store holds a puzzle, initialization leaves its row counts alone.
proof fn lemma_init_fixed_point(puzzles: nat, openings: nat, n: nat)
    requires
        puzzles != 0,
    ensures
        rows_after_inits(puzzles, openings, n) == (puzzles, openings),
    decreases n,
{
    if n > 0 {
        lemma_init_fixed_point(puzzles, openings, (n - 1) as nat);
    }
}

/// Seeding is idempotent: any number `n >= 1` of initializations in a row
/// leaves exactly the row counts that the first one left.
pub proof fn lemma_init_idempotent(puzzles: nat, openings: nat, n: nat)
    requires
        n >= 1,
    ensures
        rows_after_inits(puzzles, openings, n) == rows_after_init(puzzles, openings),
{
    let next = rows_after_init(puzzles, openings);
    assert(next.0 != 0);
    lemma_init_fixed_point(next.0, next.1, (n - 1) as nat);
}

} // verus!

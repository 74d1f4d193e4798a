//! Normalization of engine evaluations onto a single signed scale.
use vstd::prelude::*;

verus! {

/// Name and version of the analysis engine that runs in the front end.
pub struct EngineInfo {
    pub name: String,
    pub version: String,
}

/// Handle for the engine integration; the engine itself runs elsewhere.
pub struct Stockfish;

/// Score of a forced mate, in pawns, before the distance to mate is taken off.
pub const MATE_SCORE_PAWNS: i64 = 1000;

/// Centipawns per pawn.
pub const CENTIPAWNS_PER_PAWN: i64 = 100;

/// The normalized score in centipawns: a mate in `n > 0` scores
/// `1000 - n` pawns, a mate in `n <= 0` (the side to move is mated) scores
/// `-1000 - n` pawns, and otherwise the evaluation is kept as it is.
pub open spec fn normalized_cp(eval_cp: i32, mate_in: Option<i32>) -> int {
    match mate_in {
        Some(m) => if m > 0 {
            (1000 - m) * 100
        } else {
            (-1000 - m) * 100
        },
        None => eval_cp as int,
    }
}

impl Stockfish {
    pub fn new() -> (r: Stockfish) {
        Stockfish
    }

    /// Normalized evaluation in centipawns (hundredths of a pawn).
    pub fn normalize_evaluation_cp(&self, eval_cp: i32, mate_in: Option<i32>) -> (r: i64)
        ensures
            r == normalized_cp(eval_cp, mate_in),
    {
        match mate_in {
            Some(mate) => {
                if mate > 0 {
                    (MATE_SCORE_PAWNS - mate as i64) * CENTIPAWNS_PER_PAWN
                } else {
                    (-MATE_SCORE_PAWNS - mate as i64) * CENTIPAWNS_PER_PAWN
                }
            },
            None => eval_cp as i64,
        }
    }
}

} // verus!

//! Attempt history and the aggregate statistics computed from it by a scan
//! of every recorded attempt.
use vstd::prelude::*;

verus! {

/// One recorded try at a puzzle.
pub struct PuzzleAttempt {
    pub puzzle_id: i64,
    pub solved: bool,
    pub attempts: i32,
    /// Seconds spent.
    pub time_spent: i32,
    pub timestamp: String,
}

impl Clone for PuzzleAttempt {
    fn clone(&self) -> (r: Self)
        ensures
            r == *self,
    {
        PuzzleAttempt {
            puzzle_id: self.puzzle_id,
            solved: self.solved,
            attempts: self.attempts,
            time_spent: self.time_spent,
            timestamp: self.timestamp.clone(),
        }
    }
}

/// Aggregates over the whole attempt history. The success rate and the
/// average number of tries are the quotients that `success_rate` and
/// `average_attempts` return as numerator and denominator.
pub struct UserStats {
    pub total_attempts: u64,
    pub solved_count: u64,
    /// Sum of the `attempts` field over all rows.
    pub attempts_sum: i128,
}

/// Number of attempts in the history marked solved.
pub open spec fn solved_in(history: Seq<PuzzleAttempt>) -> nat
    decreases history.len(),
{
    if history.len() == 0 {
        0
    } else {
        solved_in(history.drop_last()) + if history.last().solved {
            1nat
        } else {
            0nat
        }
    }
}

/// Sum of the `attempts` field over the history.
pub open spec fn attempts_total(history: Seq<PuzzleAttempt>) -> int
    decreases history.len(),
{
    if history.len() == 0 {
        0
    } else {
        attempts_total(history.drop_last()) + history.last().attempts
    }
}

/// The statistics of a history, stated over its rows.
pub open spec fn stats_of(history: Seq<PuzzleAttempt>) -> (nat, nat, int) {
    (history.len(), solved_in(history), attempts_total(history))
}

proof fn lemma_totals_bounded(history: Seq<PuzzleAttempt>)
    ensures
        solved_in(history) <= history.len(),
        -2147483648 * history.len() <= attempts_total(history) <= 2147483647 * history.len(),
    decreases history.len(),
{
    if history.len() > 0 {
        lemma_totals_bounded(history.drop_last());
    }
}

/// Scans the full attempt history and counts attempts, solved attempts and
/// the total of the per-attempt try counts.
pub fn compute_user_stats(history: &Vec<PuzzleAttempt>) -> (r: UserStats)
    ensures
        (r.total_attempts as nat, r.solved_count as nat, r.attempts_sum as int) == stats_of(history@),
{
    let mut solved: u64 = 0;
    let mut sum: i128 = 0;
    let mut i: usize = 0;
    while i < history.len()
        invariant
            i <= history.len(),
            solved as nat == solved_in(history@.subrange(0, i as int)),
            sum as int == attempts_total(history@.subrange(0, i as int)),
        decreases history.len() - i,
    {
        let ghost prefix = history@.subrange(0, i + 1);
        assert(prefix.drop_last() =~= history@.subrange(0, i as int));
        proof {
            lemma_totals_bounded(prefix);
        }
        let a = &history[i];
        if a.solved {
            solved = solved + 1;
        }
        sum = sum + a.attempts as i128;
        i += 1;
    }
    assert(history@.subrange(0, history.len() as int) =~= history@);
    UserStats { total_attempts: history.len() as u64, solved_count: solved, attempts_sum: sum }
}

impl UserStats {
    /// Success rate as (numerator, denominator): solved over total, or 0
    /// over 1 when nothing has been attempted. The denominator is never 0.
    pub fn success_rate(&self) -> (r: (u64, u64))
        ensures
            r.1 > 0,
            self.total_attempts == 0 ==> r == (0u64, 1u64),
            self.total_attempts > 0 ==> r == (self.solved_count, self.total_attempts),
    {
        if self.total_attempts > 0 {
            (self.solved_count, self.total_attempts)
        } else {
            (0, 1)
        }
    }

    /// Average tries per attempt as (numerator, denominator): the sum of
    /// tries over the number of attempts, or 0 over 1 when there are none.
    /// The denominator is never 0.
    pub fn average_attempts(&self) -> (r: (i128, u64))
        ensures
            r.1 > 0,
            self.total_attempts == 0 ==> r == (0i128, 1u64),
            self.total_attempts > 0 ==> r == (self.attempts_sum, self.total_attempts),
    {
        if self.total_attempts > 0 {
            (self.attempts_sum, self.total_attempts)
        } else {
            (0, 1)
        }
    }
}

/// An empty history has no attempts, nothing solved and no tries.
pub proof fn lemma_empty_history_stats(history: Seq<PuzzleAttempt>)
    requires
        history.len() == 0,
    ensures
        stats_of(history) == (0nat, 0nat, 0int),
{
}

/// Recording one attempt adds one to the total, one to the solved count
/// exactly when it was solved, and its tries to the sum of tries.
pub proof fn lemma_record_attempt(history: Seq<PuzzleAttempt>, attempt: PuzzleAttempt)
    ensures
        stats_of(history.push(attempt)) == (
            history.len() + 1,
            solved_in(history) + if attempt.solved {
                1nat
            } else {
                0nat
            },
            attempts_total(history) + attempt.attempts,
        ),
{
    assert(history.push(attempt).drop_last() =~= history);
}

} // verus!

//! Puzzles and openings: the stored records, the selection rule behind
//! puzzle listing, lookups by id, and the sample content seeded into an
//! empty store.
use vstd::prelude::*;

verus! {

/// A stored chess position with its known solution.
pub struct Puzzle {
    pub id: i64,
    /// Position in FEN notation.
    pub fen: String,
    /// Solution moves, as JSON array text.
    pub solution: String,
    pub theme: String,
    pub difficulty: i32,
    pub description: Option<String>,
}

/// A named opening line with its classification code.
pub struct Opening {
    pub id: i64,
    /// ECO classification code.
    pub eco: String,
    pub name: String,
    /// Opening moves, as JSON array text.
    pub moves: String,
    pub description: String,
}

impl Clone for Puzzle {
    fn clone(&self) -> (r: Self)
        ensures
            r == *self,
    {
        let description = match &self.description {
            Some(d) => Some(d.clone()),
            None => None,
        };
        Puzzle {
            id: self.id,
            fen: self.fen.clone(),
            solution: self.solution.clone(),
            theme: self.theme.clone(),
            difficulty: self.difficulty,
            description,
        }
    }
}

impl Clone for Opening {
    fn clone(&self) -> (r: Self)
        ensures
            r == *self,
    {
        Opening {
            id: self.id,
            eco: self.eco.clone(),
            name: self.name.clone(),
            moves: self.moves.clone(),
            description: self.description.clone(),
        }
    }
}

/// The theme filter as a sequence of characters, if one is given.
pub open spec fn theme_view(theme: Option<&str>) -> Option<Seq<char>> {
    match theme {
        Some(t) => Some(t@),
        None => None,
    }
}

/// A puzzle passes the filters: its theme equals the theme filter, if any,
/// and its difficulty equals the difficulty filter, if any.
pub open spec fn puzzle_matches(p: Puzzle, theme: Option<Seq<char>>, difficulty: Option<i32>) -> bool {
    (theme matches Some(t) ==> p.theme@ == t) && (difficulty matches Some(d) ==> p.difficulty == d)
}

/// The rows that pass the filters, in the order given.
pub open spec fn matching_puzzles(
    rows: Seq<Puzzle>,
    theme: Option<Seq<char>>,
    difficulty: Option<i32>,
) -> Seq<Puzzle>
    decreases rows.len(),
{
    if rows.len() == 0 {
        Seq::empty()
    } else {
        let prev = matching_puzzles(rows.drop_last(), theme, difficulty);
        if puzzle_matches(rows.last(), theme, difficulty) {
            prev.push(rows.last())
        } else {
            prev
        }
    }
}

/// At most `limit` leading items; a negative limit sets no bound.
pub open spec fn capped(s: Seq<Puzzle>, limit: int) -> Seq<Puzzle> {
    if limit < 0 || s.len() <= limit {
        s
    } else {
        s.take(limit)
    }
}

/// What a listing returns from rows in the order the store handed them over.
pub open spec fn selected_puzzles(
    rows: Seq<Puzzle>,
    theme: Option<Seq<char>>,
    difficulty: Option<i32>,
    limit: int,
) -> Seq<Puzzle> {
    capped(matching_puzzles(rows, theme, difficulty), limit)
}

fn matches_filter(p: &Puzzle, theme: &Option<String>, difficulty: Option<i32>) -> (r: bool)
    ensures
        r == puzzle_matches(
            *p,
            match theme {
                Some(t) => Some(t@),
                None => None,
            },
            difficulty,
        ),
{
    let theme_ok = match theme {
        Some(t) => p.theme == *t,
        None => true,
    };
    let difficulty_ok = match difficulty {
        Some(d) => p.difficulty == d,
        None => true,
    };
    theme_ok && difficulty_ok
}

/// Selects, from rows in the order the store produced them (a random order),
/// the first `limit` that match the optional theme and difficulty filters.
/// A negative `limit` sets no bound.
pub fn select_puzzles(
    rows: &Vec<Puzzle>,
    theme: Option<&str>,
    difficulty: Option<i32>,
    limit: i32,
) -> (r: Vec<Puzzle>)
    ensures
        r@ == selected_puzzles(rows@, theme_view(theme), difficulty, limit as int),
{
    let theme_s: Option<String> = match theme {
        Some(t) => Some(String::from_str(t)),
        None => None,
    };
    let ghost tv = theme_view(theme);
    let mut out: Vec<Puzzle> = Vec::new();
    let mut i: usize = 0;
    while i < rows.len()
        invariant
            i <= rows.len(),
            tv == theme_view(theme),
            tv == match theme_s {
                Some(t) => Some(t@),
                None => None::<Seq<char>>,
            },
            out@ == capped(matching_puzzles(rows@.subrange(0, i as int), tv, difficulty), limit as int),
        decreases rows.len() - i,
    {
        let ghost m = matching_puzzles(rows@.subrange(0, i as int), tv, difficulty);
        assert(rows@.subrange(0, i + 1).drop_last() =~= rows@.subrange(0, i as int));
        assert(rows@.subrange(0, i + 1).last() == rows@[i as int]);
        let p = &rows[i];
        let hit = matches_filter(p, &theme_s, difficulty);
        if hit && (limit < 0 || out.len() < limit as usize) {
            out.push(p.clone());
        } else if hit {
            assert(m.push(rows@[i as int]).take(limit as int) =~= m.take(limit as int));
        }
        i += 1;
    }
    assert(rows@.subrange(0, rows.len() as int) =~= rows@);
    out
}

/// Membership in a listing whose limit does not bind is exactly the filter:
/// a row comes back if and only if it is stored and matches, whatever order
/// the store handed the rows over in.
pub proof fn lemma_unbounded_selection_is_filter(
    rows: Seq<Puzzle>,
    theme: Option<Seq<char>>,
    difficulty: Option<i32>,
    limit: int,
)
    requires
        limit < 0 || limit >= rows.len(),
    ensures
        forall|p: Puzzle|
            #[trigger] selected_puzzles(rows, theme, difficulty, limit).contains(p) <==> (
            rows.contains(p) && puzzle_matches(p, theme, difficulty)),
{
    lemma_matching_contains(rows, theme, difficulty);
    lemma_matching_len(rows, theme, difficulty);
}

proof fn lemma_matching_len(rows: Seq<Puzzle>, theme: Option<Seq<char>>, difficulty: Option<i32>)
    ensures
        matching_puzzles(rows, theme, difficulty).len() <= rows.len(),
    decreases rows.len(),
{
    if rows.len() > 0 {
        lemma_matching_len(rows.drop_last(), theme, difficulty);
    }
}

proof fn lemma_matching_contains(
    rows: Seq<Puzzle>,
    theme: Option<Seq<char>>,
    difficulty: Option<i32>,
)
    ensures
        forall|p: Puzzle|
            #[trigger] matching_puzzles(rows, theme, difficulty).contains(p) <==> (rows.contains(p)
                && puzzle_matches(p, theme, difficulty)),
    decreases rows.len(),
{
    if rows.len() > 0 {
        let prev = rows.drop_last();
        lemma_matching_contains(prev, theme, difficulty);
        assert(rows =~= prev.push(rows.last()));
        let last = rows.last();
        let m = matching_puzzles(prev, theme, difficulty);
        assert forall|p: Puzzle| #[trigger] rows.contains(p) <==> (prev.contains(p) || p == last) by {
            if rows.contains(p) && p != last {
                let k = choose|k: int| 0 <= k < rows.len() && rows[k] == p;
                assert(prev[k] == p);
            }
            if prev.contains(p) {
                let k = choose|k: int| 0 <= k < prev.len() && prev[k] == p;
                assert(rows[k] == p);
            }
            if p == last {
                assert(rows[rows.len() - 1] == p);
            }
        }
        assert forall|p: Puzzle| #[trigger] m.push(last).contains(p) <==> (m.contains(p) || p == last) by {
            if m.push(last).contains(p) && p != last {
                let k = choose|k: int| 0 <= k < m.push(last).len() && m.push(last)[k] == p;
                assert(m[k] == p);
            }
            if m.contains(p) {
                let k = choose|k: int| 0 <= k < m.len() && m[k] == p;
                assert(m.push(last)[k] == p);
            }
            if p == last {
                assert(m.push(last)[m.len() as int] == p);
            }
        }
    }
}

/// The first stored puzzle with the given id, or `None` when there is none.
pub open spec fn puzzle_with_id(rows: Seq<Puzzle>, id: i64) -> Option<Puzzle>
    decreases rows.len(),
{
    if rows.len() == 0 {
        None
    } else if rows[0].id == id {
        Some(rows[0])
    } else {
        puzzle_with_id(rows.drop_first(), id)
    }
}

/// The first stored opening with the given id, or `None` when there is none.
pub open spec fn opening_with_id(rows: Seq<Opening>, id: i64) -> Option<Opening>
    decreases rows.len(),
{
    if rows.len() == 0 {
        None
    } else if rows[0].id == id {
        Some(rows[0])
    } else {
        opening_with_id(rows.drop_first(), id)
    }
}

/// Looks a puzzle up by id among the rows the store returned; absence is a
/// plain `None`, never an error.
pub fn find_puzzle(rows: &Vec<Puzzle>, id: i64) -> (r: Option<Puzzle>)
    ensures
        r == puzzle_with_id(rows@, id),
{
    let mut i: usize = 0;
    assert(rows@.subrange(0, rows.len() as int) =~= rows@);
    while i < rows.len()
        invariant
            i <= rows.len(),
            puzzle_with_id(rows@, id) == puzzle_with_id(rows@.subrange(i as int, rows.len() as int), id),
        decreases rows.len() - i,
    {
        let ghost rest = rows@.subrange(i as int, rows.len() as int);
        assert(rest.drop_first() =~= rows@.subrange(i + 1, rows.len() as int));
        if rows[i].id == id {
            return Some(rows[i].clone());
        }
        i += 1;
    }
    None
}

/// Looks an opening up by id among the rows the store returned; absence is
/// a plain `None`, never an error.
pub fn find_opening(rows: &Vec<Opening>, id: i64) -> (r: Option<Opening>)
    ensures
        r == opening_with_id(rows@, id),
{
    let mut i: usize = 0;
    assert(rows@.subrange(0, rows.len() as int) =~= rows@);
    while i < rows.len()
        invariant
            i <= rows.len(),
            opening_with_id(rows@, id) == opening_with_id(rows@.subrange(i as int, rows.len() as int), id),
        decreases rows.len() - i,
    {
        let ghost rest = rows@.subrange(i as int, rows.len() as int);
        assert(rest.drop_first() =~= rows@.subrange(i + 1, rows.len() as int));
        if rows[i].id == id {
            return Some(rows[i].clone());
        }
        i += 1;
    }
    None
}

/// A lookup finds a row exactly when some stored row carries the id, and the
/// row it finds carries that id.
pub proof fn lemma_puzzle_lookup(rows: Seq<Puzzle>, id: i64)
    ensures
        puzzle_with_id(rows, id) is Some <==> exists|i: int| 0 <= i < rows.len() && #[trigger] rows[i].id == id,
        puzzle_with_id(rows, id) matches Some(p) ==> p.id == id && rows.contains(p),
    decreases rows.len(),
{
    if rows.len() > 0 {
        let rest = rows.drop_first();
        lemma_puzzle_lookup(rest, id);
        if rows[0].id != id {
            if exists|i: int| 0 <= i < rows.len() && #[trigger] rows[i].id == id {
                let i = choose|i: int| 0 <= i < rows.len() && #[trigger] rows[i].id == id;
                assert(rest[i - 1].id == id);
            }
            if exists|i: int| 0 <= i < rest.len() && #[trigger] rest[i].id == id {
                let i = choose|i: int| 0 <= i < rest.len() && #[trigger] rest[i].id == id;
                assert(rows[i + 1].id == id);
            }
            if puzzle_with_id(rest, id) is Some {
                let p = puzzle_with_id(rest, id)->Some_0;
                let k = choose|k: int| 0 <= k < rest.len() && rest[k] == p;
                assert(rows[k + 1] == p);
            }
        } else {
            assert(rows[0] == rows[0]);
        }
    }
}

/// Number of puzzles a listing returns when the caller sets no limit.
pub const DEFAULT_PUZZLE_LIMIT: i32 = 10;

/// The listing limit to use: the one given, or the default of 10.
pub fn resolve_limit(limit: Option<i32>) -> (r: i32)
    ensures
        limit is Some ==> r == limit->Some_0,
        limit is None ==> r == DEFAULT_PUZZLE_LIMIT,
{
    match limit {
        Some(l) => l,
        None => DEFAULT_PUZZLE_LIMIT,
    }
}

/// Lexicographic order on classification codes, by character code point
/// from position `i` on (the byte order of their UTF-8 text); a code sorts
/// before any longer code it is a prefix of.
pub open spec fn code_le_from(a: Seq<char>, b: Seq<char>, i: int) -> bool
    decreases a.len() - i,
{
    if i < 0 || i >= a.len() {
        true
    } else if i >= b.len() {
        false
    } else if (a[i] as u32) != (b[i] as u32) {
        (a[i] as u32) < (b[i] as u32)
    } else {
        code_le_from(a, b, i + 1)
    }
}

/// `a` sorts no later than `b`.
pub open spec fn code_le(a: Seq<char>, b: Seq<char>) -> bool {
    code_le_from(a, b, 0)
}

/// Openings in ascending order of classification code.
pub open spec fn sorted_by_code(s: Seq<Opening>) -> bool {
    forall|i: int, j: int| 0 <= i < j < s.len() ==> code_le(#[trigger] s[i].eco@, #[trigger] s[j].eco@)
}

/// Index of the first opening from `k` on whose code sorts after `x`'s, or
/// the length when there is none.
pub open spec fn first_after(t: Seq<Opening>, x: Opening, k: int) -> int
    decreases t.len() - k,
{
    if k < 0 || k >= t.len() {
        t.len() as int
    } else if !code_le(t[k].eco@, x.eco@) {
        k
    } else {
        first_after(t, x, k + 1)
    }
}

/// The openings ordered by code; openings with equal codes keep the order
/// in which they were given.
pub open spec fn openings_by_code(rows: Seq<Opening>) -> Seq<Opening>
    decreases rows.len(),
{
    if rows.len() == 0 {
        Seq::empty()
    } else {
        let t = openings_by_code(rows.drop_last());
        t.insert(first_after(t, rows.last(), 0), rows.last())
    }
}

proof fn lemma_code_le_total(a: Seq<char>, b: Seq<char>, i: int)
    requires
        0 <= i,
    ensures
        code_le_from(a, b, i) || code_le_from(b, a, i),
    decreases a.len() - i,
{
    if i < a.len() && i < b.len() && (a[i] as u32) == (b[i] as u32) {
        lemma_code_le_total(a, b, i + 1);
    }
}

proof fn lemma_code_le_trans(a: Seq<char>, b: Seq<char>, c: Seq<char>, i: int)
    requires
        0 <= i,
        code_le_from(a, b, i),
        code_le_from(b, c, i),
    ensures
        code_le_from(a, c, i),
    decreases a.len() - i,
{
    if i < a.len() && i < b.len() && i < c.len() && (a[i] as u32) == (b[i] as u32) && (b[i] as u32) == (c[i] as u32) {
        lemma_code_le_trans(a, b, c, i + 1);
    }
}

proof fn lemma_first_after(t: Seq<Opening>, x: Opening, k: int)
    requires
        0 <= k <= t.len(),
    ensures
        k <= first_after(t, x, k) <= t.len(),
        forall|j: int| k <= j < first_after(t, x, k) ==> code_le(#[trigger] t[j].eco@, x.eco@),
        first_after(t, x, k) < t.len() ==> !code_le(t[first_after(t, x, k)].eco@, x.eco@),
    decreases t.len() - k,
{
    if k < t.len() && code_le(t[k].eco@, x.eco@) {
        lemma_first_after(t, x, k + 1);
    }
}

proof fn lemma_insert_keeps_sorted(t: Seq<Opening>, x: Opening)
    requires
        sorted_by_code(t),
    ensures
        sorted_by_code(t.insert(first_after(t, x, 0), x)),
{
    let k = first_after(t, x, 0);
    lemma_first_after(t, x, 0);
    let u = t.insert(k, x);
    assert forall|j: int| k <= j < t.len() implies code_le(x.eco@, #[trigger] t[j].eco@) by {
        lemma_code_le_total(t[k].eco@, x.eco@, 0);
        if j > k {
            lemma_code_le_trans(x.eco@, t[k].eco@, t[j].eco@, 0);
        }
    }
    assert forall|i: int, j: int| 0 <= i < j < u.len() implies code_le(
        #[trigger] u[i].eco@,
        #[trigger] u[j].eco@,
    ) by {
        if i < k && j == k {
        } else if i < k && j > k {
            assert(u[j] == t[j - 1]);
            if j - 1 < k {
            } else {
                lemma_code_le_trans(t[i].eco@, x.eco@, t[j - 1].eco@, 0);
            }
        } else if i == k {
            assert(u[j] == t[j - 1]);
        } else if j < k {
            assert(u[i] == t[i] && u[j] == t[j]);
        } else {
            assert(u[i] == t[i - 1] && u[j] == t[j - 1]);
        }
    }
}

/// The listing of openings is in ascending code order and holds exactly the
/// stored openings; being a function of the stored rows alone, it is the
/// same on every call while they do not change.
pub proof fn lemma_openings_by_code(rows: Seq<Opening>)
    ensures
        sorted_by_code(openings_by_code(rows)),
        openings_by_code(rows).to_multiset() == rows.to_multiset(),
    decreases rows.len(),
{
    broadcast use vstd::seq_lib::to_multiset_insert, vstd::seq_lib::to_multiset_build;

    if rows.len() > 0 {
        let prev = rows.drop_last();
        lemma_openings_by_code(prev);
        let t = openings_by_code(prev);
        lemma_insert_keeps_sorted(t, rows.last());
        lemma_first_after(t, rows.last(), 0);
        assert(rows =~= prev.push(rows.last()));
    } else {
        assert(rows =~= Seq::<Opening>::empty());
    }
}

fn code_le_exec(a: &String, b: &String) -> (r: bool)
    ensures
        r == code_le(a@, b@),
{
    let a_len = a.as_str().unicode_len();
    let b_len = b.as_str().unicode_len();
    let mut i: usize = 0;
    while i < a_len
        invariant
            a_len == a@.len(),
            b_len == b@.len(),
            code_le(a@, b@) == code_le_from(a@, b@, i as int),
        decreases a_len - i,
    {
        if i >= b_len {
            return false;
        }
        let ca = a.as_str().get_char(i);
        let cb = b.as_str().get_char(i);
        if (ca as u32) != (cb as u32) {
            return (ca as u32) < (cb as u32);
        }
        i += 1;
    }
    true
}

/// Orders openings ascending by classification code, keeping the given
/// order among equal codes.
pub fn sort_openings(rows: &Vec<Opening>) -> (r: Vec<Opening>)
    ensures
        r@ == openings_by_code(rows@),
        sorted_by_code(r@),
        r@.to_multiset() == rows@.to_multiset(),
{
    let mut out: Vec<Opening> = Vec::new();
    let mut i: usize = 0;
    while i < rows.len()
        invariant
            i <= rows.len(),
            out@ == openings_by_code(rows@.subrange(0, i as int)),
        decreases rows.len() - i,
    {
        let ghost prefix = rows@.subrange(0, i + 1);
        assert(prefix.drop_last() =~= rows@.subrange(0, i as int));
        let x = rows[i].clone();
        let mut k: usize = 0;
        let mut placed = false;
        while !placed && k < out.len()
            invariant
                k <= out.len(),
                first_after(out@, x, 0) == first_after(out@, x, k as int),
                placed ==> k < out.len() && !code_le(out@[k as int].eco@, x.eco@),
            decreases out.len() - k + if placed {
                0int
            } else {
                1int
            },
        {
            if code_le_exec(&out[k].eco, &x.eco) {
                k += 1;
            } else {
                placed = true;
            }
        }
        assert(first_after(out@, x, k as int) == k as int);
        assert(prefix.last() == rows@[i as int]);
        out.insert(k, x);
        i += 1;
    }
    assert(rows@.subrange(0, rows.len() as int) =~= rows@);
    proof {
        lemma_openings_by_code(rows@);
    }
    out
}

} // verus!

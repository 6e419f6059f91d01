//! The query engine: a full scan of the index rows with a compiled pattern.
//!
//! A row matches when the pattern's expression matches the whole row, from
//! its first to its last character. The matches keep the order of the rows;
//! a count query reports their number.

use vstd::prelude::*;
use crate::engine::engine_matches;
use crate::pattern::{
    anchored,
    compilable,
    compile,
    expression_for,
    PatternError,
    PatternView,
    QueryMode,
    QueryPattern,
};
use crate::store::StorageError;

verus! {

/// The rows that `expression` matches from their first to their last
/// character, in row order.
pub open spec fn matching_rows(rows: Seq<Seq<char>>, expression: Seq<char>) -> Seq<Seq<char>> {
    rows.filter(|row: Seq<char>| engine_matches(anchored(expression), row))
}

/// Among the first `n` rows, those whose verdict is `true`, in row order. A
/// row without a verdict is left out.
pub open spec fn selected_upto(rows: Seq<Seq<char>>, verdicts: Seq<bool>, n: nat) -> Seq<
    Seq<char>,
>
    decreases n,
{
    if n == 0 {
        Seq::empty()
    } else {
        let earlier = selected_upto(rows, verdicts, (n - 1) as nat);
        if n - 1 < verdicts.len() && verdicts[n - 1] {
            earlier.push(rows[n - 1])
        } else {
            earlier
        }
    }
}

/// The rows whose verdict is `true`, in row order.
pub open spec fn selected(rows: Seq<Seq<char>>, verdicts: Seq<bool>) -> Seq<Seq<char>> {
    selected_upto(rows, verdicts, rows.len())
}

/// Selecting by verdicts that say what a predicate says of each row is
/// filtering by that predicate.
pub proof fn lemma_selected_is_filter(
    rows: Seq<Seq<char>>,
    verdicts: Seq<bool>,
    keep: spec_fn(Seq<char>) -> bool,
    n: nat,
)
    requires
        n <= rows.len(),
        verdicts.len() == rows.len(),
        forall|i: int| 0 <= i < rows.len() ==> verdicts[i] == keep(#[trigger] rows[i]),
    ensures
        selected_upto(rows, verdicts, n) == rows.take(n as int).filter(keep),
    decreases n,
{
    if n == 0 {
        assert(rows.take(0).filter(keep) =~= Seq::<Seq<char>>::empty()) by {
            reveal(Seq::filter);
        }
    } else {
        lemma_selected_is_filter(rows, verdicts, keep, (n - 1) as nat);
        assert(rows.take(n as int) =~= rows.take(n - 1).push(rows[n - 1]));
        rows.take(n - 1).lemma_filter_push(rows[n - 1], keep);
    }
}

/// The engine's verdict on each row: whether the pattern matches the whole
/// of it.
pub fn verdicts(rows: &Vec<String>, pattern: &QueryPattern) -> (verdicts: Vec<bool>)
    ensures
        verdicts.len() == rows.len(),
        forall|i: int|
            0 <= i < rows.len() ==> verdicts[i] == engine_matches(
                anchored(pattern@.expression),
                #[trigger] rows.deep_view()[i],
            ),
{
    let mut verdicts: Vec<bool> = Vec::new();
    for i in 0..rows.len()
        invariant
            verdicts.len() == i,
            forall|k: int|
                0 <= k < i ==> verdicts[k] == engine_matches(
                    anchored(pattern@.expression),
                    #[trigger] rows.deep_view()[k],
                ),
    {
        verdicts.push(pattern.matches(rows[i].as_str()));
    }
    verdicts
}

/// The rows whose verdict is `true`, in row order.
pub fn select_rows(rows: &Vec<String>, verdicts: &Vec<bool>) -> (chosen: Vec<String>)
    ensures
        chosen.deep_view() == selected(rows.deep_view(), verdicts@),
{
    let mut chosen: Vec<String> = Vec::new();
    let ghost all = rows.deep_view();
    assert(chosen.deep_view() =~= selected_upto(all, verdicts@, 0));
    for i in 0..rows.len()
        invariant
            all == rows.deep_view(),
            chosen.deep_view() == selected_upto(all, verdicts@, i as nat),
    {
        if i < verdicts.len() && verdicts[i] {
            let ghost before = chosen.deep_view();
            chosen.push(rows[i].clone());
            assert(chosen.deep_view() =~= before.push(all[i as int]));
        }
    }
    chosen
}

/// Evaluates the pattern against every row and returns the matching rows in
/// row order.
pub fn scan(rows: &Vec<String>, pattern: &QueryPattern) -> (matches: Vec<String>)
    ensures
        matches.deep_view() == matching_rows(rows.deep_view(), pattern@.expression),
{
    let verdicts = verdicts(rows, pattern);
    let matches = select_rows(rows, &verdicts);
    proof {
        let all = rows.deep_view();
        let expression = pattern@.expression;
        lemma_selected_is_filter(
            all,
            verdicts@,
            |row: Seq<char>| engine_matches(anchored(expression), row),
            all.len(),
        );
        assert(all.take(all.len() as int) =~= all);
    }
    matches
}

/// What a query found.
#[derive(Debug, PartialEq, Eq)]
pub enum QueryResult {
    /// The number of matching paths.
    Count(usize),
    /// The matching paths, in index order.
    Paths(Vec<String>),
}

/// What a query found as plain values.
pub ghost enum ResultView {
    Count(nat),
    Paths(Seq<Seq<char>>),
}

impl View for QueryResult {
    type V = ResultView;

    open spec fn view(&self) -> ResultView {
        match self {
            QueryResult::Count(n) => ResultView::Count(*n as nat),
            QueryResult::Paths(paths) => ResultView::Paths(paths.deep_view()),
        }
    }
}

/// The answer to a query: what was found, and the expression that was
/// evaluated.
#[derive(Debug, PartialEq, Eq)]
pub struct QueryOutcome {
    pub expression: String,
    pub result: QueryResult,
}

/// The answer to a query as plain values.
pub ghost struct OutcomeView {
    pub expression: Seq<char>,
    pub result: ResultView,
}

impl View for QueryOutcome {
    type V = OutcomeView;

    open spec fn view(&self) -> OutcomeView {
        OutcomeView { expression: self.expression@, result: self.result@ }
    }
}

/// The answer that a pattern's mode asks for, given the matching rows.
pub open spec fn outcome_for(pattern: PatternView, matches: Seq<Seq<char>>) -> OutcomeView {
    OutcomeView {
        expression: pattern.expression,
        result: match pattern.mode {
            QueryMode::Count => ResultView::Count(matches.len()),
            QueryMode::List => ResultView::Paths(matches),
        },
    }
}

/// The mode that a count-only flag stands for.
pub open spec fn mode_for(count_only: bool) -> QueryMode {
    if count_only {
        QueryMode::Count
    } else {
        QueryMode::List
    }
}

/// Why a query could not be answered.
#[derive(Debug, PartialEq, Eq)]
pub enum QueryError {
    /// The query could not be compiled.
    Pattern(PatternError),
    /// The index could not be read.
    Storage(StorageError),
}

/// Puts the answer together from the rows that matched.
pub fn answer(pattern: &QueryPattern, matches: Vec<String>) -> (outcome: QueryOutcome)
    ensures
        outcome@ == outcome_for(pattern@, matches.deep_view()),
{
    let expression = pattern.expression().to_owned();
    match pattern.mode() {
        QueryMode::Count => QueryOutcome { expression, result: QueryResult::Count(matches.len()) },
        QueryMode::List => QueryOutcome { expression, result: QueryResult::Paths(matches) },
    }
}

/// Answers a compiled query over the rows of the index.
pub fn query(rows: &Vec<String>, pattern: &QueryPattern) -> (outcome: QueryOutcome)
    ensures
        outcome@ == outcome_for(pattern@, matching_rows(rows.deep_view(), pattern@.expression)),
{
    answer(pattern, scan(rows, pattern))
}

/// Compiles a query before the index is read: the pattern, or the error
/// that ends the query there.
pub fn prepare_query(text: &str, is_regex: bool, count_only: bool) -> (out: Result<
    QueryPattern,
    QueryError,
>)
    ensures
        match out {
            Ok(pattern) => compilable(expression_for(text@, is_regex)) && pattern@ == (
            PatternView {
                expression: expression_for(text@, is_regex),
                text: text@,
                mode: mode_for(count_only),
            }),
            Err(error) => !compilable(expression_for(text@, is_regex)) && (
            error matches QueryError::Pattern(refused) && refused.text@ == text@),
        },
{
    let mode = if count_only {
        QueryMode::Count
    } else {
        QueryMode::List
    };
    match compile(text, is_regex, mode) {
        Ok(pattern) => Ok(pattern),
        Err(refused) => Err(QueryError::Pattern(refused)),
    }
}

/// Answers a compiled query once the index was read: over its rows, or
/// with the error that kept them from being read.
pub fn complete_query(pattern: &QueryPattern, loaded: Result<Vec<String>, StorageError>) -> (out:
    Result<QueryOutcome, QueryError>)
    ensures
        match loaded {
            Ok(rows) => out is Ok && out->Ok_0@ == outcome_for(
                pattern@,
                matching_rows(rows.deep_view(), pattern@.expression),
            ),
            Err(error) => out is Err && out->Err_0 == QueryError::Storage(error),
        },
{
    match loaded {
        Ok(rows) => Ok(query(&rows, pattern)),
        Err(error) => Err(QueryError::Storage(error)),
    }
}

/// Compiles a query and answers it over the rows of the index. The query
/// fails, before any row is looked at, exactly when its expression cannot
/// be compiled.
pub fn run_query(rows: &Vec<String>, text: &str, is_regex: bool, count_only: bool) -> (out: Result<
    QueryOutcome,
    QueryError,
>)
    ensures
        match out {
            Ok(outcome) => compilable(expression_for(text@, is_regex)) && outcome@
                == outcome_for(
                PatternView {
                    expression: expression_for(text@, is_regex),
                    text: text@,
                    mode: mode_for(count_only),
                },
                matching_rows(rows.deep_view(), expression_for(text@, is_regex)),
            ),
            Err(error) => !compilable(expression_for(text@, is_regex)) && (
            error matches QueryError::Pattern(refused) && refused.text@ == text@),
        },
{
    match prepare_query(text, is_regex, count_only) {
        Ok(pattern) => Ok(query(rows, &pattern)),
        Err(error) => Err(error),
    }
}

} // verus!

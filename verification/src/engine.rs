//! The tolerant aggregation engine. A column is a sequence of optional raw
//! text cells. Absent cells and cells that are blank after trimming are
//! skipped; for the numeric reducers (SUM, AVG, MIN, MAX) a cell that does
//! not match the numeric grammar is silently skipped too, and an empty
//! filtered column is an error. COUNT instead counts every cell with content,
//! numeric or not, and never fails.

use vstd::prelude::*;
use crate::numeric::{is_numeric, spec_is_numeric};
use crate::text::{chars_of, spec_trim, string_of, trim_chars};

verus! {

/// The trimmed numeric token of one cell: present exactly when the cell is
/// present, non-blank after trimming, and matches the numeric grammar.
pub open spec fn cell_numeric_token(c: Option<Seq<char>>) -> Option<Seq<char>> {
    match c {
        None => None,
        Some(s) => {
            let t = spec_trim(s);
            if t.len() > 0 && spec_is_numeric(t) {
                Some(t)
            } else {
                None
            }
        },
    }
}

/// Whether a cell has content: present and non-blank after trimming.
pub open spec fn cell_has_content(c: Option<Seq<char>>) -> bool {
    match c {
        None => false,
        Some(s) => spec_trim(s).len() > 0,
    }
}

/// The trimmed numeric tokens of a column, in input order.
pub open spec fn spec_numeric_entries(cells: Seq<Option<Seq<char>>>) -> Seq<Seq<char>>
    decreases cells.len(),
{
    if cells.len() == 0 {
        Seq::empty()
    } else {
        let pre = spec_numeric_entries(cells.drop_last());
        match cell_numeric_token(cells.last()) {
            Some(t) => pre.push(t),
            None => pre,
        }
    }
}

/// How many cells of a column have content.
pub open spec fn spec_count_present(cells: Seq<Option<Seq<char>>>) -> nat
    decreases cells.len(),
{
    if cells.len() == 0 {
        0
    } else {
        spec_count_present(cells.drop_last()) + (if cell_has_content(cells.last()) {
            1nat
        } else {
            0nat
        })
    }
}

/// The trimmed numeric token of one cell, as executable code.
fn numeric_token(cell: &Option<String>) -> (r: Option<Vec<char>>)
    ensures
        match r {
            Some(t) => cell_numeric_token(cell.deep_view()) == Some(t@),
            None => cell_numeric_token(cell.deep_view()) is None,
        },
{
    match cell {
        None => None,
        Some(s) => {
            let cs = chars_of(s.as_str());
            let t = trim_chars(&cs);
            if t.len() > 0 && is_numeric(&t) {
                Some(t)
            } else {
                None
            }
        },
    }
}

/// Whether one cell has content, as executable code.
fn has_content(cell: &Option<String>) -> (r: bool)
    ensures
        r == cell_has_content(cell.deep_view()),
{
    match cell {
        None => false,
        Some(s) => {
            let cs = chars_of(s.as_str());
            let t = trim_chars(&cs);
            t.len() > 0
        },
    }
}

/// The trimmed numeric tokens of a column, in input order. These are the
/// values that SUM, AVG, MIN and MAX reduce, and AVG's denominator is their
/// number.
pub fn numeric_entries(values: &Vec<Option<String>>) -> (r: Vec<String>)
    ensures
        r.deep_view() == spec_numeric_entries(values.deep_view()),
{
    let ghost cells = values.deep_view();
    let n = values.len();
    let mut r: Vec<String> = Vec::new();
    let mut i: usize = 0;
    while i < n
        invariant
            i <= n == values@.len(),
            cells == values.deep_view(),
            cells.len() == n,
            r.deep_view() == spec_numeric_entries(cells.take(i as int)),
        decreases n - i,
    {
        match numeric_token(&values[i]) {
            Some(t) => {
                r.push(string_of(&t));
            },
            None => {},
        }
        i = i + 1;
        proof {
            assert(cells.take(i as int).drop_last() =~= cells.take(i - 1));
            assert(cells.take(i as int).last() == cells[i - 1]);
            assert(r.deep_view() =~= spec_numeric_entries(cells.take(i as int)));
        }
    }
    proof {
        assert(cells.take(n as int) =~= cells);
    }
    r
}

/// How many cells of a column have content: COUNT's value. Absent and blank
/// cells are skipped; non-numeric text still counts.
pub fn count_present(values: &Vec<Option<String>>) -> (r: usize)
    ensures
        r as nat == spec_count_present(values.deep_view()),
{
    let ghost cells = values.deep_view();
    let n = values.len();
    let mut r: usize = 0;
    let mut i: usize = 0;
    while i < n
        invariant
            i <= n == values@.len(),
            cells == values.deep_view(),
            cells.len() == n,
            r <= i,
            r as nat == spec_count_present(cells.take(i as int)),
        decreases n - i,
    {
        if has_content(&values[i]) {
            r = r + 1;
        }
        i = i + 1;
        proof {
            assert(cells.take(i as int).drop_last() =~= cells.take(i - 1));
            assert(cells.take(i as int).last() == cells[i - 1]);
        }
    }
    proof {
        assert(cells.take(n as int) =~= cells);
    }
    r
}

/// The five aggregate functions.
#[derive(Clone, Copy, Debug, PartialEq, Eq, Structural)]
pub enum AggregateKind {
    Sum,
    Avg,
    Min,
    Max,
    Count,
}

/// The one aggregation failure: a numeric reducer found no numeric values.
#[derive(Clone, Copy, Debug, PartialEq, Eq, Structural)]
pub enum AggregateError {
    NoNumericValues,
}

/// What an aggregate call reduces once the column has been filtered: the
/// numeric tokens for SUM, AVG, MIN and MAX, or the finished tally for COUNT.
pub enum AggregatePlan {
    /// Reduce these tokens left to right with the chosen reducer.
    Reduce(Vec<String>),
    /// COUNT's result: the number of cells with content.
    Tally(usize),
}

/// Filter a column for one aggregate call, applying the tolerant-aggregation
/// policy: for SUM, AVG, MIN and MAX the numeric tokens are handed on, and a
/// column with none is an error; COUNT never fails and yields its tally even
/// when that tally is zero.
pub fn prepare_aggregate(kind: AggregateKind, values: &Vec<Option<String>>) -> (r: Result<
    AggregatePlan,
    AggregateError,
>)
    ensures
        kind == AggregateKind::Count ==> (r matches Ok(p) && p matches AggregatePlan::Tally(c)
            && c as nat == spec_count_present(values.deep_view())),
        kind != AggregateKind::Count && spec_numeric_entries(values.deep_view()).len() == 0 ==> r
            == Err::<AggregatePlan, AggregateError>(AggregateError::NoNumericValues),
        kind != AggregateKind::Count && spec_numeric_entries(values.deep_view()).len() > 0 ==> (
        r matches Ok(p) && p matches AggregatePlan::Reduce(v) && v.deep_view()
            == spec_numeric_entries(values.deep_view())),
{
    match kind {
        AggregateKind::Count => Ok(AggregatePlan::Tally(count_present(values))),
        _ => {
            let entries = numeric_entries(values);
            if entries.len() == 0 {
                proof {
                    assert(spec_numeric_entries(values.deep_view()).len() == 0);
                }
                Err(AggregateError::NoNumericValues)
            } else {
                Ok(AggregatePlan::Reduce(entries))
            }
        },
    }
}

/// The engine is a pure function of its input: evaluating the same column
/// twice yields the same filtered tokens and the same tally, so any two
/// aggregate calls of one kind over identical cells agree.
pub proof fn lemma_aggregation_deterministic(
    cells: Seq<Option<Seq<char>>>,
    e1: Seq<Seq<char>>,
    e2: Seq<Seq<char>>,
    c1: nat,
    c2: nat,
)
    requires
        e1 == spec_numeric_entries(cells),
        e2 == spec_numeric_entries(cells),
        c1 == spec_count_present(cells),
        c2 == spec_count_present(cells),
    ensures
        e1 == e2,
        c1 == c2,
{
}

/// Every filtered token is non-blank and matches the numeric grammar: a cell
/// that fails numeric parsing contributes neither to the reduction nor to
/// AVG's denominator.
pub proof fn lemma_entries_all_numeric(cells: Seq<Option<Seq<char>>>)
    ensures
        forall|j: int| 0 <= j < spec_numeric_entries(cells).len() ==> {
            &&& spec_numeric_entries(cells)[j].len() > 0
            &&& spec_is_numeric(spec_numeric_entries(cells)[j])
        },
    decreases cells.len(),
{
    if cells.len() > 0 {
        lemma_entries_all_numeric(cells.drop_last());
        let pre = spec_numeric_entries(cells.drop_last());
        match cell_numeric_token(cells.last()) {
            Some(t) => {
                assert(t.len() > 0 && spec_is_numeric(t));
                assert(spec_numeric_entries(cells) == pre.push(t));
                assert forall|j: int| 0 <= j < spec_numeric_entries(cells).len() implies {
                    &&& spec_numeric_entries(cells)[j].len() > 0
                    &&& spec_is_numeric(spec_numeric_entries(cells)[j])
                } by {
                    if j < pre.len() {
                        assert(spec_numeric_entries(cells)[j] == pre[j]);
                    } else {
                        assert(spec_numeric_entries(cells)[j] == t);
                    }
                }
            },
            None => {},
        }
    }
}

/// Inserting a cell with no numeric token anywhere in a column leaves the
/// filtered tokens — and with them every numeric reducer and AVG's
/// denominator — unchanged.
pub proof fn lemma_non_numeric_excluded(cells: Seq<Option<Seq<char>>>, i: int, c: Option<Seq<char>>)
    requires
        0 <= i <= cells.len(),
        cell_numeric_token(c) is None,
    ensures
        spec_numeric_entries(cells.insert(i, c)) == spec_numeric_entries(cells),
    decreases cells.len(),
{
    let w = cells.insert(i, c);
    if i == cells.len() {
        assert(w.drop_last() =~= cells);
        assert(w.last() == c);
    } else {
        assert(w.drop_last() =~= cells.drop_last().insert(i, c));
        assert(w.last() == cells.last());
        lemma_non_numeric_excluded(cells.drop_last(), i, c);
    }
}

/// The filtered tokens of a column split at any point are the filtered
/// tokens of its parts, in order: the reduction visits tokens left to right
/// over the input order.
pub proof fn lemma_numeric_entries_concat(xs: Seq<Option<Seq<char>>>, ys: Seq<Option<Seq<char>>>)
    ensures
        spec_numeric_entries(xs + ys) == spec_numeric_entries(xs) + spec_numeric_entries(ys),
    decreases ys.len(),
{
    if ys.len() == 0 {
        assert(xs + ys =~= xs);
        assert(spec_numeric_entries(xs) + spec_numeric_entries(ys) =~= spec_numeric_entries(xs));
    } else {
        assert((xs + ys).drop_last() =~= xs + ys.drop_last());
        assert((xs + ys).last() == ys.last());
        lemma_numeric_entries_concat(xs, ys.drop_last());
        match cell_numeric_token(ys.last()) {
            Some(t) => {
                assert(spec_numeric_entries(xs) + spec_numeric_entries(ys.drop_last()).push(t)
                    =~= (spec_numeric_entries(xs) + spec_numeric_entries(ys.drop_last())).push(t));
            },
            None => {},
        }
    }
}

} // verus!

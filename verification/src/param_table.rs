//! Parametric tables: a program solved once for each combination of the
//! values that its sweeps give their variables.
use vstd::prelude::*;
use crate::equations::ConvergenceStatus;

verus! {

/// A column of a table: the value of `expression` in each solved row.
#[derive(Debug, Clone, PartialEq, Eq)]
pub struct ColumnSpec {
    pub name: String,
    pub expression: String,
}

/// How many rows sweeps with these numbers of values give.
pub open spec fn row_count(lens: Seq<usize>) -> nat
    decreases lens.len(),
{
    if lens.len() == 0 {
        1
    } else {
        row_count(lens.drop_last()) * (lens.last() as nat)
    }
}

/// The rows of a table, each given as the index of the value that each
/// sweep takes in it. Every combination occurs once; the first sweep
/// changes slowest and the last fastest.
pub open spec fn sweep_rows_spec(lens: Seq<usize>) -> Seq<Seq<usize>>
    decreases lens.len(),
{
    if lens.len() == 0 {
        seq![Seq::empty()]
    } else {
        let prev = sweep_rows_spec(lens.drop_last());
        let n = lens.last() as int;
        Seq::new(prev.len() * (lens.last() as nat), |r: int| prev[r / n].push((r % n) as usize))
    }
}

/// The number of rows is the product of the numbers of values.
pub proof fn lemma_sweep_rows_len(lens: Seq<usize>)
    ensures
        sweep_rows_spec(lens).len() == row_count(lens),
    decreases lens.len(),
{
    if lens.len() > 0 {
        lemma_sweep_rows_len(lens.drop_last());
    }
}

/// Each row has one index per sweep, and each index is one of its
/// sweep's values.
pub proof fn lemma_sweep_rows_in_range(lens: Seq<usize>, r: int)
    requires
        0 <= r < sweep_rows_spec(lens).len(),
    ensures
        sweep_rows_spec(lens)[r].len() == lens.len(),
        forall|k: int| 0 <= k < lens.len() ==> #[trigger] sweep_rows_spec(lens)[r][k] < lens[k],
    decreases lens.len(),
{
    if lens.len() > 0 {
        let prev = sweep_rows_spec(lens.drop_last());
        let n = lens.last() as int;
        assert(n > 0) by {
            if n == 0 {
                assert(prev.len() * n == 0) by (nonlinear_arith)
                    requires
                        n == 0,
                ;
            }
        }
        let p = prev.len() as int;
        assert(0 <= r < p * n);
        assert(0 <= r / n < p) by {
            vstd::arithmetic::div_mod::lemma_fundamental_div_mod(r, n);
            vstd::arithmetic::div_mod::lemma_mod_bound(r, n);
            let q = r / n;
            assert(0 <= q < p) by (nonlinear_arith)
                requires
                    r == n * q + r % n,
                    0 <= r % n < n,
                    0 <= r < p * n,
            ;
        }
        lemma_sweep_rows_in_range(lens.drop_last(), r / n);
        assert(0 <= r % n < n) by {
            vstd::arithmetic::div_mod::lemma_mod_bound(r, n);
        }
        assert forall|k: int| 0 <= k < lens.len() implies #[trigger] sweep_rows_spec(lens)[r][k]
            < lens[k] by {
            if k < lens.len() - 1 {
                assert(sweep_rows_spec(lens)[r][k] == prev[r / n][k]);
                assert(lens.drop_last()[k] == lens[k]);
            }
        }
    }
}

/// The rows of a table whose sweeps have `lengths` values each: in each
/// row, the index of the value each sweep takes.
pub fn sweep_rows(lengths: &Vec<usize>) -> (rows: Vec<Vec<usize>>)
    requires
        forall|k: int| 0 <= k <= lengths.len() ==> #[trigger] row_count(lengths@.take(k))
            <= usize::MAX,
    ensures
        rows@.map_values(|row: Vec<usize>| row@) == sweep_rows_spec(lengths@),
{
    let mut rows: Vec<Vec<usize>> = Vec::new();
    rows.push(Vec::new());
    assert(lengths@.take(0) =~= Seq::<usize>::empty());
    assert(rows@.map_values(|row: Vec<usize>| row@) =~= sweep_rows_spec(lengths@.take(0)));
    let mut k: usize = 0;
    while k < lengths.len()
        invariant
            k <= lengths.len(),
            forall|j: int| 0 <= j <= lengths.len() ==> #[trigger] row_count(lengths@.take(j))
                <= usize::MAX,
            rows@.map_values(|row: Vec<usize>| row@) == sweep_rows_spec(lengths@.take(k as int)),
        decreases lengths.len() - k,
    {
        let n = lengths[k];
        let ghost lens = lengths@.take(k + 1);
        let ghost prev = sweep_rows_spec(lengths@.take(k as int));
        let ghost target = sweep_rows_spec(lens);
        proof {
            assert(lens.drop_last() =~= lengths@.take(k as int));
            assert(lens.last() == n);
            lemma_sweep_rows_len(lengths@.take(k as int));
            lemma_sweep_rows_len(lens);
            assert(row_count(lengths@.take(k + 1)) <= usize::MAX);
            assert(rows@.map_values(|row: Vec<usize>| row@).len() == rows.len());
        }
        let mut next: Vec<Vec<usize>> = Vec::new();
        let mut r: usize = 0;
        while r < rows.len()
            invariant
                r <= rows.len(),
                n == lens.last(),
                prev == sweep_rows_spec(lens.drop_last()),
                target == sweep_rows_spec(lens),
                lens.len() > 0,
                prev.len() == rows.len(),
                target.len() == rows.len() * n,
                target.len() <= usize::MAX,
                rows@.map_values(|row: Vec<usize>| row@) == prev,
                next@.map_values(|row: Vec<usize>| row@) == target.take(r * n),
            decreases rows.len() - r,
        {
            let mut v: usize = 0;
            proof {
                assert(r * n + n <= rows.len() * n) by (nonlinear_arith)
                    requires
                        r < rows.len(),
                ;
            }
            while v < n
                invariant
                    r < rows.len(),
                    v <= n,
                    n == lens.last(),
                    prev == sweep_rows_spec(lens.drop_last()),
                    target == sweep_rows_spec(lens),
                    lens.len() > 0,
                    prev.len() == rows.len(),
                    target.len() == rows.len() * n,
                    target.len() <= usize::MAX,
                    r * n + n <= rows.len() * n,
                    rows@.map_values(|row: Vec<usize>| row@) == prev,
                    next@.map_values(|row: Vec<usize>| row@) == target.take(r * n + v),
                decreases n - v,
            {
                let mut row = rows[r].clone();
                proof {
                    assert(row@ =~= rows@[r as int]@);
                    assert(rows@.map_values(|row: Vec<usize>| row@)[r as int] == rows@[r as int]@);
                }
                row.push(v);
                let ghost at = r * n + v;
                proof {
                    vstd::arithmetic::div_mod::lemma_fundamental_div_mod_converse(
                        at as int,
                        n as int,
                        r as int,
                        v as int,
                    );
                    assert(target[at as int] == prev[r as int].push(v));
                }
                let ghost before = next@.map_values(|row: Vec<usize>| row@);
                next.push(row);
                assert(next@.map_values(|row: Vec<usize>| row@) =~= before.push(row@));
                assert(target.take(at + 1) =~= target.take(at as int).push(target[at as int]));
                v = v + 1;
            }
            assert((r + 1) * n == r * n + n) by (nonlinear_arith);
            r = r + 1;
        }
        assert(target.take(rows.len() * n) =~= target);
        rows = next;
        k = k + 1;
    }
    assert(lengths@.take(lengths.len() as int) =~= lengths@);
    rows
}

/// What a row of a table records, and whether its solution seeds the next
/// row: a solved row whose columns all evaluate keeps the solver's status
/// and passes its solution on; a solved row with a column that fails is an
/// evaluation error; a failed solve keeps its status. Only a fully
/// evaluated row passes its solution on.
pub open spec fn row_outcome_spec(solved: bool, status: ConvergenceStatus, column_failed: bool) -> (
    ConvergenceStatus,
    bool,
) {
    if solved && column_failed {
        (ConvergenceStatus::EvaluationError, false)
    } else {
        (status, solved)
    }
}

pub fn row_outcome(solved: bool, status: ConvergenceStatus, column_failed: bool) -> (r: (
    ConvergenceStatus,
    bool,
))
    ensures
        r == row_outcome_spec(solved, status, column_failed),
{
    if solved && column_failed {
        (ConvergenceStatus::EvaluationError, false)
    } else {
        (status, solved)
    }
}

pub open spec fn column_error_spec(column: ColumnSpec, err: Seq<char>) -> Seq<char> {
    "Failed to evaluate column '"@ + column.name@ + "' expression '"@ + column.expression@
        + "': "@ + err
}

/// What a row records when a column cannot be evaluated.
pub fn column_error_message(column: &ColumnSpec, err: &str) -> (m: String)
    ensures
        m@ == column_error_spec(*column, err@),
{
    let mut m = String::from_str("Failed to evaluate column '");
    m.append(column.name.as_str());
    m.append("' expression '");
    m.append(column.expression.as_str());
    m.append("': ");
    m.append(err);
    m
}

} // verus!

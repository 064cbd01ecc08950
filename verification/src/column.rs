use crate::index::KluIndex;
use vstd::prelude::*;

verus! {

/// The rows of a column, each index taken as the integer it stands for.
pub open spec fn rows_of<I: KluIndex>(column: Seq<I>) -> Seq<int> {
    Seq::new(column.len(), |k: int| column[k].as_int())
}

/// The columns of a pattern, each as the sequence of its rows.
pub open spec fn columns_of<I: KluIndex>(columns: Seq<Vec<I>>) -> Seq<Seq<int>> {
    Seq::new(columns.len(), |c: int| rows_of(columns[c]@))
}

/// Whether each row of the column is larger than the one before it, so that
/// the column is sorted and holds no row twice.
pub open spec fn strictly_increasing(column: Seq<int>) -> bool {
    forall|i: int, j: int| 0 <= i < j < column.len() ==> column[i] < column[j]
}

/// The number of rows of the column that lie below `row`.
pub open spec fn rank(column: Seq<int>, row: int) -> int
    decreases column.len(),
{
    if column.len() == 0 {
        0
    } else if column.last() < row {
        rank(column.drop_last(), row) + 1
    } else {
        rank(column.drop_last(), row)
    }
}

/// The column after `row` has been entered: unchanged if it holds the row,
/// else with the row put behind the rows that lie below it.
pub open spec fn with_row(column: Seq<int>, row: int) -> Seq<int> {
    if column.contains(row) {
        column
    } else {
        column.insert(rank(column, row), row)
    }
}

/// `dim` columns without an entry.
pub open spec fn empty_columns(dim: int) -> Seq<Seq<int>> {
    Seq::new(dim as nat, |c: int| Seq::<int>::empty())
}

/// The columns grown to at least `dim` columns; the added ones are empty.
pub open spec fn grown(columns: Seq<Seq<int>>, dim: int) -> Seq<Seq<int>> {
    if dim <= columns.len() {
        columns
    } else {
        columns + empty_columns(dim - columns.len())
    }
}

/// The columns after the entry at (`column`, `row`) has been added.
pub open spec fn with_entry(columns: Seq<Seq<int>>, column: int, row: int) -> Seq<Seq<int>> {
    let wide = grown(columns, column + 1);
    wide.update(column, with_row(wide[column], row))
}

/// The number of entries in the first `n` columns.
pub open spec fn entries_before(columns: Seq<Seq<int>>, n: int) -> int
    decreases n,
{
    if n <= 0 {
        0
    } else {
        entries_before(columns, n - 1) + columns[n - 1].len()
    }
}

/// The number of entries in all columns.
pub open spec fn entry_total(columns: Seq<Seq<int>>) -> int {
    entries_before(columns, columns.len() as int)
}

/// The number of entries grows with the number of columns counted.
pub proof fn lemma_entries_before_grows(columns: Seq<Seq<int>>, m: int, n: int)
    requires
        0 <= m <= n,
    ensures
        0 <= entries_before(columns, m) <= entries_before(columns, n),
    decreases n,
{
    if m < n {
        lemma_entries_before_grows(columns, m, n - 1);
    } else if 0 < n {
        lemma_entries_before_grows(columns, m - 1, n - 1);
    }
}

/// A position that has only smaller rows before it and none at or after it is
/// the rank of the row.
pub proof fn lemma_rank_of_partition(column: Seq<int>, row: int, p: int)
    requires
        0 <= p <= column.len(),
        forall|i: int| 0 <= i < p ==> column[i] < row,
        forall|i: int| p <= i < column.len() ==> column[i] >= row,
    ensures
        rank(column, row) == p,
    decreases column.len(),
{
    if column.len() > 0 {
        let shorter = column.drop_last();
        if p == column.len() {
            lemma_rank_of_partition(shorter, row, p - 1);
        } else {
            lemma_rank_of_partition(shorter, row, p);
        }
    }
}

/// In a sorted column the rank of a row parts the rows below it from the
/// others.
pub proof fn lemma_rank_parts(column: Seq<int>, row: int)
    requires
        strictly_increasing(column),
    ensures
        0 <= rank(column, row) <= column.len(),
        forall|i: int| 0 <= i < rank(column, row) ==> column[i] < row,
        forall|i: int| rank(column, row) <= i < column.len() ==> column[i] >= row,
    decreases column.len(),
{
    if column.len() > 0 {
        let shorter = column.drop_last();
        lemma_rank_parts(shorter, row);
        let p = rank(shorter, row);
        if column.last() < row {
            assert forall|i: int| 0 <= i < column.len() implies column[i] < row by {
                if i < column.len() - 1 {
                    assert(column[i] < column[column.len() - 1]);
                }
            }
            assert(forall|i: int| 0 <= i < shorter.len() ==> shorter[i] == column[i]);
            lemma_rank_of_partition(shorter, row, shorter.len() as int);
        } else {
            assert forall|i: int| p <= i < column.len() implies column[i] >= row by {
                if i < column.len() - 1 {
                    assert(shorter[i] == column[i]);
                }
            }
            assert forall|i: int| 0 <= i < p implies column[i] < row by {
                assert(shorter[i] == column[i]);
            }
        }
    }
}

/// Entering a row keeps a sorted column sorted, and the column then holds
/// that row beside the rows it held before.
pub proof fn lemma_with_row(column: Seq<int>, row: int)
    requires
        strictly_increasing(column),
    ensures
        strictly_increasing(with_row(column, row)),
        with_row(column, row).contains(row),
        forall|r: int| with_row(column, row).contains(r) <==> (r == row || column.contains(r)),
        with_row(column, row).len() == column.len() + if column.contains(row) {
            0int
        } else {
            1int
        },
{
    if !column.contains(row) {
        let p = rank(column, row);
        let after = column.insert(p, row);
        lemma_rank_parts(column, row);
        assert forall|i: int| p <= i < column.len() implies column[i] > row by {
            assert(column[i] != row);
        }
        assert(after[p] == row);
        assert forall|r: int| after.contains(r) <==> (r == row || column.contains(r)) by {
            if after.contains(r) {
                let k = choose|k: int| 0 <= k < after.len() && after[k] == r;
                if k < p {
                    assert(column[k] == r);
                } else if k > p {
                    assert(column[k - 1] == r);
                }
            }
            if column.contains(r) {
                let k = choose|k: int| 0 <= k < column.len() && column[k] == r;
                if k < p {
                    assert(after[k] == r);
                } else {
                    assert(after[k + 1] == r);
                }
            }
        }
    }
}

/// Adding an entry keeps every column sorted and free of duplicates, and
/// the pattern then holds that entry beside the entries it held before.
pub proof fn lemma_with_entry(columns: Seq<Seq<int>>, column: int, row: int)
    requires
        0 <= column,
        forall|c: int| 0 <= c < columns.len() ==> strictly_increasing(#[trigger] columns[c]),
    ensures
        with_entry(columns, column, row).len() == if column < columns.len() {
            columns.len() as int
        } else {
            column + 1
        },
        forall|c: int|
            0 <= c < with_entry(columns, column, row).len() ==> strictly_increasing(
                #[trigger] with_entry(columns, column, row)[c],
            ),
        forall|c: int, r: int|
            0 <= c < with_entry(columns, column, row).len() ==> (#[trigger] with_entry(
                columns,
                column,
                row,
            )[c].contains(r) <==> ((c == column && r == row) || (c < columns.len()
                && columns[c].contains(r)))),
{
    let wide = grown(columns, column + 1);
    lemma_with_row(wide[column], row);
    assert forall|c: int, r: int| columns.len() <= c < wide.len() implies !(#[trigger] wide[c]
        .contains(r)) by {}
}

/// Adding the same entry a second time changes nothing: no row twice, the
/// same length, the same order.
pub proof fn lemma_with_entry_twice(columns: Seq<Seq<int>>, column: int, row: int)
    requires
        0 <= column,
        forall|c: int| 0 <= c < columns.len() ==> strictly_increasing(#[trigger] columns[c]),
    ensures
        with_entry(with_entry(columns, column, row), column, row) == with_entry(
            columns,
            column,
            row,
        ),
{
    let once = with_entry(columns, column, row);
    lemma_with_row(grown(columns, column + 1)[column], row);
    assert(with_entry(once, column, row) =~= once);
}

} // verus!

use crate::column::{
    columns_of, entries_before, entry_total, lemma_entries_before_grows, lemma_rank_parts, rank,
    rows_of, strictly_increasing,
};
use crate::index::KluIndex;
use crate::settings::KluError;
use vstd::prelude::*;

verus! {

/// A sparsity pattern in compressed-column form: the rows of all columns in
/// one array, column after column, and the offset at which each column
/// starts.
///
/// This is what the kernel analyzes, and what a value buffer is laid out by:
/// the value of the entry at position `k` of the row array stands at
/// position `k` of the buffer.
pub struct KluPattern<I: KluIndex> {
    column_offsets: Vec<I>,
    row_indices: Vec<I>,
}

/// Whether a pattern of these columns can be laid out: the number of its
/// columns and the number of its entries must fit the index type, and the
/// two arrays the positions of the machine.
pub open spec fn fits_index<I: KluIndex>(columns: Seq<Seq<int>>) -> bool {
    &&& columns.len() <= I::max_int()
    &&& columns.len() < usize::MAX
    &&& entry_total(columns) <= I::max_int()
    &&& entry_total(columns) <= usize::MAX
}

/// Counts the entries of the columns, or finds that they cannot be laid out.
fn count_entries<I: KluIndex>(columns: &[Vec<I>]) -> (total: Option<usize>)
    ensures
        total is Some <==> fits_index::<I>(columns_of(columns@)),
        total matches Some(n) ==> n == entry_total(columns_of(columns@)),
{
    let ghost model = columns_of(columns@);
    if !I::fits(columns.len()) || columns.len() == usize::MAX {
        return None;
    }
    let mut total: usize = 0;
    let mut c: usize = 0;
    while c < columns.len()
        invariant
            model == columns_of(columns@),
            c <= columns.len(),
            total == entries_before(model, c as int),
            total <= I::max_int(),
            columns.len() <= I::max_int(),
        decreases columns.len() - c,
    {
        let len: usize = columns[c].len();
        proof {
            assert(model[c as int].len() == len);
            assert(entries_before(model, c + 1) == total + len);
            lemma_entries_before_grows(model, c + 1, model.len() as int);
        }
        if len > usize::MAX - total {
            return None;
        }
        total = total + len;
        if !I::fits(total) {
            return None;
        }
        c += 1;
    }
    Some(total)
}

impl<I: KluIndex> KluPattern<I> {
    /// The offsets of the columns, with the number of entries at the end.
    pub closed spec fn offsets(&self) -> Seq<int> {
        rows_of(self.column_offsets@)
    }

    /// The rows of all entries, column after column.
    pub closed spec fn rows(&self) -> Seq<int> {
        rows_of(self.row_indices@)
    }

    /// The number of columns.
    pub open spec fn dim(&self) -> int {
        self.offsets().len() - 1
    }

    /// What holds of every pattern: the offsets start at 0, never fall, and
    /// end at the number of entries.
    pub open spec fn wf(&self) -> bool {
        &&& 0 <= self.dim() <= I::max_int()
        &&& self.offsets()[0] == 0
        &&& forall|i: int, j: int|
            0 <= i <= j <= self.dim() ==> self.offsets()[i] <= self.offsets()[j]
        &&& self.offsets()[self.dim()] == self.rows().len()
    }

    /// The rows of column `c`.
    pub open spec fn column(&self, c: int) -> Seq<int> {
        self.rows().subrange(self.offsets()[c], self.offsets()[c + 1])
    }

    /// The columns of the pattern, each as the sequence of its rows.
    pub open spec fn columns(&self) -> Seq<Seq<int>> {
        Seq::new(self.dim() as nat, |c: int| self.column(c))
    }

    /// The layout in terms of the columns: each column starts where the
    /// entries of the columns before it end, and is as long as the distance
    /// to the start of the next; the first starts at 0, and the entries of
    /// all columns are the entries of the pattern.
    pub proof fn lemma_layout(&self)
        requires
            self.wf(),
        ensures
            self.columns().len() == self.dim(),
            forall|c: int|
                0 <= c <= self.dim() ==> #[trigger] self.offsets()[c] == entries_before(
                    self.columns(),
                    c,
                ),
            forall|c: int|
                0 <= c < self.dim() ==> (#[trigger] self.columns()[c]).len() == self.offsets()[c
                    + 1] - self.offsets()[c],
            entry_total(self.columns()) == self.rows().len(),
    {
        self.lemma_offsets_count(self.dim());
        assert forall|c: int| 0 <= c <= self.dim() implies #[trigger] self.offsets()[c]
            == entries_before(self.columns(), c) by {
            self.lemma_offsets_count(c);
        }
        assert forall|c: int| 0 <= c < self.dim() implies (#[trigger] self.columns()[c]).len()
            == self.offsets()[c + 1] - self.offsets()[c] by {
            assert(self.offsets()[0] <= self.offsets()[c] <= self.offsets()[c + 1]
                <= self.offsets()[self.dim()]);
        }
    }

    /// The offset of a column is the number of entries before it.
    proof fn lemma_offsets_count(&self, c: int)
        requires
            self.wf(),
            0 <= c <= self.dim(),
        ensures
            self.offsets()[c] == entries_before(self.columns(), c),
        decreases c,
    {
        if c > 0 {
            self.lemma_offsets_count(c - 1);
            assert(self.offsets()[0] <= self.offsets()[c - 1] <= self.offsets()[c]
                <= self.offsets()[self.dim()]);
            assert(self.columns()[c - 1].len() == self.offsets()[c] - self.offsets()[c - 1]);
        }
    }

    /// Whether the pattern has an entry at (`column`, `row`).
    pub open spec fn has_entry(&self, column: int, row: int) -> bool {
        0 <= column < self.dim() && self.column(column).contains(row)
    }

    /// Whether `k` is the position, among all entries, of the first entry of
    /// `column` that lies in `row`.
    pub open spec fn is_offset_of(&self, column: int, row: int, k: int) -> bool {
        &&& 0 <= column < self.dim()
        &&& self.offsets()[column] <= k < self.offsets()[column + 1]
        &&& self.rows()[k] == row
        &&& forall|j: int| self.offsets()[column] <= j < k ==> self.rows()[j] != row
    }

    /// The position, among all entries, of the entry at (`column`, `row`):
    /// the place of its value in a value buffer. `None` if the pattern has no
    /// such entry.
    pub open spec fn offset_of(&self, column: int, row: int) -> Option<int> {
        if exists|k: int| self.is_offset_of(column, row, k) {
            Some(choose|k: int| self.is_offset_of(column, row, k))
        } else {
            None
        }
    }

    /// An entry has one offset, and the pattern has an offset for exactly
    /// the entries it holds.
    pub proof fn lemma_offset_of(&self, column: int, row: int)
        requires
            self.wf(),
        ensures
            self.offset_of(column, row) is Some <==> self.has_entry(column, row),
            forall|k: int|
                self.is_offset_of(column, row, k) <==> self.offset_of(column, row) == Some(k),
            self.offset_of(column, row) matches Some(k) ==> 0 <= k < self.rows().len(),
    {
        if 0 <= column < self.dim() {
            let start = self.offsets()[column];
            let end = self.offsets()[column + 1];
            assert(self.offsets()[0] <= start <= end <= self.offsets()[self.dim()]);
            let rows = self.column(column);
            if rows.contains(row) {
                rows.index_of_first_ensures(row);
                let first = rows.index_of_first(row)->0;
                assert(rows[first] == self.rows()[start + first]);
                assert forall|j: int| start <= j < start + first implies self.rows()[j]
                    != row by {
                    assert(rows[j - start] == self.rows()[j]);
                }
                assert(self.is_offset_of(column, row, start + first));
            }
            if exists|k: int| self.is_offset_of(column, row, k) {
                let k = choose|k: int| self.is_offset_of(column, row, k);
                assert(rows[k - start] == row);
                assert forall|m: int| self.is_offset_of(column, row, m) implies m == k by {
                    if m < k {
                        assert(self.rows()[m] != row);
                    } else if k < m {
                        assert(self.rows()[k] != row);
                    }
                }
            }
        }
    }

    /// No two entries share an offset: each value of a buffer belongs to one
    /// entry.
    pub proof fn lemma_offsets_differ(
        &self,
        column: int,
        row: int,
        other_column: int,
        other_row: int,
    )
        requires
            self.wf(),
            self.offset_of(column, row) is Some,
            self.offset_of(column, row) == self.offset_of(other_column, other_row),
        ensures
            column == other_column,
            row == other_row,
    {
        self.lemma_offset_of(column, row);
        self.lemma_offset_of(other_column, other_row);
        let k = self.offset_of(column, row)->0;
        assert(self.is_offset_of(column, row, k));
        assert(self.is_offset_of(other_column, other_row, k));
        if column < other_column {
            assert(self.offsets()[column + 1] <= self.offsets()[other_column]);
        } else if other_column < column {
            assert(self.offsets()[other_column + 1] <= self.offsets()[column]);
        }
    }

    /// Every position of the row array lies in one of the columns.
    pub proof fn lemma_column_of(&self, k: int) -> (column: int)
        requires
            self.wf(),
            0 <= k < self.rows().len(),
        ensures
            0 <= column < self.dim(),
            self.offsets()[column] <= k < self.offsets()[column + 1],
    {
        self.lemma_column_below(k, self.dim())
    }

    /// A position below the offset of column `n` lies in one of the columns
    /// before it.
    proof fn lemma_column_below(&self, k: int, n: int) -> (column: int)
        requires
            self.wf(),
            0 <= k < self.offsets()[n],
            0 <= n <= self.dim(),
        ensures
            0 <= column < n,
            self.offsets()[column] <= k < self.offsets()[column + 1],
        decreases n,
    {
        if self.offsets()[n - 1] <= k {
            n - 1
        } else {
            self.lemma_column_below(k, n - 1)
        }
    }

    /// Where every column is sorted and holds no row twice, as in the
    /// patterns of a builder, every position of a value buffer is the offset
    /// of an entry: the entries and the values of a buffer correspond one to
    /// one.
    pub proof fn lemma_position_is_offset(&self, k: int) -> (column: int)
        requires
            self.wf(),
            0 <= k < self.rows().len(),
            forall|c: int| 0 <= c < self.dim() ==> strictly_increasing(#[trigger] self.column(c)),
        ensures
            self.offset_of(column, self.rows()[k]) == Some(k),
    {
        let column = self.lemma_column_of(k);
        let start = self.offsets()[column];
        let end = self.offsets()[column + 1];
        let held = self.column(column);
        assert(self.offsets()[0] <= start <= end <= self.offsets()[self.dim()]);
        assert(strictly_increasing(held));
        assert forall|j: int| start <= j < k implies self.rows()[j] != self.rows()[k] by {
            assert(held[j - start] == self.rows()[j]);
            assert(held[k - start] == self.rows()[k]);
            assert(held[j - start] < held[k - start]);
        }
        assert(self.is_offset_of(column, self.rows()[k], k));
        self.lemma_offset_of(column, self.rows()[k]);
        column
    }

    /// In a sorted column, as a builder keeps them, the offset of an entry is
    /// the start of the column plus the number of rows of the column that lie
    /// below the entry's row.
    pub proof fn lemma_offset_in_sorted_column(&self, column: int, row: int)
        requires
            self.wf(),
            self.has_entry(column, row),
            strictly_increasing(self.column(column)),
        ensures
            self.offset_of(column, row) == Some(
                self.offsets()[column] + rank(self.column(column), row),
            ),
    {
        let held = self.column(column);
        let start = self.offsets()[column];
        let p = rank(held, row);
        lemma_rank_parts(held, row);
        let m = choose|m: int| 0 <= m < held.len() && held[m] == row;
        if p < m {
            assert(held[p] < held[m]);
        }
        assert(p == m);
        let end = self.offsets()[column + 1];
        assert(self.offsets()[0] <= start <= end <= self.offsets()[self.dim()]);
        assert(self.rows()[start + p] == held[p]);
        assert forall|j: int| start <= j < start + p implies self.rows()[j] != row by {
            assert(self.rows()[j] == held[j - start]);
        }
        assert(self.is_offset_of(column, row, start + p));
        self.lemma_offset_of(column, row);
    }

    /// Lays out a pattern of the given columns.
    pub fn new(columns: &[Vec<I>]) -> (laid: Result<Self, KluError>)
        ensures
            laid is Ok <==> fits_index::<I>(columns_of(columns@)),
            laid matches Ok(pattern) ==> pattern.wf() && pattern.columns() == columns_of(
                columns@,
            ),
            laid matches Err(error) ==> error == KluError::TooLarge,
    {
        let mut pattern = KluPattern { column_offsets: Vec::new(), row_indices: Vec::new() };
        match pattern.init(columns) {
            Ok(()) => Ok(pattern),
            Err(error) => Err(error),
        }
    }

    /// Lays the pattern out anew for the given columns, in the storage that
    /// it has. Columns that do not fit the index type leave it as it was.
    pub fn init(&mut self, columns: &[Vec<I>]) -> (laid: Result<(), KluError>)
        ensures
            laid is Ok <==> fits_index::<I>(columns_of(columns@)),
            laid is Ok ==> final(self).wf() && final(self).columns() == columns_of(columns@),
            laid matches Err(error) ==> error == KluError::TooLarge && *final(self) == *old(self),
    {
        let ghost model = columns_of(columns@);
        let num_entries: usize = match count_entries(columns) {
            Some(total) => total,
            None => {
                return Err(KluError::TooLarge);
            },
        };
        let mut offsets: Vec<I> = Vec::new();
        let mut rows: Vec<I> = Vec::new();
        core::mem::swap(&mut self.column_offsets, &mut offsets);
        core::mem::swap(&mut self.row_indices, &mut rows);
        offsets.clear();
        rows.clear();
        offsets.reserve(columns.len() + 1);
        rows.reserve(num_entries);
        offsets.push(I::from_usize(0));
        let mut c: usize = 0;
        while c < columns.len()
            invariant
                model == columns_of(columns@),
                fits_index::<I>(model),
                c <= columns.len(),
                offsets.len() == c + 1,
                rows.len() == entries_before(model, c as int),
                forall|j: int|
                    0 <= j <= c ==> (#[trigger] offsets@[j]).as_int() == entries_before(model, j),
                forall|j: int, k: int|
                    0 <= j < c && 0 <= k < model[j].len() ==> rows@[entries_before(model, j)
                        + k].as_int() == #[trigger] model[j][k],
            decreases columns.len() - c,
        {
            let column = &columns[c];
            let ghost start = rows.len();
            proof {
                assert(model[c as int].len() == column.len());
                assert(entries_before(model, c + 1) == start + column.len());
                lemma_entries_before_grows(model, c + 1, model.len() as int);
            }
            let mut k: usize = 0;
            while k < column.len()
                invariant
                    model == columns_of(columns@),
                    c < columns.len(),
                    column@ == columns@[c as int]@,
                    k <= column.len(),
                    start == entries_before(model, c as int),
                    start + column.len() <= usize::MAX,
                    rows.len() == start + k,
                    forall|j: int, m: int|
                        0 <= j < c && 0 <= m < model[j].len() ==> rows@[entries_before(model, j)
                            + m].as_int() == #[trigger] model[j][m],
                    forall|m: int|
                        0 <= m < k ==> rows@[start + m].as_int() == #[trigger] model[c as int][m],
                decreases column.len() - k,
            {
                let ghost before = rows@;
                rows.push(column[k]);
                proof {
                    assert(model[c as int][k as int] == column@[k as int].as_int());
                    assert forall|j: int, m: int|
                        0 <= j < c && 0 <= m < model[j].len() implies rows@[entries_before(model, j)
                        + m].as_int() == #[trigger] model[j][m] by {
                        lemma_entries_before_grows(model, j + 1, c as int);
                        lemma_entries_before_grows(model, 0, j);
                        assert(entries_before(model, j + 1) == entries_before(model, j)
                            + model[j].len());
                        assert(before[entries_before(model, j) + m].as_int() == model[j][m]);
                    }
                    assert forall|m: int| 0 <= m < k + 1 implies rows@[start + m].as_int()
                        == #[trigger] model[c as int][m] by {
                        if m < k {
                            assert(before[start + m].as_int() == model[c as int][m]);
                        }
                    }
                }
                k += 1;
            }
            offsets.push(I::from_usize(rows.len()));
            c += 1;
        }
        self.column_offsets = offsets;
        self.row_indices = rows;
        proof {
            let dim = columns.len() as int;
            assert(self.offsets().len() == dim + 1);
            assert forall|i: int| 0 <= i <= dim implies self.offsets()[i] == entries_before(
                model,
                i,
            ) by {
                assert(self.offsets()[i] == self.column_offsets@[i].as_int());
            }
            assert forall|i: int, j: int| 0 <= i <= j <= self.dim() implies self.offsets()[i]
                <= self.offsets()[j] by {
                lemma_entries_before_grows(model, i, j);
            }
            assert forall|j: int| 0 <= j < dim implies #[trigger] self.column(j) == model[j] by {
                lemma_entries_before_grows(model, j + 1, dim);
                lemma_entries_before_grows(model, 0, j);
                assert(entries_before(model, j + 1) == entries_before(model, j) + model[j].len());
                assert forall|m: int| 0 <= m < model[j].len() implies self.column(j)[m]
                    == model[j][m] by {
                    assert(self.rows()[entries_before(model, j) + m]
                        == self.row_indices@[entries_before(model, j) + m].as_int());
                }
                assert(self.column(j) =~= model[j]);
            }
            assert(self.columns() =~= model);
        }
        Ok(())
    }

    /// The number of columns.
    pub fn column_count(&self) -> (n: usize)
        requires
            self.wf(),
        ensures
            n == self.dim(),
    {
        self.column_offsets.len() - 1
    }

    /// The number of entries.
    pub fn entry_cnt(&self) -> (n: usize)
        ensures
            n == self.rows().len(),
    {
        self.row_indices.len()
    }

    /// The offsets of the columns, with the number of entries at the end.
    pub fn column_offsets(&self) -> (offsets: &[I])
        ensures
            rows_of(offsets@) == self.offsets(),
    {
        self.column_offsets.as_slice()
    }

    /// The rows of all entries, column after column.
    pub fn row_indices(&self) -> (rows: &[I])
        ensures
            rows_of(rows@) == self.rows(),
    {
        self.row_indices.as_slice()
    }
}

} // verus!

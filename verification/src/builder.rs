use crate::column::{
    columns_of, empty_columns, grown, lemma_rank_of_partition, lemma_rank_parts, lemma_with_row,
    rank, rows_of, strictly_increasing, with_entry, with_row,
};
use crate::index::KluIndex;
use crate::matrix_spec::KluMatrixSpec;
use crate::pattern::{fits_index, KluPattern};
use crate::settings::KluError;
use vstd::prelude::*;

verus! {

/// Room that a fresh column is given before its first entry arrives.
pub const COLUMN_CAPACITY: usize = 64;

/// Collects the entries of a sparsity pattern, column by column.
///
/// Each column is kept sorted and free of duplicates, so that one pattern has
/// one form whatever the order in which its entries arrived.
pub struct KluMatrixBuilder<I: KluIndex> {
    columns: Vec<Vec<I>>,
    dim: I,
}

impl<I: KluIndex> View for KluMatrixBuilder<I> {
    type V = Seq<Seq<int>>;

    /// The columns collected so far, each as the sequence of its rows.
    closed spec fn view(&self) -> Seq<Seq<int>> {
        columns_of(self.columns@)
    }
}

/// The position of the first row of the sorted column that is not below
/// `row`: the number of rows below it.
fn lower_bound<I: KluIndex>(column: &Vec<I>, row: I) -> (dst: usize)
    requires
        strictly_increasing(rows_of(column@)),
    ensures
        dst == rank(rows_of(column@), row.as_int()),
        dst <= column.len(),
{
    let ghost rows = rows_of(column@);
    let key: i64 = row.as_i64();
    let mut low: usize = 0;
    let mut high: usize = column.len();
    while low < high
        invariant
            rows == rows_of(column@),
            strictly_increasing(rows),
            key == row.as_int(),
            low <= high <= column.len(),
            forall|i: int| 0 <= i < low ==> rows[i] < key,
            forall|i: int| high <= i < rows.len() ==> rows[i] >= key,
        decreases high - low,
    {
        let mid: usize = low + (high - low) / 2;
        if column[mid].as_i64() < key {
            assert forall|i: int| 0 <= i < mid + 1 implies rows[i] < key by {
                if i < mid {
                    assert(rows[i] < rows[mid as int]);
                }
            }
            low = mid + 1;
        } else {
            assert forall|i: int| mid <= i < rows.len() implies rows[i] >= key by {
                if mid < i {
                    assert(rows[mid as int] < rows[i]);
                }
            }
            high = mid;
        }
    }
    proof {
        lemma_rank_of_partition(rows, key as int, low as int);
    }
    low
}

impl<I: KluIndex> KluMatrixBuilder<I> {
    /// The number of columns.
    pub closed spec fn dim(&self) -> int {
        self.dim.as_int()
    }

    /// What holds of every builder: it has as many columns as its dimension
    /// says, and each column is sorted and holds no row twice.
    pub open spec fn wf(&self) -> bool {
        &&& self.dim() == self@.len()
        &&& forall|c: int| 0 <= c < self@.len() ==> strictly_increasing(#[trigger] self@[c])
    }

    /// A builder with `dim` empty columns.
    pub fn new(dim: I) -> (builder: Self)
        requires
            0 <= dim.as_int() <= usize::MAX,
        ensures
            builder.wf(),
            builder@ == empty_columns(dim.as_int()),
    {
        let n: usize = dim.into_usize();
        let mut columns: Vec<Vec<I>> = Vec::new();
        while columns.len() < n
            invariant
                columns.len() <= n,
                forall|k: int| 0 <= k < columns.len() ==> (#[trigger] columns@[k])@.len() == 0,
            decreases n - columns.len(),
        {
            columns.push(Vec::with_capacity(COLUMN_CAPACITY));
        }
        assert(columns_of(columns@) =~~= empty_columns(dim.as_int()));
        KluMatrixBuilder { columns, dim }
    }

    /// Grows the builder to `dim` columns, if it has fewer.
    fn ensure_dim(&mut self, dim: I)
        requires
            old(self).wf(),
            dim.as_int() <= usize::MAX,
        ensures
            final(self).wf(),
            final(self)@ == grown(old(self)@, dim.as_int()),
    {
        if self.dim.as_i64() < dim.as_i64() {
            let n: usize = dim.into_usize();
            let ghost start = self.columns@;
            while self.columns.len() < n
                invariant
                    self.columns.len() <= n,
                    start.len() <= self.columns.len(),
                    forall|k: int| 0 <= k < start.len() ==> #[trigger] self.columns@[k] == start[k],
                    forall|k: int|
                        start.len() <= k < self.columns.len() ==> (#[trigger] self.columns@[
                            k
                        ])@.len() == 0,
                decreases n - self.columns.len(),
            {
                self.columns.push(Vec::with_capacity(COLUMN_CAPACITY));
            }
            self.dim = dim;
            assert(self@ =~~= grown(columns_of(start), dim.as_int()));
        }
    }

    /// Empties every column and grows the builder to `dim` columns, if it has
    /// fewer. The columns keep the room they have.
    pub fn reset(&mut self, dim: I)
        requires
            old(self).wf(),
            dim.as_int() <= usize::MAX,
        ensures
            final(self).wf(),
            final(self)@ == empty_columns(
                if dim.as_int() <= old(self)@.len() {
                    old(self)@.len() as int
                } else {
                    dim.as_int()
                },
            ),
    {
        self.ensure_dim(dim);
        let ghost len = self@.len();
        let mut c: usize = 0;
        while c < self.columns.len()
            invariant
                c <= self.columns.len(),
                self.columns.len() == len,
                self.dim.as_int() == len,
                forall|k: int| 0 <= k < c ==> (#[trigger] self.columns@[k])@.len() == 0,
            decreases self.columns.len() - c,
        {
            self.columns[c].clear();
            c += 1;
        }
        assert(self@ =~~= empty_columns(len as int));
    }

    /// Adds the entry at (`column`, `row`) to the pattern, growing the
    /// builder if it has no such column yet. An entry that is there already
    /// stays as it is.
    pub fn add_entry(&mut self, column: I, row: I)
        requires
            old(self).wf(),
            0 <= column.as_int() < I::max_int(),
            column.as_int() < usize::MAX,
        ensures
            final(self).wf(),
            final(self)@ == with_entry(old(self)@, column.as_int(), row.as_int()),
    {
        let c: usize = column.into_usize();
        self.ensure_dim(I::from_usize(c + 1));
        let ghost wide = self@;
        let ghost rows = wide[c as int];
        let dst: usize = lower_bound(&self.columns[c], row);
        let present: bool = dst < self.columns[c].len() && self.columns[c][dst].as_i64()
            == row.as_i64();
        proof {
            lemma_rank_parts(rows, row.as_int());
            lemma_with_row(rows, row.as_int());
            assert(rows == rows_of(self.columns@[c as int]@));
            if dst < rows.len() {
                assert(rows[dst as int] == self.columns@[c as int]@[dst as int].as_int());
            }
            if rows.contains(row.as_int()) {
                let k = choose|k: int| 0 <= k < rows.len() && rows[k] == row.as_int();
                if dst < k {
                    assert(rows[dst as int] < rows[k]);
                }
                assert(k == dst);
            }
            assert(present == rows.contains(row.as_int()));
        }
        if !present {
            self.columns[c].insert(dst, row);
            assert(rows_of(self.columns@[c as int]@) =~= rows.insert(dst as int, row.as_int()));
        }
        assert(self@ =~~= wide.update(c as int, with_row(rows, row.as_int())));
    }

    /// The columns collected so far.
    pub fn columns(&self) -> (columns: &[Vec<I>])
        ensures
            columns_of(columns@) == self@,
    {
        self.columns.as_slice()
    }

    /// Lays out the pattern collected so far, for the kernel to analyze. The
    /// analysis, handed to `KluMatrixSpec::new` with the pattern, gives the
    /// specification.
    pub fn finish(&self) -> (laid: Result<KluPattern<I>, KluError>)
        ensures
            laid is Ok <==> fits_index::<I>(self@),
            laid matches Ok(pattern) ==> pattern.wf() && pattern.columns() == self@,
            laid matches Err(error) ==> error == KluError::TooLarge,
    {
        KluPattern::new(self.columns())
    }

    /// Lays out the pattern collected so far in the storage of a
    /// specification that is no longer needed, whose symbolic object is
    /// released first.
    pub fn reinit<S>(&self, matrix_spec: KluMatrixSpec<I, S>) -> (laid: Result<
        KluPattern<I>,
        KluError,
    >)
        ensures
            laid is Ok <==> fits_index::<I>(self@),
            laid matches Ok(pattern) ==> pattern.wf() && pattern.columns() == self@,
            laid matches Err(error) ==> error == KluError::TooLarge,
    {
        matrix_spec.reinit(self.columns())
    }
}

} // verus!

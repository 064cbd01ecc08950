use crate::column::{columns_of, rows_of};
use crate::index::KluIndex;
use crate::matrix::FixedKluMatrix;
use crate::pattern::{fits_index, KluPattern};
use crate::scalar::KluData;
use crate::settings::{status_verdict, KluError, KluSettings};
use std::rc::Rc;
use vstd::prelude::*;

verus! {

/// A sparsity pattern together with the kernel's symbolic analysis of it.
///
/// The analysis is the costly step, so one specification is shared by all
/// matrices of its pattern. `S` is the embedder's handle to the symbolic
/// object: it is released when the specification is dropped, which shared
/// ownership puts after the drop of the last matrix that uses it. The handle
/// is the first field, so that it goes before the pattern does.
pub struct KluMatrixSpec<I: KluIndex, S> {
    klu_symbolic: S,
    pattern: KluPattern<I>,
}

impl<I: KluIndex, S> KluMatrixSpec<I, S> {
    /// The pattern that was analyzed.
    pub closed spec fn spec_pattern(&self) -> &KluPattern<I> {
        &self.pattern
    }

    /// The handle to the symbolic analysis.
    pub closed spec fn spec_symbolic(&self) -> &S {
        &self.klu_symbolic
    }

    /// What holds of every specification: its pattern is well formed.
    pub open spec fn wf(&self) -> bool {
        self.pattern().wf()
    }

    /// What becomes of an analysis: the error that the status names, else
    /// `MissingHandle` where the kernel handed back no symbolic object, else
    /// a specification.
    pub open spec fn analysis_verdict(
        settings: &KluSettings<I>,
        klu_symbolic: Option<S>,
    ) -> Result<(), KluError> {
        match status_verdict(settings.status()) {
            Err(error) => Err(error),
            Ok(()) => if klu_symbolic is Some {
                Ok(())
            } else {
                Err(KluError::MissingHandle)
            },
        }
    }

    /// Makes the specification of a pattern from what the kernel's analysis
    /// of that pattern left: the status in `klu_settings` and the symbolic
    /// object behind `klu_symbolic`.
    pub fn new(
        pattern: KluPattern<I>,
        klu_settings: &KluSettings<I>,
        klu_symbolic: Option<S>,
    ) -> (made: Result<Rc<Self>, KluError>)
        requires
            pattern.wf(),
        ensures
            match made {
                Ok(spec) => {
                    &&& Self::analysis_verdict(klu_settings, klu_symbolic) is Ok
                    &&& spec.wf()
                    &&& *spec.pattern() == pattern
                    &&& Some(*spec.symbolic()) == klu_symbolic
                },
                Err(error) => Self::analysis_verdict(klu_settings, klu_symbolic) == Err::<
                    (),
                    KluError,
                >(error),
            },
    {
        match klu_settings.check_status() {
            Err(error) => Err(error),
            Ok(()) => match klu_symbolic {
                Some(klu_symbolic) => Ok(Rc::new(KluMatrixSpec { klu_symbolic, pattern })),
                None => Err(KluError::MissingHandle),
            },
        }
    }

    /// Gives up the analysis and lays the pattern out anew for the given
    /// columns, in the storage of the old one. The symbolic object is
    /// released here, before anything else is done. The new pattern has to be
    /// analyzed before it can serve as a specification again.
    pub fn reinit(self, columns: &[Vec<I>]) -> (laid: Result<KluPattern<I>, KluError>)
        ensures
            laid is Ok <==> fits_index::<I>(columns_of(columns@)),
            laid matches Ok(pattern) ==> pattern.wf() && pattern.columns() == columns_of(
                columns@,
            ),
            laid matches Err(error) ==> error == KluError::TooLarge,
    {
        let KluMatrixSpec { klu_symbolic, pattern } = self;
        {
            let released = klu_symbolic;
        }
        let mut pattern = pattern;
        match pattern.init(columns) {
            Ok(()) => Ok(pattern),
            Err(error) => Err(error),
        }
    }

    /// The pattern that was analyzed.
    #[verifier::when_used_as_spec(spec_pattern)]
    pub fn pattern(&self) -> (pattern: &KluPattern<I>)
        ensures
            pattern == self.pattern(),
    {
        &self.pattern
    }

    /// The handle to the symbolic analysis.
    #[verifier::when_used_as_spec(spec_symbolic)]
    pub fn symbolic(&self) -> (klu_symbolic: &S)
        ensures
            klu_symbolic == self.symbolic(),
    {
        &self.klu_symbolic
    }

    /// The number of entries of the pattern: the length of a value buffer.
    pub fn entry_cnt(&self) -> (n: usize)
        ensures
            n == self.pattern().rows().len(),
    {
        self.pattern.entry_cnt()
    }

    /// A matrix of zeros with this specification. `None` if the pattern has
    /// no entry: there is no matrix without values.
    pub fn create_matrix<D: KluData, N>(self: Rc<Self>) -> (made: Option<
        FixedKluMatrix<I, D, S, N>,
    >)
        requires
            self.wf(),
        ensures
            made is None <==> self.pattern().rows().len() == 0,
            made matches Some(matrix) ==> matrix.fresh_for(self),
    {
        FixedKluMatrix::new(self)
    }

    /// The place in a value buffer of the entry at (`column`, `row`), or
    /// `None` if the pattern has no such entry, be it that the column lies
    /// outside the matrix or that the column holds nothing in that row.
    pub fn offset(&self, column: I, row: I) -> (found: Option<usize>)
        requires
            self.wf(),
        ensures
            found is Some <==> self.pattern().has_entry(column.as_int(), row.as_int()),
            found matches Some(k) ==> k < self.pattern().rows().len(),
            match found {
                Some(k) => self.pattern().offset_of(column.as_int(), row.as_int()) == Some(
                    k as int,
                ),
                None => self.pattern().offset_of(column.as_int(), row.as_int()) is None,
            },
    {
        proof {
            self.pattern().lemma_offset_of(column.as_int(), row.as_int());
            column.lemma_range();
        }
        let wide: i64 = column.as_i64();
        let dim: usize = self.pattern.column_count();
        if wide < 0 || wide as u64 >= dim as u64 {
            return None;
        }
        let c: usize = column.into_usize();
        let offsets = self.pattern.column_offsets();
        let rows = self.pattern.row_indices();
        let total: usize = rows.len();
        proof {
            let model = self.pattern().offsets();
            assert(model[c as int] == offsets@[c as int].as_int());
            assert(model[c + 1] == offsets@[c + 1].as_int());
            assert(model[0] <= model[c as int] <= model[c + 1] <= model[self.pattern().dim()]);
            assert(self.pattern().rows().len() == total);
            assert(0 <= model[c as int]);
            assert(model[c + 1] <= total);
        }
        let start: usize = offsets[c].into_usize();
        let end: usize = offsets[c + 1].into_usize();
        let key: i64 = row.as_i64();
        let mut k: usize = start;
        while k < end
            invariant
                self.wf(),
                rows_of(rows@) == self.pattern().rows(),
                0 <= c < self.pattern().dim(),
                c == column.as_int(),
                start == self.pattern().offsets()[c as int],
                end == self.pattern().offsets()[c + 1],
                start <= k <= end <= rows.len(),
                key == row.as_int(),
                forall|j: int| start <= j < k ==> self.pattern().rows()[j] != row.as_int(),
            decreases end - k,
        {
            proof {
                assert(self.pattern().rows()[k as int] == rows@[k as int].as_int());
            }
            if rows[k].as_i64() == key {
                proof {
                    self.pattern().lemma_offset_of(column.as_int(), row.as_int());
                    assert(self.pattern().is_offset_of(column.as_int(), row.as_int(), k as int));
                }
                return Some(k);
            }
            k += 1;
        }
        proof {
            self.pattern().lemma_offset_of(column.as_int(), row.as_int());
            let held = self.pattern().column(c as int);
            if held.contains(row.as_int()) {
                let m = choose|m: int| 0 <= m < held.len() && held[m] == row.as_int();
                assert(self.pattern().rows()[start + m] == row.as_int());
            }
        }
        None
    }
}

} // verus!

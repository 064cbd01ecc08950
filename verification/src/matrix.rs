use crate::index::KluIndex;
use crate::matrix_spec::KluMatrixSpec;
use crate::scalar::{KluData, Real, INFINITY_BITS};
use crate::settings::{status_verdict, KluError, KluSettings};
use std::rc::Rc;
use vstd::prelude::*;

verus! {

/// Where a matrix stands between its value buffer and the kernel.
#[derive(Clone, Copy, Debug, PartialEq, Eq, Structural)]
pub enum FactorState {
    /// No factorization is retained, and none was found impossible.
    Unfactored,
    /// A numeric factorization is retained.
    Factored,
    /// The last full factorization found the values singular. Nothing is
    /// retained, and nothing changes that until a value is written.
    Singular,
}

/// What the embedder is to do next in a factorization.
#[derive(Clone, Copy, Debug, PartialEq, Eq, Structural)]
pub enum FactorStep {
    /// Refactor with the retained numeric object, then estimate the
    /// reciprocal condition number, and report with `refactor_done`.
    Refactor,
    /// Factor in full, and report with `factor_done`.
    Factor,
    /// Nothing: the factorization has ended, with this verdict.
    Done { singular: bool },
    /// Nothing: the factorization was given up.
    Abort { error: KluError },
}

/// What a matrix retains of its factorization: the handle to the kernel's
/// numeric object, and whether the last full factorization found the values
/// singular.
pub struct Factorization<N> {
    pub numeric: Option<N>,
    pub singular: bool,
}

impl<N> Factorization<N> {
    /// A singular matrix retains no numeric object.
    pub open spec fn wf(self) -> bool {
        self.singular ==> self.numeric is None
    }

    /// The state that the matrix is in.
    pub open spec fn state(self) -> FactorState {
        if self.numeric is Some {
            FactorState::Factored
        } else if self.singular {
            FactorState::Singular
        } else {
            FactorState::Unfactored
        }
    }

    /// The same without the numeric object.
    pub open spec fn released(self) -> Self {
        Factorization { numeric: None, singular: self.singular }
    }

    /// The start of a factorization. With a retained numeric object and a
    /// threshold the cheap way is tried first, and the object stays. Else the
    /// object, if there is one, is released and the matrix factored in full.
    pub open spec fn start(self, refactor_threshold: Option<Real>) -> (Self, FactorStep) {
        if self.numeric is Some && refactor_threshold is Some {
            (self, FactorStep::Refactor)
        } else {
            (self.released(), FactorStep::Factor)
        }
    }

    /// Whether a refactorization is good enough to stand: there is a numeric
    /// object, the kernel did not find the matrix singular, and the
    /// reciprocal condition estimate is at or below the threshold.
    pub open spec fn accepts<I: KluIndex>(
        self,
        klu_settings: &KluSettings<I>,
        refactor_threshold: Real,
    ) -> bool {
        &&& self.numeric is Some
        &&& !klu_settings.singular()
        &&& klu_settings.rcond().spec_le(refactor_threshold)
    }

    /// The step after a refactorization. An error status gives the
    /// factorization up. A refactorization that is accepted ends it, unless
    /// the kernel reported failure without a status to show for it. One that
    /// is not accepted has the numeric object released and the matrix
    /// factored in full.
    pub open spec fn refactor_done<I: KluIndex>(
        self,
        ok: bool,
        klu_settings: &KluSettings<I>,
        refactor_threshold: Real,
    ) -> (Self, FactorStep) {
        match status_verdict(klu_settings.status()) {
            Err(error) => (self, FactorStep::Abort { error }),
            Ok(()) => if self.accepts(klu_settings, refactor_threshold) {
                if ok {
                    (self, FactorStep::Done { singular: false })
                } else {
                    (self, FactorStep::Abort { error: KluError::CallFailed })
                }
            } else {
                (self.released(), FactorStep::Factor)
            },
        }
    }

    /// The step after a full factorization, which is always the last. An
    /// error status gives the factorization up. A singular matrix retains
    /// nothing. Else the new numeric object is retained; that the kernel
    /// handed none back gives the factorization up.
    pub open spec fn factor_done<I: KluIndex>(
        self,
        klu_numeric: Option<N>,
        klu_settings: &KluSettings<I>,
    ) -> (Self, FactorStep) {
        match status_verdict(klu_settings.status()) {
            Err(error) => (self, FactorStep::Abort { error }),
            Ok(()) => if klu_settings.singular() {
                (
                    Factorization { numeric: None, singular: true },
                    FactorStep::Done { singular: true },
                )
            } else if klu_numeric is Some {
                (
                    Factorization { numeric: klu_numeric, singular: false },
                    FactorStep::Done { singular: false },
                )
            } else {
                (self, FactorStep::Abort { error: KluError::MissingHandle })
            },
        }
    }

    /// The same after a value of the buffer was written: what was found
    /// singular may be so no longer.
    pub open spec fn written(self) -> Self {
        Factorization { numeric: self.numeric, singular: false }
    }

    /// A whole factorization, as the embedder runs it: the start, then the
    /// refactorization if that is the step asked for, then the full
    /// factorization if that is the step asked for. `refactored` and
    /// `factored` are what the kernel reports if it gets to make the call.
    pub open spec fn run<I: KluIndex>(
        self,
        refactor_threshold: Option<Real>,
        refactored: (bool, &KluSettings<I>),
        factored: (Option<N>, &KluSettings<I>),
    ) -> (Self, FactorStep) {
        let (started, first) = self.start(refactor_threshold);
        let (tried, second) = if first is Refactor {
            started.refactor_done(refactored.0, refactored.1, refactor_threshold->0)
        } else {
            (started, first)
        };
        if second is Factor {
            tried.factor_done(factored.0, factored.1)
        } else {
            (tried, second)
        }
    }

    /// A factorization comes to its end after at most two rounds with the
    /// kernel: with a verdict, or given up. With a verdict the matrix is in
    /// the state that the verdict names, and it is singular only if the full
    /// factorization found it so.
    pub proof fn lemma_run_ends<I: KluIndex>(
        self,
        refactor_threshold: Option<Real>,
        refactored: (bool, &KluSettings<I>),
        factored: (Option<N>, &KluSettings<I>),
    )
        requires
            self.wf(),
        ensures
            self.run(refactor_threshold, refactored, factored).0.wf(),
            match self.run(refactor_threshold, refactored, factored).1 {
                FactorStep::Done { singular } => {
                    let after = self.run(refactor_threshold, refactored, factored).0;
                    &&& singular ==> after.state() == FactorState::Singular
                    &&& !singular ==> after.state() == FactorState::Factored
                    &&& singular ==> factored.1.singular()
                },
                FactorStep::Abort { error } => true,
                FactorStep::Refactor => false,
                FactorStep::Factor => false,
            },
    {
    }

    /// No step lets a singular matrix retain a numeric object, and a
    /// factorization that ends leaves the matrix in the state that its
    /// verdict names: singular, or factored.
    pub proof fn lemma_steps<I: KluIndex>(
        self,
        start_threshold: Option<Real>,
        ok: bool,
        refactor_threshold: Real,
        klu_numeric: Option<N>,
        klu_settings: &KluSettings<I>,
    )
        requires
            self.wf(),
        ensures
            self.written().wf(),
            self.start(start_threshold).0.wf(),
            self.refactor_done(ok, klu_settings, refactor_threshold).0.wf(),
            self.factor_done(klu_numeric, klu_settings).0.wf(),
            self.start(start_threshold).1 is Refactor || self.start(start_threshold).1 is Factor,
            self.refactor_done(ok, klu_settings, refactor_threshold).1 matches FactorStep::Done {
                singular,
            } ==> !singular && self.refactor_done(ok, klu_settings, refactor_threshold).0.state()
                == FactorState::Factored,
            self.factor_done(klu_numeric, klu_settings).1 matches FactorStep::Done { singular }
                ==> self.factor_done(klu_numeric, klu_settings).0.state() == if singular {
                FactorState::Singular
            } else {
                FactorState::Factored
            },
    {
    }

    /// A matrix that the kernel finds singular retains no numeric object,
    /// whatever it held and whatever the kernel handed back: the
    /// factorization ends with the verdict singular, in the state singular.
    pub proof fn lemma_singular_retains_nothing<I: KluIndex>(
        self,
        klu_numeric: Option<N>,
        klu_settings: &KluSettings<I>,
    )
        requires
            klu_settings.singular(),
        ensures
            self.factor_done(klu_numeric, klu_settings).1 == (FactorStep::Done { singular: true }),
            self.factor_done(klu_numeric, klu_settings).0.numeric is None,
            self.factor_done(klu_numeric, klu_settings).0.state() == FactorState::Singular,
    {
    }

    /// A refactorization that is not accepted, be it for a singular matrix
    /// or for a condition estimate above the threshold, leaves the matrix
    /// exactly where the start of a full factorization would have left it:
    /// without a numeric object, and with a full factorization as the next
    /// step. So what follows is the same on both ways.
    pub proof fn lemma_rejected_refactor_falls_back<I: KluIndex>(
        self,
        ok: bool,
        klu_settings: &KluSettings<I>,
        refactor_threshold: Real,
    )
        requires
            klu_settings.passes(),
            !self.accepts(klu_settings, refactor_threshold),
        ensures
            self.refactor_done(ok, klu_settings, refactor_threshold) == self.start(None),
            self.refactor_done(ok, klu_settings, refactor_threshold).1 == FactorStep::Factor,
            self.refactor_done(ok, klu_settings, refactor_threshold).0.numeric is None,
    {
    }

    /// With positive infinity as the threshold every refactorization stands
    /// that the kernel completed on a matrix it did not find singular, with
    /// an estimate that is a number. The factorization then ends as a full
    /// one would on the same report: not singular, in the state factored. The
    /// numeric object is the one that was retained.
    pub proof fn lemma_infinite_threshold_accepts<I: KluIndex>(
        self,
        klu_numeric: N,
        klu_settings: &KluSettings<I>,
    )
        requires
            self.numeric is Some,
            klu_settings.passes(),
            !klu_settings.singular(),
            !klu_settings.rcond().spec_is_nan(),
        ensures
            self.start(Some(Real::with_bits(INFINITY_BITS))) == (self, FactorStep::Refactor),
            self.refactor_done(true, klu_settings, Real::with_bits(INFINITY_BITS)) == (
                self,
                FactorStep::Done { singular: false },
            ),
            self.factor_done(Some(klu_numeric), klu_settings).1 == (FactorStep::Done {
                singular: false,
            }),
            self.factor_done(Some(klu_numeric), klu_settings).0.state() == self.state(),
    {
        klu_settings.rcond().lemma_le_infinity();
    }

    /// With zero as the threshold no refactorization stands whose estimate
    /// is a positive number, as the estimate of a matrix that is not
    /// singular is: the matrix is factored in full.
    pub proof fn lemma_zero_threshold_rejects<I: KluIndex>(
        self,
        ok: bool,
        klu_settings: &KluSettings<I>,
    )
        requires
            klu_settings.passes(),
            !klu_settings.rcond().is_negative(),
            klu_settings.rcond().magnitude() > 0,
        ensures
            self.refactor_done(ok, klu_settings, Real::with_bits(0)) == self.start(None),
    {
        klu_settings.rcond().lemma_le_zero();
    }
}

/// The arguments of the kernel's solve call for one right-hand side.
pub struct SolveCall<'a, I: KluIndex, N> {
    /// The numeric object to solve with.
    pub klu_numeric: &'a N,
    /// Whether the transposed system is to be solved.
    pub transpose: bool,
    /// The length of the right-hand side.
    pub rhs_dimension: I,
    /// The number of right-hand sides, which is one.
    pub number_rhs: I,
}

/// A sparse matrix in compressed-column form whose pattern is fixed: a
/// buffer of values laid out by a shared specification, and what the matrix
/// retains of its factorization.
///
/// `N` is the embedder's handle to the kernel's numeric object, released
/// when it is dropped. The fields stand in the order in which they are to
/// go: the numeric object before the buffer, and both before this matrix's
/// share of the specification.
pub struct FixedKluMatrix<I: KluIndex, D: KluData, S, N> {
    factorization: Factorization<N>,
    data: Vec<D>,
    matrix_spec: Rc<KluMatrixSpec<I, S>>,
}

impl<I: KluIndex, D: KluData, S, N> FixedKluMatrix<I, D, S, N> {
    /// The specification that the matrix was made for.
    pub closed spec fn spec_matrix_spec(&self) -> &Rc<KluMatrixSpec<I, S>> {
        &self.matrix_spec
    }

    /// The values, in the order of the pattern's entries.
    pub closed spec fn values(&self) -> Seq<D> {
        self.data@
    }

    /// What the matrix retains of its factorization.
    pub closed spec fn factorization(&self) -> Factorization<N> {
        self.factorization
    }

    /// What holds of every matrix: it has one value for each entry of its
    /// pattern, and at least one; and a singular matrix retains no numeric
    /// object.
    pub open spec fn wf(&self) -> bool {
        &&& self.matrix_spec().wf()
        &&& self.values().len() == self.matrix_spec().pattern().rows().len()
        &&& self.values().len() > 0
        &&& self.factorization().wf()
    }

    /// Whether the matrix is as it is made for the given specification: with
    /// a zero for each entry of the pattern, and without a factorization.
    pub open spec fn fresh_for(&self, matrix_spec: Rc<KluMatrixSpec<I, S>>) -> bool {
        &&& self.wf()
        &&& *self.matrix_spec() == matrix_spec
        &&& self.values() == Seq::new(
            matrix_spec.pattern().rows().len(),
            |k: int| D::zero_value(),
        )
        &&& self.factorization() == (Factorization::<N> { numeric: None, singular: false })
    }

    /// A matrix of zeros for the given specification, with `alloc` as the
    /// storage of its values, whatever `alloc` held. `None` if the pattern
    /// has no entry.
    pub fn new_with_alloc(matrix_spec: Rc<KluMatrixSpec<I, S>>, alloc: Vec<D>) -> (made: Option<
        Self,
    >)
        requires
            matrix_spec.wf(),
        ensures
            made is None <==> matrix_spec.pattern().rows().len() == 0,
            made matches Some(matrix) ==> matrix.fresh_for(matrix_spec),
    {
        let len: usize = matrix_spec.entry_cnt();
        if len == 0 {
            return None;
        }
        let mut data = alloc;
        data.clear();
        while data.len() < len
            invariant
                data.len() <= len,
                forall|k: int| 0 <= k < data.len() ==> data@[k] == D::zero_value(),
            decreases len - data.len(),
        {
            data.push(D::zero());
        }
        assert(data@ =~= Seq::new(len as nat, |k: int| D::zero_value()));
        Some(
            FixedKluMatrix {
                factorization: Factorization { numeric: None, singular: false },
                data,
                matrix_spec,
            },
        )
    }

    /// A matrix of zeros for the given specification. `None` if the pattern
    /// has no entry.
    pub fn new(matrix_spec: Rc<KluMatrixSpec<I, S>>) -> (made: Option<Self>)
        requires
            matrix_spec.wf(),
        ensures
            made is None <==> matrix_spec.pattern().rows().len() == 0,
            made matches Some(matrix) ==> matrix.fresh_for(matrix_spec),
    {
        Self::new_with_alloc(matrix_spec, Vec::new())
    }

    /// Gives up the matrix for the storage of its values. The numeric
    /// object, if one is retained, is released.
    pub fn into_alloc(self) -> (alloc: Vec<D>)
        ensures
            alloc@ == self.values(),
    {
        let FixedKluMatrix { factorization, data, matrix_spec } = self;
        {
            let released = factorization;
        }
        data
    }

    /// The specification that the matrix was made for.
    #[verifier::when_used_as_spec(spec_matrix_spec)]
    pub fn matrix_spec(&self) -> (matrix_spec: &Rc<KluMatrixSpec<I, S>>)
        ensures
            matrix_spec == self.matrix_spec(),
    {
        &self.matrix_spec
    }

    /// The values, in the order of the pattern's entries.
    pub fn data(&self) -> (data: &[D])
        ensures
            data@ == self.values(),
    {
        self.data.as_slice()
    }

    /// The numeric object that the matrix retains, if it does.
    pub fn numeric(&self) -> (klu_numeric: Option<&N>)
        ensures
            klu_numeric is Some <==> self.factorization().numeric is Some,
            klu_numeric matches Some(handle) ==> *handle == self.factorization().numeric->0,
    {
        self.factorization.numeric.as_ref()
    }

    /// The state that the matrix is in.
    pub fn state(&self) -> (state: FactorState)
        ensures
            state == self.factorization().state(),
    {
        if self.factorization.numeric.is_some() {
            FactorState::Factored
        } else if self.factorization.singular {
            FactorState::Singular
        } else {
            FactorState::Unfactored
        }
    }

    /// Writes `val` to every entry.
    pub fn write_all(&mut self, val: D)
        requires
            old(self).wf(),
        ensures
            final(self).wf(),
            final(self).values() == Seq::new(old(self).values().len(), |k: int| val),
            final(self).factorization() == old(self).factorization().written(),
            final(self).matrix_spec() == old(self).matrix_spec(),
    {
        let len: usize = self.data.len();
        let mut k: usize = 0;
        while k < len
            invariant
                k <= len,
                self.data.len() == len,
                self.factorization == old(self).factorization,
                self.matrix_spec == old(self).matrix_spec,
                forall|j: int| 0 <= j < k ==> self.data@[j] == val,
            decreases len - k,
        {
            self.data[k] = val;
            k += 1;
        }
        self.factorization.singular = false;
        assert(self.data@ =~= Seq::new(len as nat, |k: int| val));
    }

    /// Writes zero to every entry.
    pub fn write_zero(&mut self)
        requires
            old(self).wf(),
        ensures
            final(self).wf(),
            final(self).values() == Seq::new(old(self).values().len(), |k: int| D::zero_value()),
            final(self).factorization() == old(self).factorization().written(),
            final(self).matrix_spec() == old(self).matrix_spec(),
    {
        self.write_all(D::zero());
    }

    /// The value of the entry at (`column`, `row`), or `None` if the pattern
    /// has no such entry.
    pub fn get(&self, column: I, row: I) -> (value: Option<D>)
        requires
            self.wf(),
        ensures
            value == match self.matrix_spec().pattern().offset_of(column.as_int(), row.as_int()) {
                Some(k) => Some(self.values()[k]),
                None => None,
            },
    {
        match self.matrix_spec.offset(column, row) {
            Some(k) => {
                proof {
                    self.matrix_spec().pattern().lemma_offset_of(column.as_int(), row.as_int());
                }
                Some(self.data[k])
            },
            None => None,
        }
    }

    /// Writes `val` to the entry at (`column`, `row`) and returns true, or
    /// returns false and changes nothing if the pattern has no such entry.
    pub fn write(&mut self, column: I, row: I, val: D) -> (written: bool)
        requires
            old(self).wf(),
        ensures
            final(self).wf(),
            final(self).matrix_spec() == old(self).matrix_spec(),
            match old(self).matrix_spec().pattern().offset_of(column.as_int(), row.as_int()) {
                Some(k) => {
                    &&& written
                    &&& final(self).values() == old(self).values().update(k, val)
                    &&& final(self).factorization() == old(self).factorization().written()
                },
                None => !written && *final(self) == *old(self),
            },
    {
        match self.matrix_spec.offset(column, row) {
            Some(k) => {
                proof {
                    self.matrix_spec().pattern().lemma_offset_of(column.as_int(), row.as_int());
                }
                self.data[k] = val;
                self.factorization.singular = false;
                true
            },
            None => false,
        }
    }

    /// Writes `val` to the entry at position `offset` of the buffer and
    /// returns true, or returns false and changes nothing if the buffer has
    /// no such position.
    pub fn write_at(&mut self, offset: usize, val: D) -> (written: bool)
        requires
            old(self).wf(),
        ensures
            final(self).wf(),
            final(self).matrix_spec() == old(self).matrix_spec(),
            written == (offset < old(self).values().len()),
            written ==> final(self).values() == old(self).values().update(offset as int, val)
                && final(self).factorization() == old(self).factorization().written(),
            !written ==> *final(self) == *old(self),
    {
        if offset < self.data.len() {
            self.data[offset] = val;
            self.factorization.singular = false;
            true
        } else {
            false
        }
    }

    /// Releases the numeric object, if one is retained.
    fn free_numeric(&mut self)
        ensures
            final(self).factorization == old(self).factorization.released(),
            final(self).data == old(self).data,
            final(self).matrix_spec == old(self).matrix_spec,
    {
        self.factorization.numeric = None;
    }

    /// Starts a factorization of the values as they stand.
    ///
    /// With a threshold, and a numeric object retained from an earlier
    /// factorization, the next step is to refactor. Else the numeric object,
    /// if any, is released, and the next step is to factor in full.
    pub fn lu_factorize(&mut self, refactor_threshold: Option<Real>) -> (step: FactorStep)
        requires
            old(self).wf(),
        ensures
            final(self).wf(),
            (final(self).factorization(), step) == old(self).factorization().start(
                refactor_threshold,
            ),
            final(self).values() == old(self).values(),
            final(self).matrix_spec() == old(self).matrix_spec(),
    {
        if self.factorization.numeric.is_some() && refactor_threshold.is_some() {
            FactorStep::Refactor
        } else {
            self.free_numeric();
            FactorStep::Factor
        }
    }

    /// Goes on after the kernel has refactored and estimated the condition.
    /// `ok` says whether both calls reported success, `klu_settings` holds
    /// what they left.
    ///
    /// The refactorization stands if the matrix was not found singular and
    /// the reciprocal condition estimate is at or below the threshold. Else
    /// the numeric object is released and the next step is to factor in full.
    pub fn refactor_done(
        &mut self,
        ok: bool,
        klu_settings: &KluSettings<I>,
        refactor_threshold: Real,
    ) -> (step: FactorStep)
        requires
            old(self).wf(),
        ensures
            final(self).wf(),
            (final(self).factorization(), step) == old(self).factorization().refactor_done(
                ok,
                klu_settings,
                refactor_threshold,
            ),
            final(self).values() == old(self).values(),
            final(self).matrix_spec() == old(self).matrix_spec(),
    {
        if let Err(error) = klu_settings.check_status() {
            return FactorStep::Abort { error };
        }
        if self.factorization.numeric.is_some() && !klu_settings.is_singular()
            && klu_settings.get_rcond().le(refactor_threshold) {
            if ok {
                FactorStep::Done { singular: false }
            } else {
                FactorStep::Abort { error: KluError::CallFailed }
            }
        } else {
            self.free_numeric();
            FactorStep::Factor
        }
    }

    /// Ends a factorization after the kernel has factored in full.
    /// `klu_numeric` is the numeric object that it handed back, if it did,
    /// and `klu_settings` holds what it left.
    ///
    /// A matrix found singular retains nothing. Else the matrix retains the
    /// new numeric object in place of what it held.
    pub fn factor_done(&mut self, klu_numeric: Option<N>, klu_settings: &KluSettings<I>) -> (step:
        FactorStep)
        requires
            old(self).wf(),
        ensures
            final(self).wf(),
            (final(self).factorization(), step) == old(self).factorization().factor_done(
                klu_numeric,
                klu_settings,
            ),
            final(self).values() == old(self).values(),
            final(self).matrix_spec() == old(self).matrix_spec(),
    {
        if let Err(error) = klu_settings.check_status() {
            return FactorStep::Abort { error };
        }
        if klu_settings.is_singular() {
            self.factorization = Factorization { numeric: None, singular: true };
            FactorStep::Done { singular: true }
        } else if klu_numeric.is_some() {
            self.factorization = Factorization { numeric: klu_numeric, singular: false };
            FactorStep::Done { singular: false }
        } else {
            FactorStep::Abort { error: KluError::MissingHandle }
        }
    }

    /// The kernel call that solves `A x = b` for a right-hand side of
    /// `rhs_len` values, which the kernel overwrites with the solution.
    pub fn solve_linear_system(&self, rhs_len: usize) -> (call: SolveCall<'_, I, N>)
        requires
            self.wf(),
            self.factorization().state() == FactorState::Factored,
            rhs_len <= I::max_int(),
        ensures
            *call.klu_numeric == self.factorization().numeric->0,
            !call.transpose,
            call.rhs_dimension.as_int() == rhs_len,
            call.number_rhs.as_int() == 1,
    {
        self.solve_call(rhs_len, false)
    }

    /// The kernel call that solves the transposed system `A^T x = b` for a
    /// right-hand side of `rhs_len` values, which the kernel overwrites with
    /// the solution.
    pub fn solve_linear_tranose_system(&self, rhs_len: usize) -> (call: SolveCall<'_, I, N>)
        requires
            self.wf(),
            self.factorization().state() == FactorState::Factored,
            rhs_len <= I::max_int(),
        ensures
            *call.klu_numeric == self.factorization().numeric->0,
            call.transpose,
            call.rhs_dimension.as_int() == rhs_len,
            call.number_rhs.as_int() == 1,
    {
        self.solve_call(rhs_len, true)
    }

    /// The kernel call that solves for one right-hand side of `rhs_len`
    /// values with the retained numeric object.
    fn solve_call(&self, rhs_len: usize, transpose: bool) -> (call: SolveCall<'_, I, N>)
        requires
            self.factorization.numeric is Some,
            rhs_len <= I::max_int(),
        ensures
            *call.klu_numeric == self.factorization.numeric->0,
            call.transpose == transpose,
            call.rhs_dimension.as_int() == rhs_len,
            call.number_rhs.as_int() == 1,
    {
        proof {
            I::lemma_max_int();
        }
        let klu_numeric: &N = match &self.factorization.numeric {
            Some(klu_numeric) => klu_numeric,
            None => vstd::pervasive::unreached(),
        };
        SolveCall {
            klu_numeric,
            transpose,
            rhs_dimension: I::from_usize(rhs_len),
            number_rhs: I::from_usize(1),
        }
    }
}

} // verus!

use klu::{
    Complex, FactorState, FactorStep, FixedKluMatrix, KluError, KluMatrixSpec, KluPattern,
    KluSettings, Real,
};
use std::cell::RefCell;
use std::rc::Rc;

fn to_real(x: f64) -> Real {
    Real::from_bits(x.to_bits())
}

fn values(matrix: &FixedKluMatrix<i32, Real, Handle, Handle>) -> Vec<f64> {
    matrix.data().iter().map(|x| f64::from_bits(x.to_bits())).collect()
}

// A handle that writes down when it is released.
struct Handle {
    name: &'static str,
    log: Rc<RefCell<Vec<&'static str>>>,
}

impl Drop for Handle {
    fn drop(&mut self) {
        self.log.borrow_mut().push(self.name);
    }
}

struct Bench {
    log: Rc<RefCell<Vec<&'static str>>>,
}

impl Bench {
    fn new() -> Bench {
        Bench { log: Rc::new(RefCell::new(Vec::new())) }
    }

    fn handle(&self, name: &'static str) -> Handle {
        Handle { name, log: self.log.clone() }
    }

    fn released(&self) -> Vec<&'static str> {
        self.log.borrow().clone()
    }

    fn spec(&self) -> Rc<KluMatrixSpec<i32, Handle>> {
        let pattern =
            KluPattern::new(&[vec![0, 2], vec![1], vec![0, 2]]).expect("five entries fit");
        KluMatrixSpec::new(pattern, &report(0, 0.0), Some(self.handle("symbolic")))
            .expect("the analysis succeeded")
    }

    fn matrix(&self) -> FixedKluMatrix<i32, Real, Handle, Handle> {
        self.spec().create_matrix().expect("five entries make a matrix")
    }

    fn factored(&self) -> FixedKluMatrix<i32, Real, Handle, Handle> {
        let mut matrix = self.matrix();
        assert_eq!(matrix.lu_factorize(None), FactorStep::Factor);
        assert_eq!(
            matrix.factor_done(Some(self.handle("first")), &report(0, 0.0)),
            FactorStep::Done { singular: false }
        );
        matrix
    }
}

fn report(status: i32, rcond: f64) -> KluSettings<i32> {
    KluSettings::new(status, to_real(rcond))
}

#[test]
fn a_new_matrix_holds_zeros() {
    let bench = Bench::new();
    let matrix = bench.matrix();
    assert_eq!(values(&matrix), vec![0.0; 5]);
    assert_eq!(matrix.state(), FactorState::Unfactored);
    assert!(matrix.numeric().is_none());
    assert_eq!(matrix.matrix_spec().entry_cnt(), 5);
}

#[test]
fn new_with_alloc_takes_the_storage_and_not_the_values() {
    let bench = Bench::new();
    let long = vec![to_real(9.0); 8];
    let matrix: FixedKluMatrix<i32, Real, Handle, Handle> =
        FixedKluMatrix::new_with_alloc(bench.spec(), long).expect("five entries make a matrix");
    assert_eq!(values(&matrix), vec![0.0; 5]);
    let short = vec![to_real(9.0); 2];
    let matrix: FixedKluMatrix<i32, Real, Handle, Handle> =
        FixedKluMatrix::new_with_alloc(bench.spec(), short).expect("five entries make a matrix");
    assert_eq!(values(&matrix), vec![0.0; 5]);
}

#[test]
fn a_complex_matrix_holds_complex_zeros() {
    let bench = Bench::new();
    let mut matrix: FixedKluMatrix<i32, Complex, Handle, Handle> =
        bench.spec().create_matrix().expect("five entries make a matrix");
    assert!(matrix.data().iter().all(|z| z.re().to_bits() == 0 && z.im().to_bits() == 0));
    assert!(matrix.write(2, 2, Complex::new(to_real(1.0), to_real(-1.0))));
    let written = matrix.get(2, 2).expect("the entry is there");
    assert_eq!(written.re().to_bits(), 1.0f64.to_bits());
    assert_eq!(written.im().to_bits(), (-1.0f64).to_bits());
}

#[test]
fn write_and_get_go_by_column_and_row() {
    let bench = Bench::new();
    let mut matrix = bench.matrix();
    assert!(matrix.write(0, 0, to_real(1.0)));
    assert!(matrix.write(0, 2, to_real(2.0)));
    assert!(matrix.write(1, 1, to_real(3.0)));
    assert!(matrix.write(2, 0, to_real(4.0)));
    assert!(matrix.write(2, 2, to_real(5.0)));
    assert_eq!(values(&matrix), vec![1.0, 2.0, 3.0, 4.0, 5.0]);
    assert_eq!(matrix.get(2, 0).map(|x| x.to_bits()), Some(4.0f64.to_bits()));
    assert_eq!(matrix.get(1, 1).map(|x| x.to_bits()), Some(3.0f64.to_bits()));
}

#[test]
fn write_and_get_report_what_the_pattern_lacks() {
    let bench = Bench::new();
    let mut matrix = bench.matrix();
    assert!(matrix.write_at(1, to_real(7.0)));
    assert!(!matrix.write(0, 1, to_real(1.0)));
    assert!(!matrix.write(1, 0, to_real(1.0)));
    assert!(!matrix.write(3, 0, to_real(1.0)));
    assert!(!matrix.write(-1, 0, to_real(1.0)));
    assert!(!matrix.write(0, -2, to_real(1.0)));
    assert_eq!(values(&matrix), vec![0.0, 7.0, 0.0, 0.0, 0.0]);
    assert!(matrix.get(0, 1).is_none());
    assert!(matrix.get(3, 3).is_none());
    assert!(matrix.get(-1, 0).is_none());
}

#[test]
fn write_at_goes_by_position() {
    let bench = Bench::new();
    let mut matrix = bench.matrix();
    assert!(matrix.write_at(0, to_real(1.5)));
    assert!(matrix.write_at(4, to_real(-2.5)));
    assert!(!matrix.write_at(5, to_real(3.5)));
    assert!(!matrix.write_at(usize::MAX, to_real(3.5)));
    assert_eq!(values(&matrix), vec![1.5, 0.0, 0.0, 0.0, -2.5]);
    assert_eq!(matrix.get(2, 2).map(|x| x.to_bits()), Some((-2.5f64).to_bits()));
}

#[test]
fn write_all_and_write_zero_fill_the_buffer() {
    let bench = Bench::new();
    let mut matrix = bench.matrix();
    matrix.write_all(to_real(2.5));
    assert_eq!(values(&matrix), vec![2.5; 5]);
    matrix.write_zero();
    assert_eq!(values(&matrix), vec![0.0; 5]);
    assert!(matrix.data().iter().all(|x| x.to_bits() == 0));
}

#[test]
fn into_alloc_hands_the_values_back() {
    let bench = Bench::new();
    let mut matrix = bench.factored();
    assert!(matrix.write(1, 1, to_real(3.0)));
    let alloc = matrix.into_alloc();
    assert_eq!(alloc.iter().map(|x| f64::from_bits(x.to_bits())).collect::<Vec<_>>(), vec![
        0.0, 0.0, 3.0, 0.0, 0.0
    ]);
    assert_eq!(bench.released(), vec!["first", "symbolic"]);
    let again: FixedKluMatrix<i32, Real, Handle, Handle> =
        FixedKluMatrix::new_with_alloc(bench.spec(), alloc).expect("five entries make a matrix");
    assert_eq!(values(&again), vec![0.0; 5]);
}

#[test]
fn matrices_share_a_specification_and_nothing_else() {
    let bench = Bench::new();
    let spec = bench.spec();
    let mut one: FixedKluMatrix<i32, Real, Handle, Handle> =
        spec.clone().create_matrix().expect("five entries make a matrix");
    let mut two: FixedKluMatrix<i32, Real, Handle, Handle> =
        spec.clone().create_matrix().expect("five entries make a matrix");
    assert!(Rc::ptr_eq(one.matrix_spec(), two.matrix_spec()));
    assert!(one.write(0, 0, to_real(1.0)));
    assert_eq!(values(&two), vec![0.0; 5]);
    one.lu_factorize(None);
    one.factor_done(Some(bench.handle("one")), &report(0, 0.0));
    assert_eq!(one.state(), FactorState::Factored);
    assert_eq!(two.state(), FactorState::Unfactored);
    two.lu_factorize(None);
    two.factor_done(Some(bench.handle("two")), &report(0, 0.0));
    drop(spec);
    drop(one);
    assert_eq!(bench.released(), vec!["one"]);
    drop(two);
    // The symbolic object goes last, with the last matrix.
    assert_eq!(bench.released(), vec!["one", "two", "symbolic"]);
}

#[test]
fn the_first_factorization_is_a_full_one() {
    let bench = Bench::new();
    let mut matrix = bench.matrix();
    assert_eq!(matrix.lu_factorize(Some(to_real(f64::INFINITY))), FactorStep::Factor);
    assert_eq!(matrix.state(), FactorState::Unfactored);
    assert_eq!(
        matrix.factor_done(Some(bench.handle("first")), &report(0, 0.5)),
        FactorStep::Done { singular: false }
    );
    assert_eq!(matrix.state(), FactorState::Factored);
    assert_eq!(matrix.numeric().map(|handle| handle.name), Some("first"));
    assert!(bench.released().is_empty());
}

#[test]
fn without_a_threshold_the_old_factorization_goes_first() {
    let bench = Bench::new();
    let mut matrix = bench.factored();
    assert_eq!(matrix.lu_factorize(None), FactorStep::Factor);
    // Released before the kernel is asked for the new one.
    assert_eq!(bench.released(), vec!["first"]);
    assert_eq!(matrix.state(), FactorState::Unfactored);
    assert_eq!(
        matrix.factor_done(Some(bench.handle("second")), &report(0, 0.5)),
        FactorStep::Done { singular: false }
    );
    assert_eq!(matrix.numeric().map(|handle| handle.name), Some("second"));
    drop(matrix);
    assert_eq!(bench.released(), vec!["first", "second", "symbolic"]);
}

#[test]
fn a_refactorization_at_or_below_the_threshold_stands() {
    let bench = Bench::new();
    let mut matrix = bench.factored();
    let threshold = to_real(1e-3);
    assert_eq!(matrix.lu_factorize(Some(threshold)), FactorStep::Refactor);
    assert_eq!(matrix.numeric().map(|handle| handle.name), Some("first"));
    assert_eq!(
        matrix.refactor_done(true, &report(0, 1e-4), threshold),
        FactorStep::Done { singular: false }
    );
    assert_eq!(matrix.lu_factorize(Some(threshold)), FactorStep::Refactor);
    assert_eq!(
        matrix.refactor_done(true, &report(0, 1e-3), threshold),
        FactorStep::Done { singular: false }
    );
    assert_eq!(matrix.state(), FactorState::Factored);
    assert_eq!(matrix.numeric().map(|handle| handle.name), Some("first"));
    assert!(bench.released().is_empty());
}

#[test]
fn a_refactorization_above_the_threshold_falls_back() {
    let bench = Bench::new();
    let mut matrix = bench.factored();
    let threshold = to_real(1e-3);
    assert_eq!(matrix.lu_factorize(Some(threshold)), FactorStep::Refactor);
    assert_eq!(matrix.refactor_done(true, &report(0, 2e-3), threshold), FactorStep::Factor);
    assert_eq!(bench.released(), vec!["first"]);
    assert_eq!(matrix.state(), FactorState::Unfactored);
    assert_eq!(
        matrix.factor_done(Some(bench.handle("second")), &report(0, 2e-3)),
        FactorStep::Done { singular: false }
    );
    assert_eq!(matrix.state(), FactorState::Factored);
    assert_eq!(matrix.numeric().map(|handle| handle.name), Some("second"));
}

#[test]
fn the_threshold_zero_rejects_and_infinity_accepts() {
    let bench = Bench::new();
    let mut matrix = bench.factored();
    let zero = to_real(0.0);
    assert_eq!(matrix.lu_factorize(Some(zero)), FactorStep::Refactor);
    assert_eq!(matrix.refactor_done(true, &report(0, 5e-324), zero), FactorStep::Factor);
    assert_eq!(
        matrix.factor_done(Some(bench.handle("second")), &report(0, 1.0)),
        FactorStep::Done { singular: false }
    );
    let infinity = to_real(f64::INFINITY);
    assert_eq!(matrix.lu_factorize(Some(infinity)), FactorStep::Refactor);
    assert_eq!(
        matrix.refactor_done(true, &report(0, f64::MAX), infinity),
        FactorStep::Done { singular: false }
    );
    assert_eq!(matrix.lu_factorize(Some(infinity)), FactorStep::Refactor);
    assert_eq!(matrix.refactor_done(true, &report(0, f64::NAN), infinity), FactorStep::Factor);
    assert_eq!(bench.released(), vec!["first", "second"]);
}

#[test]
fn a_singular_refactorization_falls_back() {
    let bench = Bench::new();
    let mut matrix = bench.factored();
    let threshold = to_real(f64::INFINITY);
    assert_eq!(matrix.lu_factorize(Some(threshold)), FactorStep::Refactor);
    assert_eq!(matrix.refactor_done(false, &report(1, 0.0), threshold), FactorStep::Factor);
    assert_eq!(bench.released(), vec!["first"]);
    assert_eq!(
        matrix.factor_done(None, &report(1, 0.0)),
        FactorStep::Done { singular: true }
    );
    assert_eq!(matrix.state(), FactorState::Singular);
    assert!(matrix.numeric().is_none());
}

#[test]
fn a_singular_matrix_retains_nothing() {
    let bench = Bench::new();
    let mut matrix = bench.factored();
    assert_eq!(matrix.lu_factorize(None), FactorStep::Factor);
    // Even a numeric object that came with the verdict is let go.
    assert_eq!(
        matrix.factor_done(Some(bench.handle("second")), &report(1, 0.0)),
        FactorStep::Done { singular: true }
    );
    assert_eq!(bench.released(), vec!["first", "second"]);
    assert_eq!(matrix.state(), FactorState::Singular);
    assert!(matrix.numeric().is_none());
    // Singular until a value is written.
    assert_eq!(matrix.lu_factorize(Some(to_real(1.0))), FactorStep::Factor);
    assert_eq!(matrix.state(), FactorState::Singular);
    assert!(!matrix.write(1, 0, to_real(1.0)));
    assert_eq!(matrix.state(), FactorState::Singular);
    assert!(matrix.write(1, 1, to_real(1.0)));
    assert_eq!(matrix.state(), FactorState::Unfactored);
}

#[test]
fn writing_keeps_a_factorization() {
    let bench = Bench::new();
    let mut matrix = bench.factored();
    assert!(matrix.write(0, 0, to_real(1.0)));
    matrix.write_all(to_real(2.0));
    matrix.write_zero();
    assert!(matrix.write_at(3, to_real(2.0)));
    assert_eq!(matrix.state(), FactorState::Factored);
    assert_eq!(matrix.numeric().map(|handle| handle.name), Some("first"));
    assert!(bench.released().is_empty());
}

#[test]
fn an_error_status_gives_the_factorization_up() {
    let bench = Bench::new();
    let mut matrix = bench.factored();
    let threshold = to_real(1.0);
    let abort = |error| FactorStep::Abort { error };
    let mut refactored =
        |ok, status, rcond| matrix.refactor_done(ok, &report(status, rcond), threshold);
    assert_eq!(refactored(true, -2, 0.0), abort(KluError::OutOfMemory));
    assert_eq!(refactored(true, -3, 0.0), abort(KluError::Invalid));
    assert_eq!(refactored(false, -4, 0.0), abort(KluError::TooLarge));
    assert_eq!(refactored(true, -7, 0.0), abort(KluError::Unknown { code: -7 }));
    assert_eq!(refactored(false, 0, 0.5), abort(KluError::CallFailed));
    // The matrix is as it was.
    assert_eq!(matrix.state(), FactorState::Factored);
    assert_eq!(matrix.numeric().map(|handle| handle.name), Some("first"));
    assert!(bench.released().is_empty());

    assert_eq!(matrix.lu_factorize(None), FactorStep::Factor);
    assert_eq!(matrix.factor_done(None, &report(-2, 0.0)), abort(KluError::OutOfMemory));
    assert_eq!(matrix.factor_done(None, &report(-3, 0.0)), abort(KluError::Invalid));
    assert_eq!(matrix.factor_done(None, &report(-4, 0.0)), abort(KluError::TooLarge));
    assert_eq!(matrix.factor_done(None, &report(3, 0.0)), abort(KluError::Unknown { code: 3 }));
    assert_eq!(matrix.factor_done(None, &report(0, 0.0)), abort(KluError::MissingHandle));
    assert_eq!(matrix.state(), FactorState::Unfactored);
}

#[test]
fn a_report_of_a_refactorization_without_a_numeric_object_asks_for_a_full_one() {
    let bench = Bench::new();
    let mut matrix = bench.matrix();
    assert_eq!(
        matrix.refactor_done(true, &report(0, 0.0), to_real(f64::INFINITY)),
        FactorStep::Factor
    );
    assert_eq!(matrix.state(), FactorState::Unfactored);
}

#[test]
fn the_solve_calls_name_the_numeric_object_and_one_right_hand_side() {
    let bench = Bench::new();
    let matrix = bench.factored();
    let call = matrix.solve_linear_system(3);
    assert_eq!(call.klu_numeric.name, "first");
    assert!(!call.transpose);
    assert_eq!(call.rhs_dimension, 3);
    assert_eq!(call.number_rhs, 1);
    let call = matrix.solve_linear_tranose_system(7);
    assert_eq!(call.klu_numeric.name, "first");
    assert!(call.transpose);
    assert_eq!(call.rhs_dimension, 7);
    assert_eq!(call.number_rhs, 1);
}

#[test]
fn the_numeric_object_goes_before_the_symbolic_one() {
    let bench = Bench::new();
    let matrix = bench.factored();
    drop(matrix);
    assert_eq!(bench.released(), vec!["first", "symbolic"]);
}

#[test]
fn a_matrix_with_long_indices() {
    let pattern = KluPattern::<i64>::new(&[vec![0], vec![0, 1]]).expect("three entries fit");
    let spec: Rc<KluMatrixSpec<i64, ()>> =
        KluMatrixSpec::new(pattern, &KluSettings::new(0, to_real(0.0)), Some(()))
            .expect("the analysis succeeded");
    let mut matrix: FixedKluMatrix<i64, Real, (), u8> =
        spec.create_matrix().expect("three entries make a matrix");
    assert!(matrix.write(1, 1, to_real(4.0)));
    assert!(!matrix.write(1, 2, to_real(4.0)));
    assert!(!matrix.write(i64::MAX, 0, to_real(4.0)));
    assert_eq!(matrix.get(1, 1).map(|x| x.to_bits()), Some(4.0f64.to_bits()));
    assert_eq!(matrix.lu_factorize(Some(to_real(1.0))), FactorStep::Factor);
    assert_eq!(
        matrix.factor_done(Some(3), &KluSettings::new(0, to_real(0.5))),
        FactorStep::Done { singular: false }
    );
    assert_eq!(matrix.lu_factorize(Some(to_real(1.0))), FactorStep::Refactor);
    assert_eq!(
        matrix.refactor_done(true, &KluSettings::new(0, to_real(0.5)), to_real(1.0)),
        FactorStep::Done { singular: false }
    );
    let call = matrix.solve_linear_system(2);
    assert_eq!(*call.klu_numeric, 3);
    assert_eq!(call.rhs_dimension, 2i64);
    assert_eq!(call.number_rhs, 1i64);
    assert_eq!(
        matrix.refactor_done(true, &KluSettings::new(-4, to_real(0.5)), to_real(1.0)),
        FactorStep::Abort { error: KluError::TooLarge }
    );
}

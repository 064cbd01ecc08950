//! Verified core of a binding to the KLU sparse LU kernel.
//!
//! The library assembles sparsity patterns, lays them out in compressed
//! columns, keeps the values of a matrix by that layout, and decides how a
//! matrix is factorized: by the cheap refactorization where one is at hand
//! and good enough, in full otherwise. The kernel itself is called by the
//! embedder, step by step as the library asks, and each step is judged here
//! by what the kernel left.

mod builder;
pub mod column;
mod index;
mod matrix;
mod matrix_spec;
mod pattern;
mod scalar;
mod sealed;
mod settings;

pub use builder::{KluMatrixBuilder, COLUMN_CAPACITY};
pub use index::KluIndex;
pub use matrix::{FactorState, FactorStep, Factorization, FixedKluMatrix, SolveCall};
pub use matrix_spec::KluMatrixSpec;
pub use pattern::{fits_index, KluPattern};
pub use scalar::{Complex, KluData, Real, INFINITY_BITS, SIGN_BIT};
pub use settings::{
    status_verdict, KluError, KluSettings, KLU_INVALID, KLU_OK, KLU_OUT_OF_MEMORY, KLU_SINGULAR,
    KLU_TOO_LARGE,
};

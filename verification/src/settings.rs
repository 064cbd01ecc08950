use crate::index::KluIndex;
use crate::scalar::Real;
use vstd::prelude::*;

verus! {

/// Status code of a kernel call that did what was asked.
pub const KLU_OK: i64 = 0;

/// Status code of a kernel call that found the matrix singular.
pub const KLU_SINGULAR: i64 = 1;

/// Status code of a kernel call that ran out of memory.
pub const KLU_OUT_OF_MEMORY: i64 = -2;

/// Status code of a kernel call that was handed an invalid pattern.
pub const KLU_INVALID: i64 = -3;

/// Status code of a kernel call on a problem too large for the index type.
pub const KLU_TOO_LARGE: i64 = -4;

/// Why an operation was given up. None of these is expected under correct
/// use: the embedder treats each as fatal.
#[derive(Clone, Copy, Debug, PartialEq, Eq, Structural)]
pub enum KluError {
    /// The kernel ran out of memory.
    OutOfMemory,
    /// The kernel found its input invalid.
    Invalid,
    /// The problem does not fit the index type.
    TooLarge,
    /// The kernel left a status code that is none of the known ones.
    Unknown { code: i64 },
    /// The kernel call reported failure though the status names no error.
    CallFailed,
    /// The kernel reported success and handed back no object.
    MissingHandle,
}

/// What a status code means for the operation that the kernel call belongs
/// to: it goes on after success and after a singular matrix, and is given up
/// with the matching error after every other code.
pub open spec fn status_verdict(code: int) -> Result<(), KluError> {
    if code == KLU_OK || code == KLU_SINGULAR {
        Ok(())
    } else if code == KLU_OUT_OF_MEMORY {
        Err(KluError::OutOfMemory)
    } else if code == KLU_INVALID {
        Err(KluError::Invalid)
    } else if code == KLU_TOO_LARGE {
        Err(KluError::TooLarge)
    } else {
        Err(KluError::Unknown { code: code as i64 })
    }
}

/// What the library reads of the kernel's common block after a kernel call:
/// the status code and the estimate of the reciprocal condition number.
///
/// The embedder owns the block itself and copies the two fields out of it
/// after each call.
pub struct KluSettings<I: KluIndex> {
    status: I,
    rcond: Real,
}

impl<I: KluIndex> KluSettings<I> {
    /// The status code that the kernel left.
    pub closed spec fn status(&self) -> int {
        self.status.as_int()
    }

    /// The reciprocal condition estimate that the kernel left.
    pub closed spec fn rcond(&self) -> Real {
        self.rcond
    }

    /// Whether the status reports a singular matrix.
    pub open spec fn singular(&self) -> bool {
        self.status() == KLU_SINGULAR
    }

    /// Whether the operation goes on after this status.
    pub open spec fn passes(&self) -> bool {
        status_verdict(self.status()) is Ok
    }

    /// Records the status code and the condition estimate of a kernel call.
    pub fn new(status: I, rcond: Real) -> (settings: Self)
        ensures
            settings.status() == status.as_int(),
            settings.rcond() == rcond,
    {
        KluSettings { status, rcond }
    }

    /// Judges the status that the kernel left: `Ok` after success and after
    /// a singular matrix, the matching error after anything else.
    pub fn check_status(&self) -> (verdict: Result<(), KluError>)
        ensures
            verdict == status_verdict(self.status()),
    {
        let code: i64 = self.status.as_i64();
        if code == KLU_OK || code == KLU_SINGULAR {
            Ok(())
        } else if code == KLU_OUT_OF_MEMORY {
            Err(KluError::OutOfMemory)
        } else if code == KLU_INVALID {
            Err(KluError::Invalid)
        } else if code == KLU_TOO_LARGE {
            Err(KluError::TooLarge)
        } else {
            Err(KluError::Unknown { code })
        }
    }

    /// What becomes of an operation whose last kernel call reported `ok`:
    /// the error that the status names, else `CallFailed` if the call
    /// reported failure without a status to show for it.
    pub open spec fn verdict(&self, ok: bool) -> Result<(), KluError> {
        match status_verdict(self.status()) {
            Err(error) => Err(error),
            Ok(()) => if ok {
                Ok(())
            } else {
                Err(KluError::CallFailed)
            },
        }
    }

    /// Judges a kernel call that has no other result than its success, as
    /// the two solve calls have: the status is checked, then what the call
    /// returned.
    pub fn call_verdict(&self, ok: bool) -> (verdict: Result<(), KluError>)
        ensures
            verdict == self.verdict(ok),
    {
        match self.check_status() {
            Err(error) => Err(error),
            Ok(()) => if ok {
                Ok(())
            } else {
                Err(KluError::CallFailed)
            },
        }
    }

    /// Whether the last kernel call found the matrix singular.
    pub fn is_singular(&self) -> (b: bool)
        ensures
            b == self.singular(),
    {
        self.status.as_i64() == KLU_SINGULAR
    }

    /// The reciprocal condition estimate of the last kernel call that
    /// computed one.
    pub fn get_rcond(&self) -> (rcond: Real)
        ensures
            rcond == self.rcond(),
    {
        self.rcond
    }
}

} // verus!

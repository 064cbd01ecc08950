use vstd::prelude::*;

verus! {

/// Closes the index and value traits of this crate against outside
/// implementations.
pub trait Sealed {
}

} // verus!

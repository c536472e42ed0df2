//! Keeps the set of writer modes closed.
use vstd::prelude::*;

verus! {

/// Implemented only by the writer modes of this crate.
pub trait Sealed {

}

} // verus!

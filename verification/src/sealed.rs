//! Keeps the set of element kinds and the set of lane counts closed: the
//! traits that stand for them ask for a trait that cannot be named, and so
//! cannot be implemented, outside this crate.
use vstd::prelude::*;

verus! {

/// Implemented for the element kinds and for the lane counts, here and
/// nowhere else.
pub trait Sealed {

}

} // verus!

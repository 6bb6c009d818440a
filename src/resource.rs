use vstd::prelude::*;

verus! {

/// What a resource must offer: cheap copies, since every reader gets one.
pub trait Resource: Clone {}

impl<T: Clone> Resource for T {}

} // verus!

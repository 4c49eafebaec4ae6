use vstd::prelude::*;

verus! {

/// The single failure kind of the pipeline: a destination could not accept
/// data. The exact cause is destination-specific (capacity, a closed
/// resource, a transient condition), so the error carries no payload.
#[derive(Clone, Copy, Debug, PartialEq, Eq, Structural)]
pub struct SinkError;

} // verus!

//! Messages and the replies they expect.
use vstd::prelude::*;

verus! {

/// A message that can be sent to an actor.
///
/// Each message type defines its expected reply type via `Result`.
pub trait Message: Send + 'static {
    type Result: Send + 'static;
}

} // verus!

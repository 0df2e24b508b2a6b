//! Identity of actor instances.
use vstd::prelude::*;
use crate::ids::IdCounter;
use crate::text::{decimal, wrap_number};

verus! {

/// Unique identity for an actor instance. Used by monitors and links to
/// identify actors without needing the concrete actor type.
#[derive(Debug, Clone, Copy, PartialEq, Eq, Hash, Structural)]
pub struct ActorId(pub u64);

impl ActorId {
    /// The next identity drawn from `counter`.
    pub fn next(counter: &mut IdCounter) -> (a: ActorId)
        ensures
            a.0 == old(counter).next,
            final(counter).next == (if old(counter).next == u64::MAX { 0 } else { (old(counter).next + 1) as u64 }),
    {
        ActorId(counter.fetch_next())
    }

    /// Display form `ActorId(N)`.
    pub fn to_string(&self) -> (s: String)
        ensures
            s@ == "ActorId("@ + decimal(self.0 as nat) + ")"@,
    {
        wrap_number("ActorId(", self.0, ")")
    }
}

} // verus!

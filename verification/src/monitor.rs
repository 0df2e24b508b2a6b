//! Monitor references and the notification a monitor delivers.
use vstd::prelude::*;
use crate::error::ExitReason;
use crate::ids::IdCounter;
use crate::message::Message;
use crate::text::{decimal, wrap_number};

verus! {

/// Opaque identifier for an active monitor relationship.
///
/// Multiple independent monitors are allowed on the same target — each call
/// to `monitor` returns a distinct `MonitorRef`.
#[derive(Debug, Clone, Copy, PartialEq, Eq, Hash, Structural)]
pub struct MonitorRef(pub u64);

impl MonitorRef {
    /// The next reference drawn from `counter`.
    pub fn next(counter: &mut IdCounter) -> (r: MonitorRef)
        ensures
            r.0 == old(counter).next,
            final(counter).next == (if old(counter).next == u64::MAX { 0 } else { (old(counter).next + 1) as u64 }),
    {
        MonitorRef(counter.fetch_next())
    }

    /// Display form `MonitorRef(N)`.
    pub fn to_string(&self) -> (s: String)
        ensures
            s@ == "MonitorRef("@ + decimal(self.0 as nat) + ")"@,
    {
        wrap_number("MonitorRef(", self.0, ")")
    }
}

/// Message delivered to a monitoring actor when its target stops.
#[derive(Debug, Clone, PartialEq)]
pub struct Down {
    /// The monitor that triggered this notification.
    pub monitor_ref: MonitorRef,
    /// Why the monitored actor stopped.
    pub reason: ExitReason,
}

impl Message for Down {
    type Result = ();
}

} // verus!

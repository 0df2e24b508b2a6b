//! Process identity: `Pid` and the reason a process exited.
use vstd::prelude::*;
use crate::ids::IdCounter;
use crate::text::{concat, decimal, wrap_number};

verus! {

/// A unique process identifier.
///
/// Each process has a `Pid` drawn from an [`IdCounter`]; pids are cheap to
/// copy and compare.
#[derive(Clone, Copy, PartialEq, Eq, Hash, Debug, Structural)]
pub struct Pid {
    /// Unique identifier on this node, monotonically increasing.
    pub id: u64,
}

impl Pid {
    /// Create a new Pid from the next value of `counter`.
    pub fn new(counter: &mut IdCounter) -> (p: Pid)
        ensures
            p.id == old(counter).next,
            final(counter).next == (if old(counter).next == u64::MAX { 0 } else { (old(counter).next + 1) as u64 }),
    {
        Pid { id: counter.fetch_next() }
    }

    /// Get the raw numeric ID.
    pub fn id(&self) -> (r: u64)
        ensures
            r == self.id,
    {
        self.id
    }

    /// The `Display` text of a pid: `<0.N>`.
    pub open spec fn spec_text(&self) -> Seq<char> {
        "<0."@ + decimal(self.id as nat) + ">"@
    }

    /// Display form `<0.N>`.
    pub fn to_string(&self) -> (s: String)
        ensures
            s@ == self.spec_text(),
    {
        wrap_number("<0.", self.id, ">")
    }

    /// Debug form `Pid(N)`.
    pub fn to_debug_string(&self) -> (s: String)
        ensures
            s@ == "Pid("@ + decimal(self.id as nat) + ")"@,
    {
        wrap_number("Pid(", self.id, ")")
    }
}

/// The reason why a process exited.
///
/// Used by supervision trees and process linking to understand how a process
/// terminated and whether it should be restarted.
#[derive(Debug, PartialEq, Eq)]
pub enum ExitReason {
    /// Normal termination - the process completed successfully.
    Normal,
    /// Graceful shutdown requested.
    Shutdown,
    /// The process was forcefully killed.
    Kill,
    /// The process crashed with an error.
    Error(String),
    /// The process exited because a linked process exited.
    Linked { pid: Pid, reason: Box<ExitReason> },
}

impl ExitReason {
    /// `Normal` or `Shutdown`.
    pub open spec fn spec_is_normal(&self) -> bool {
        self is Normal || self is Shutdown
    }

    /// Returns true if this is a "normal" exit (Normal or Shutdown).
    pub fn is_normal(&self) -> (r: bool)
        ensures
            r == self.spec_is_normal(),
    {
        match self {
            ExitReason::Normal | ExitReason::Shutdown => true,
            _ => false,
        }
    }

    /// Returns true if this exit reason indicates an error/crash.
    pub fn is_error(&self) -> (r: bool)
        ensures
            r == !self.spec_is_normal(),
    {
        !self.is_normal()
    }

    /// Create an error exit reason from an error's message.
    pub fn from_error(message: String) -> (r: ExitReason)
        ensures
            r == ExitReason::Error(message),
    {
        ExitReason::Error(message)
    }

    /// Create an error exit reason from a string.
    pub fn error(msg: String) -> (r: ExitReason)
        ensures
            r == ExitReason::Error(msg),
    {
        ExitReason::Error(msg)
    }

    /// A copy of this reason, equal to it.
    pub fn duplicate(&self) -> (r: ExitReason)
        ensures
            r == *self,
        decreases self,
    {
        match self {
            ExitReason::Normal => ExitReason::Normal,
            ExitReason::Shutdown => ExitReason::Shutdown,
            ExitReason::Kill => ExitReason::Kill,
            ExitReason::Error(msg) => ExitReason::Error(msg.clone()),
            ExitReason::Linked { pid, reason } => {
                let inner = reason.duplicate();
                ExitReason::Linked { pid: *pid, reason: Box::new(inner) }
            },
        }
    }

    /// The text that `Display` shows for this reason.
    pub open spec fn spec_text(&self) -> Seq<char>
        decreases self,
    {
        match self {
            ExitReason::Normal => "normal"@,
            ExitReason::Shutdown => "shutdown"@,
            ExitReason::Kill => "killed"@,
            ExitReason::Error(msg) => "error: "@ + msg@,
            ExitReason::Linked { pid, reason } => "linked process "@ + pid.spec_text() + " exited: "@
                + reason.spec_text(),
        }
    }

    /// Human readable form, e.g. `normal`, `killed`, `error: <msg>`.
    pub fn to_string(&self) -> (s: String)
        ensures
            s@ == self.spec_text(),
        decreases self,
    {
        match self {
            ExitReason::Normal => "normal".to_owned(),
            ExitReason::Shutdown => "shutdown".to_owned(),
            ExitReason::Kill => "killed".to_owned(),
            ExitReason::Error(msg) => concat("error: ", msg.as_str()),
            ExitReason::Linked { pid, reason } => {
                let p = pid.to_string();
                let r = reason.to_string();
                let head = concat("linked process ", p.as_str());
                let mid = concat(head.as_str(), " exited: ");
                concat(mid.as_str(), r.as_str())
            },
        }
    }
}

impl Clone for ExitReason {
    fn clone(&self) -> (r: Self)
        ensures
            r == *self,
    {
        self.duplicate()
    }
}

/// Trait for types that have an associated Pid.
pub trait HasPid {
    /// Get the Pid of the associated process.
    fn pid(&self) -> Pid;
}

} // verus!

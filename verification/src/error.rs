//! Exit reasons of actors and the errors of talking to them.
use vstd::prelude::*;
use crate::text::concat;

verus! {

/// Reason an actor stopped. Used by supervision to decide whether to restart.
#[derive(Debug, Clone, PartialEq)]
pub enum ExitReason {
    /// Clean stop via `ctx.stop()` or channel closure.
    Normal,
    /// Ordered shutdown from a supervisor or linked actor.
    Shutdown,
    /// Actor panicked in `started()`, a handler, or `stopped()`.
    Panic(String),
    /// Untrappable kill signal.
    Kill,
}

impl ExitReason {
    /// Whether the reason should trigger a restart of `Transient` or
    /// `Permanent` children: everything but `Normal` and `Shutdown`.
    pub open spec fn spec_is_abnormal(&self) -> bool {
        match self {
            ExitReason::Normal | ExitReason::Shutdown => false,
            ExitReason::Panic(_) | ExitReason::Kill => true,
        }
    }

    /// Returns `true` for exit reasons that should trigger a restart
    /// of `Transient` or `Permanent` children.
    /// `Shutdown` is considered normal (no restart) matching Erlang semantics.
    pub fn is_abnormal(&self) -> (r: bool)
        ensures
            r == self.spec_is_abnormal(),
    {
        match self {
            ExitReason::Normal | ExitReason::Shutdown => false,
            ExitReason::Panic(_) | ExitReason::Kill => true,
        }
    }

    /// A copy of this reason, equal to it.
    pub fn duplicate(&self) -> (r: ExitReason)
        ensures
            r == *self,
    {
        match self {
            ExitReason::Normal => ExitReason::Normal,
            ExitReason::Shutdown => ExitReason::Shutdown,
            ExitReason::Panic(msg) => ExitReason::Panic(msg.clone()),
            ExitReason::Kill => ExitReason::Kill,
        }
    }

    /// The text that `Display` shows for this reason.
    pub open spec fn spec_text(&self) -> Seq<char> {
        match self {
            ExitReason::Normal => "normal"@,
            ExitReason::Shutdown => "shutdown"@,
            ExitReason::Panic(msg) => "panic: "@ + msg@,
            ExitReason::Kill => "kill"@,
        }
    }

    /// Human readable form: `normal`, `shutdown`, `panic: <msg>`, `kill`.
    pub fn to_string(&self) -> (s: String)
        ensures
            s@ == self.spec_text(),
    {
        match self {
            ExitReason::Normal => "normal".to_owned(),
            ExitReason::Shutdown => "shutdown".to_owned(),
            ExitReason::Panic(msg) => concat("panic: ", msg.as_str()),
            ExitReason::Kill => "kill".to_owned(),
        }
    }
}

/// Errors that can occur when communicating with an actor.
#[derive(Debug, Clone, Copy, PartialEq, Eq)]
pub enum ActorError {
    /// The actor has stopped or its mailbox channel is closed.
    ActorStopped,
    /// A request exceeded the timeout duration (default: 5 seconds).
    RequestTimeout,
}

impl ActorError {
    pub open spec fn spec_text(&self) -> Seq<char> {
        match self {
            ActorError::ActorStopped => "Actor stopped"@,
            ActorError::RequestTimeout => "Request to Actor timed out"@,
        }
    }

    /// The error message.
    pub fn to_string(&self) -> (s: String)
        ensures
            s@ == self.spec_text(),
    {
        match self {
            ActorError::ActorStopped => "Actor stopped".to_owned(),
            ActorError::RequestTimeout => "Request to Actor timed out".to_owned(),
        }
    }
}

/// Errors of talking to a GenServer.
#[derive(Debug, Clone, Copy, PartialEq, Eq, Structural)]
pub enum GenServerError {
    /// A callback panicked while handling the request.
    Callback,
    /// The server's initialization failed.
    Initialization,
    /// The server is gone: its mailbox is closed or it dropped the reply.
    Server,
    /// No reply came within the call timeout.
    CallTimeout,
}

} // verus!

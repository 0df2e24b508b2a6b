//! The actor runtime's decisions: which backend runs an actor, how its
//! lifecycle proceeds from callback to callback and with which reason it
//! exits.
use vstd::prelude::*;
use crate::error::ExitReason;
use crate::text::concat;

verus! {

/// Runtime backend for the actor's message loop.
///
/// - `Async` — runs on the async runtime (default, lowest overhead)
/// - `Blocking` — runs on the runtime's blocking thread pool (for blocking I/O)
/// - `Thread` — runs on a dedicated OS thread (for CPU-bound work or isolation)
#[derive(Debug, Clone, Copy, PartialEq, Eq, Structural)]
pub enum Backend {
    Async,
    Blocking,
    Thread,
}

impl Default for Backend {
    /// The default backend is `Async`.
    fn default() -> (b: Backend)
        ensures
            b == Backend::Async,
    {
        Backend::Async
    }
}

/// Where an actor is in its life.
#[derive(Debug, Clone, PartialEq)]
pub enum Phase {
    /// `started()` is running.
    Starting,
    /// The actor takes messages from its mailbox.
    Running,
    /// `stopped()` is running; the actor will exit with `reason` unless
    /// `stopped()` panics.
    Stopping { reason: ExitReason },
    /// The actor has exited.
    Exited(ExitReason),
}

/// What the runtime saw since the last step.
#[derive(Debug, Clone, PartialEq)]
pub enum LifecycleEvent {
    /// `started()` returned; `cancelled` tells whether the actor has been
    /// asked to stop meanwhile.
    StartedReturned { cancelled: bool },
    /// `started()` panicked with this message.
    StartedPanicked(String),
    /// A handler returned; `cancelled` tells whether the actor has been
    /// asked to stop meanwhile.
    Handled { cancelled: bool },
    /// A handler panicked with this message.
    HandlerPanicked(String),
    /// No more messages: the mailbox closed or the actor was cancelled
    /// while it waited.
    MailboxEnded,
    /// `stopped()` returned.
    StoppedReturned,
    /// `stopped()` panicked with this message.
    StoppedPanicked(String),
}

/// What the runtime does next.
#[derive(Debug, Clone, PartialEq)]
pub enum LifecycleAction {
    /// Wait for the next message (or cancellation) and handle it.
    Receive,
    /// Cancel the actor and run `stopped()`.
    RunStopped,
    /// Cancel the actor: it exited with this reason.
    Finish(ExitReason),
}

/// Whether `event` can follow in `phase`.
pub open spec fn accepts(phase: Phase, event: LifecycleEvent) -> bool {
    match phase {
        Phase::Starting => event is StartedReturned || event is StartedPanicked,
        Phase::Running => event is Handled || event is HandlerPanicked || event is MailboxEnded,
        Phase::Stopping { .. } => event is StoppedReturned || event is StoppedPanicked,
        Phase::Exited(_) => false,
    }
}

/// `ExitReason::Panic` with the text `prefix` followed by `msg`.
pub open spec fn panic_with(prefix: Seq<char>, msg: String) -> spec_fn(ExitReason) -> bool {
    |r: ExitReason| r matches ExitReason::Panic(m) && m@ == prefix + msg@
}

/// The phase and action that follow `event` in `phase`, for the events
/// that make no new panic reason (see [`lifecycle_step`] for those).
pub open spec fn spec_lifecycle_step(phase: Phase, event: LifecycleEvent) -> (Phase, LifecycleAction) {
    match (phase, event) {
        (Phase::Starting, LifecycleEvent::StartedReturned { cancelled }) => if cancelled {
            (Phase::Stopping { reason: ExitReason::Normal }, LifecycleAction::RunStopped)
        } else {
            (Phase::Running, LifecycleAction::Receive)
        },
        (Phase::Running, LifecycleEvent::Handled { cancelled }) => if cancelled {
            (Phase::Stopping { reason: ExitReason::Normal }, LifecycleAction::RunStopped)
        } else {
            (Phase::Running, LifecycleAction::Receive)
        },
        (Phase::Running, LifecycleEvent::MailboxEnded) => (
            Phase::Stopping { reason: ExitReason::Normal },
            LifecycleAction::RunStopped,
        ),
        (Phase::Stopping { reason }, LifecycleEvent::StoppedReturned) => (
            Phase::Exited(reason),
            LifecycleAction::Finish(reason),
        ),
        (Phase::Stopping { reason }, LifecycleEvent::StoppedPanicked(_)) => (
            Phase::Exited(reason),
            LifecycleAction::Finish(reason),
        ),
        _ => (phase, LifecycleAction::Receive),
    }
}

/// One step of an actor's life.
///
/// A panic in `started()` ends the actor at once with
/// `Panic("panic in started(): <msg>")`, without `stopped()`. An actor
/// cancelled during `started()` goes straight to `stopped()`. Otherwise it
/// handles messages until it is cancelled, its mailbox ends, or a handler
/// panics (reason `Panic("panic in handler: <msg>")`); then `stopped()`
/// runs. A panic in `stopped()` turns a reason that is not yet abnormal
/// into `Panic("panic in stopped(): <msg>")`.
pub fn lifecycle_step(phase: &Phase, event: LifecycleEvent) -> (r: (Phase, LifecycleAction))
    requires
        accepts(*phase, event),
    ensures
        match (*phase, event) {
            (Phase::Starting, LifecycleEvent::StartedPanicked(m)) => {
                &&& r.0 matches Phase::Exited(x) && panic_with("panic in started(): "@, m)(x)
                &&& r.1 == LifecycleAction::Finish(r.0->Exited_0)
            },
            (Phase::Running, LifecycleEvent::HandlerPanicked(m)) => {
                &&& r.0 matches Phase::Stopping { reason } && panic_with("panic in handler: "@, m)(reason)
                &&& r.1 == LifecycleAction::RunStopped
            },
            (Phase::Stopping { reason }, LifecycleEvent::StoppedPanicked(m)) => if !reason.spec_is_abnormal() {
                &&& r.0 matches Phase::Exited(x) && panic_with("panic in stopped(): "@, m)(x)
                &&& r.1 == LifecycleAction::Finish(r.0->Exited_0)
            } else {
                r == spec_lifecycle_step(*phase, event)
            },
            _ => r == spec_lifecycle_step(*phase, event),
        },
        *phase is Running && event is MailboxEnded ==> r == (
            Phase::Stopping { reason: ExitReason::Normal },
            LifecycleAction::RunStopped,
        ),
        *phase is Running && event == (LifecycleEvent::Handled { cancelled: true }) ==> r == (
            Phase::Stopping { reason: ExitReason::Normal },
            LifecycleAction::RunStopped,
        ),
        *phase is Starting && event == (LifecycleEvent::StartedReturned { cancelled: true }) ==> r == (
            Phase::Stopping { reason: ExitReason::Normal },
            LifecycleAction::RunStopped,
        ),
        (*phase matches Phase::Stopping { reason } && event is StoppedReturned) ==> r == (
            Phase::Exited(phase->reason),
            LifecycleAction::Finish(phase->reason),
        ),
{
    match event {
        LifecycleEvent::StartedReturned { cancelled } => {
            if cancelled {
                (Phase::Stopping { reason: ExitReason::Normal }, LifecycleAction::RunStopped)
            } else {
                (Phase::Running, LifecycleAction::Receive)
            }
        },
        LifecycleEvent::StartedPanicked(msg) => {
            let reason = ExitReason::Panic(concat("panic in started(): ", msg.as_str()));
            (Phase::Exited(reason.duplicate()), LifecycleAction::Finish(reason))
        },
        LifecycleEvent::Handled { cancelled } => {
            if cancelled {
                (Phase::Stopping { reason: ExitReason::Normal }, LifecycleAction::RunStopped)
            } else {
                (Phase::Running, LifecycleAction::Receive)
            }
        },
        LifecycleEvent::HandlerPanicked(msg) => {
            let reason = ExitReason::Panic(concat("panic in handler: ", msg.as_str()));
            (Phase::Stopping { reason }, LifecycleAction::RunStopped)
        },
        LifecycleEvent::MailboxEnded => (
            Phase::Stopping { reason: ExitReason::Normal },
            LifecycleAction::RunStopped,
        ),
        LifecycleEvent::StoppedReturned => {
            let reason = match phase {
                Phase::Stopping { reason, .. } => reason.duplicate(),
                _ => ExitReason::Normal,
            };
            (Phase::Exited(reason.duplicate()), LifecycleAction::Finish(reason))
        },
        LifecycleEvent::StoppedPanicked(msg) => {
            let reason = match phase {
                Phase::Stopping { reason } => reason.duplicate(),
                _ => ExitReason::Normal,
            };
            let reason = if !reason.is_abnormal() {
                ExitReason::Panic(concat("panic in stopped(): ", msg.as_str()))
            } else {
                reason
            };
            (Phase::Exited(reason.duplicate()), LifecycleAction::Finish(reason))
        },
    }
}

/// A panic in `stopped()` never hides an abnormal reason already found.
pub proof fn law_stopped_panic_keeps_abnormal_reason(reason: ExitReason, msg: String)
    requires
        reason.spec_is_abnormal(),
    ensures
        spec_lifecycle_step(Phase::Stopping { reason }, LifecycleEvent::StoppedPanicked(msg)) == (
            Phase::Exited(reason),
            LifecycleAction::Finish(reason),
        ),
{
}

/// A running actor keeps taking messages until it is cancelled, its
/// mailbox ends, or a handler panics; then `stopped()` runs.
pub proof fn law_running_actor_stops_only_when_told(cancelled: bool)
    ensures
        spec_lifecycle_step(Phase::Running, LifecycleEvent::Handled { cancelled }).1 == (if cancelled {
            LifecycleAction::RunStopped
        } else {
            LifecycleAction::Receive
        }),
        spec_lifecycle_step(Phase::Running, LifecycleEvent::MailboxEnded).1 == LifecycleAction::RunStopped,
{
}

/// A clean stop is a normal exit: an actor whose mailbox ends, or that is
/// cancelled between messages or during `started()`, runs `stopped()` and,
/// when `stopped()` returns, exits with exactly `ExitReason::Normal`.
pub proof fn law_clean_stop_exits_normal(cancelled_in_start: bool)
    ensures
        spec_lifecycle_step(Phase::Running, LifecycleEvent::MailboxEnded) == (
            Phase::Stopping { reason: ExitReason::Normal },
            LifecycleAction::RunStopped,
        ),
        spec_lifecycle_step(Phase::Running, LifecycleEvent::Handled { cancelled: true }) == (
            Phase::Stopping { reason: ExitReason::Normal },
            LifecycleAction::RunStopped,
        ),
        spec_lifecycle_step(Phase::Starting, LifecycleEvent::StartedReturned { cancelled: true }) == (
            Phase::Stopping { reason: ExitReason::Normal },
            LifecycleAction::RunStopped,
        ),
        spec_lifecycle_step(Phase::Stopping { reason: ExitReason::Normal }, LifecycleEvent::StoppedReturned) == (
            Phase::Exited(ExitReason::Normal),
            LifecycleAction::Finish(ExitReason::Normal),
        ),
{
}

} // verus!

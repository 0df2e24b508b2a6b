//! The decisions of a state machine process (gen_statem): what the result
//! of an event handler makes it do, with which reason it stops, and what
//! its callers are answered.
use vstd::prelude::*;
use crate::pid::ExitReason;
pub use crate::actor::Backend;

verus! {

/// Trait for state names in the state machine.
///
/// States must be Clone, Debug, Send, and Sync.
pub trait StateName: Clone + core::fmt::Debug + Send + Sync + 'static {}

impl<T: Clone + core::fmt::Debug + Send + Sync + 'static> StateName for T {}

/// Result of handling an event.
pub struct StateResult<S, R> {
    /// The next state (None means keep current state)
    pub next_state: Option<S>,
    /// Reply to send back (if this was a call)
    pub reply: Option<R>,
    /// Whether to stop the state machine
    pub stop: bool,
    /// Stop reason (if stopping)
    pub stop_reason: Option<ExitReason>,
}

impl<S, R> StateResult<S, R> {
    /// Create a result that keeps the current state.
    pub fn keep_state() -> (r: StateResult<S, R>)
        ensures
            r.next_state is None,
            r.reply is None,
            !r.stop,
            r.stop_reason is None,
    {
        StateResult { next_state: None, reply: None, stop: false, stop_reason: None }
    }

    /// Create a result that transitions to a new state.
    pub fn transition(new_state: S) -> (r: StateResult<S, R>)
        ensures
            r.next_state == Some(new_state),
            r.reply is None,
            !r.stop,
            r.stop_reason is None,
    {
        StateResult { next_state: Some(new_state), reply: None, stop: false, stop_reason: None }
    }

    /// Create a result that stops the state machine.
    pub fn stop() -> (r: StateResult<S, R>)
        ensures
            r.next_state is None,
            r.reply is None,
            r.stop,
            r.stop_reason == Some(ExitReason::Normal),
    {
        StateResult { next_state: None, reply: None, stop: true, stop_reason: Some(ExitReason::Normal) }
    }

    /// Create a result that stops with a specific reason.
    pub fn stop_with_reason(reason: ExitReason) -> (r: StateResult<S, R>)
        ensures
            r.next_state is None,
            r.reply is None,
            r.stop,
            r.stop_reason == Some(reason),
    {
        StateResult { next_state: None, reply: None, stop: true, stop_reason: Some(reason) }
    }

    /// Add a reply to the result.
    pub fn reply(self, reply: R) -> (r: StateResult<S, R>)
        ensures
            r == (StateResult { reply: Some(reply), ..self }),
    {
        StateResult { reply: Some(reply), ..self }
    }
}

/// Marker event for getting current state.
#[derive(Clone, Copy, Debug, PartialEq, Eq, Structural)]
pub struct GetStateEvent;

/// Error type for state machine operations.
#[derive(Debug, Clone, Copy, PartialEq, Eq, Structural)]
pub enum StatemError {
    /// The state machine is not running.
    NotRunning,
    /// The communication channel was closed.
    ChannelClosed,
    /// Invalid reply received.
    InvalidReply,
}

impl StatemError {
    pub open spec fn spec_text(&self) -> Seq<char> {
        match self {
            StatemError::NotRunning => "state machine is not running"@,
            StatemError::ChannelClosed => "communication channel closed"@,
            StatemError::InvalidReply => "invalid reply received"@,
        }
    }

    /// The error message.
    pub fn to_string(&self) -> (s: String)
        ensures
            s@ == self.spec_text(),
    {
        match self {
            StatemError::NotRunning => "state machine is not running".to_owned(),
            StatemError::ChannelClosed => "communication channel closed".to_owned(),
            StatemError::InvalidReply => "invalid reply received".to_owned(),
        }
    }
}

/// What the state machine does once an event handler returned.
pub struct StatemStep<S, R> {
    /// The reply to send to the caller (calls only).
    pub reply: Option<R>,
    /// Run `on_enter(current, new)`, then switch to this state.
    pub enter: Option<S>,
    /// Run `terminate` on the (possibly new) state with this reason, then exit.
    pub stop: Option<ExitReason>,
}

/// Decide what follows the handler's `result` for an event that came as a
/// call (`is_call`) or a cast: the reply goes to a caller only; a new state
/// is entered; a stop ends the machine with the reason given, `Normal` when
/// none is.
pub fn after_event<S, R>(result: StateResult<S, R>, is_call: bool) -> (step: StatemStep<S, R>)
    ensures
        step.reply == (if is_call { result.reply } else { None }),
        step.enter == result.next_state,
        step.stop == (if result.stop {
            Some(
                match result.stop_reason {
                    Some(r) => r,
                    None => ExitReason::Normal,
                },
            )
        } else {
            None
        }),
{
    let StateResult { next_state, reply, stop, stop_reason } = result;
    let reply = if is_call { reply } else { None };
    let stop = if stop {
        Some(
            match stop_reason {
                Some(r) => r,
                None => ExitReason::Normal,
            },
        )
    } else {
        None
    };
    StatemStep { reply, enter: next_state, stop }
}

/// Why the state machine stopped waiting without an event.
#[derive(Debug, Clone, Copy, PartialEq, Eq, Structural)]
pub enum StatemInterrupt {
    /// It was asked to stop.
    Cancelled,
    /// Its mailbox closed.
    MailboxClosed,
}

/// The reason the machine terminates with when interrupted: `Shutdown`
/// when asked to stop, `Normal` when its mailbox closed.
pub fn interrupt_reason(interrupt: StatemInterrupt) -> (r: ExitReason)
    ensures
        interrupt is Cancelled ==> r == ExitReason::Shutdown,
        interrupt is MailboxClosed ==> r == ExitReason::Normal,
{
    match interrupt {
        StatemInterrupt::Cancelled => ExitReason::Shutdown,
        StatemInterrupt::MailboxClosed => ExitReason::Normal,
    }
}

/// What a call returns: `NotRunning` when the event could not be sent,
/// `ChannelClosed` when no reply came back, else the reply.
pub fn call_result<R>(sent: bool, reply: Option<R>) -> (r: Result<R, StatemError>)
    ensures
        !sent ==> r == Err::<R, StatemError>(StatemError::NotRunning),
        sent && reply is None ==> r == Err::<R, StatemError>(StatemError::ChannelClosed),
        sent ==> (reply matches Some(x) ==> r == Ok::<R, StatemError>(x)),
{
    if !sent {
        return Err(StatemError::NotRunning);
    }
    match reply {
        Some(x) => Ok(x),
        None => Err(StatemError::ChannelClosed),
    }
}

/// What `get_state` returns for the state read off the reply: the state,
/// or `InvalidReply` when the reply carried none.
pub fn state_from_reply<S>(state: Option<S>) -> (r: Result<S, StatemError>)
    ensures
        state matches Some(s) ==> r == Ok::<S, StatemError>(s),
        state is None ==> r == Err::<S, StatemError>(StatemError::InvalidReply),
{
    match state {
        Some(s) => Ok(s),
        None => Err(StatemError::InvalidReply),
    }
}

} // verus!

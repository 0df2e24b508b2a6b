//! The decisions a GenServer makes between its callbacks: whether the
//! message loop goes on after a callback, what a caller is answered, how
//! initialization ends and with which reason the server exits.
//!
//! The runtime awaits the callbacks (catching their panics) and hands the
//! outcome to these functions.
use vstd::prelude::*;
use crate::error::GenServerError;
use crate::monitor::MonitorRef;
use crate::pid::{ExitReason, Pid};
pub use crate::actor::Backend;

verus! {

/// What a `handle_call` callback answers.
#[derive(Debug, Clone, PartialEq, Eq)]
pub enum CallResponse<R> {
    /// Reply and keep running.
    Reply(R),
    /// Reply, then stop the server.
    Stop(R),
}

/// What a `handle_cast` callback answers.
#[derive(Debug, Clone, Copy, PartialEq, Eq, Structural)]
pub enum CastResponse {
    /// Keep running.
    NoReply,
    /// Stop the server.
    Stop,
}

/// Response from the `handle_info` callback.
#[derive(Debug, Clone, Copy, PartialEq, Eq, Structural)]
pub enum InfoResponse {
    /// Continue running, message was handled.
    NoReply,
    /// Stop the GenServer.
    Stop,
}

/// What the `init` callback hands back.
#[derive(Debug, Clone, PartialEq, Eq)]
pub enum InitResult<G> {
    /// Initialization succeeded: run the message loop on this state.
    Success(G),
    /// Initialization failed but the callback handled it: skip the loop
    /// and tear this state down.
    NoSuccess(G),
}

/// How an awaited callback ended.
#[derive(Debug, Clone, PartialEq, Eq)]
pub enum Outcome<T> {
    /// It returned this value.
    Returned(T),
    /// It panicked.
    Panicked,
}

/// System messages a server receives besides calls and casts.
#[derive(Debug, Clone, PartialEq)]
pub enum SystemMessage {
    /// A monitored process exited.
    Down { pid: Pid, monitor_ref: MonitorRef, reason: ExitReason },
    /// A linked process exited and this server traps exits.
    Exit { pid: Pid, reason: ExitReason },
    /// A timer fired.
    Timeout { id: u64 },
}

/// One turn of the message loop, as the runtime saw it: system messages
/// are looked at first.
#[derive(Debug, Clone, PartialEq, Eq)]
pub enum LoopEvent<R> {
    /// The system channel is closed.
    SystemClosed,
    /// `handle_info` ran on a system message.
    Info(Outcome<InfoResponse>),
    /// `handle_call` ran on a request.
    Call(Outcome<CallResponse<R>>),
    /// `handle_cast` ran on a message.
    Cast(Outcome<CastResponse>),
    /// The mailbox is closed: no message will come.
    MailboxClosed,
}

/// What the loop does after one turn: whether it goes on, and the reply
/// owed to a caller, if the turn was a call.
#[derive(Debug, PartialEq, Eq)]
pub struct LoopStep<R> {
    pub keep_running: bool,
    pub reply: Option<Result<R, GenServerError>>,
}

/// The loop step that follows `event`.
pub open spec fn spec_receive_step<R>(event: LoopEvent<R>) -> LoopStep<R> {
    match event {
        LoopEvent::SystemClosed => LoopStep { keep_running: true, reply: None },
        LoopEvent::Info(Outcome::Returned(InfoResponse::NoReply)) => LoopStep { keep_running: true, reply: None },
        LoopEvent::Info(_) => LoopStep { keep_running: false, reply: None },
        LoopEvent::Call(Outcome::Returned(CallResponse::Reply(r))) => LoopStep { keep_running: true, reply: Some(Ok(r)) },
        LoopEvent::Call(Outcome::Returned(CallResponse::Stop(r))) => LoopStep { keep_running: false, reply: Some(Ok(r)) },
        LoopEvent::Call(Outcome::Panicked) => LoopStep {
            keep_running: false,
            reply: Some(Err(GenServerError::Callback)),
        },
        LoopEvent::Cast(Outcome::Returned(CastResponse::NoReply)) => LoopStep { keep_running: true, reply: None },
        LoopEvent::Cast(_) => LoopStep { keep_running: false, reply: None },
        LoopEvent::MailboxClosed => LoopStep { keep_running: false, reply: None },
    }
}

/// Decide what the loop does after one turn.
///
/// A closed system channel leaves the server running on its mailbox; a
/// closed mailbox stops it. A callback that asks to stop, or panics, stops
/// it; a panicking `handle_call` answers its caller `Callback`.
pub fn receive_step<R>(event: LoopEvent<R>) -> (step: LoopStep<R>)
    ensures
        step == spec_receive_step(event),
{
    match event {
        LoopEvent::SystemClosed => LoopStep { keep_running: true, reply: None },
        LoopEvent::Info(outcome) => match outcome {
            Outcome::Returned(InfoResponse::NoReply) => LoopStep { keep_running: true, reply: None },
            _ => LoopStep { keep_running: false, reply: None },
        },
        LoopEvent::Call(outcome) => match outcome {
            Outcome::Returned(CallResponse::Reply(r)) => LoopStep { keep_running: true, reply: Some(Ok(r)) },
            Outcome::Returned(CallResponse::Stop(r)) => LoopStep { keep_running: false, reply: Some(Ok(r)) },
            Outcome::Panicked => LoopStep { keep_running: false, reply: Some(Err(GenServerError::Callback)) },
        },
        LoopEvent::Cast(outcome) => match outcome {
            Outcome::Returned(CastResponse::NoReply) => LoopStep { keep_running: true, reply: None },
            _ => LoopStep { keep_running: false, reply: None },
        },
        LoopEvent::MailboxClosed => LoopStep { keep_running: false, reply: None },
    }
}

/// How a caller's wait for a reply ended.
#[derive(Debug, PartialEq, Eq)]
pub enum CallWait<R> {
    /// The server answered.
    Answered(Result<R, GenServerError>),
    /// The server dropped the reply channel without answering.
    Dropped,
    /// The timeout passed first.
    TimedOut,
}

/// What `call` returns after a wait that ended as `wait`: the server's
/// answer, `Server` if it dropped the request, `CallTimeout` on timeout.
pub fn call_result<R>(wait: CallWait<R>) -> (r: Result<R, GenServerError>)
    ensures
        wait matches CallWait::Answered(a) ==> r == a,
        wait is Dropped ==> r == Err::<R, GenServerError>(GenServerError::Server),
        wait is TimedOut ==> r == Err::<R, GenServerError>(GenServerError::CallTimeout),
{
    match wait {
        CallWait::Answered(a) => a,
        CallWait::Dropped => Err(GenServerError::Server),
        CallWait::TimedOut => Err(GenServerError::CallTimeout),
    }
}

/// What sending a request or cast returns: `Server` when the mailbox was
/// closed.
pub fn send_result(sent: bool) -> (r: Result<(), GenServerError>)
    ensures
        sent ==> r is Ok,
        !sent ==> r == Err::<(), GenServerError>(GenServerError::Server),
{
    if sent {
        Ok(())
    } else {
        Err(GenServerError::Server)
    }
}

/// What the server does once `init` has ended.
#[derive(Debug, Clone, PartialEq, Eq)]
pub enum AfterInit<G> {
    /// Run the message loop on this state, then tear it down.
    RunLoop(G),
    /// Skip the loop and tear this state down.
    Teardown(G),
    /// Initialization failed with an unhandled error: no teardown.
    Abort(GenServerError),
}

/// Decide what follows `init`: a `Success` runs the loop, a `NoSuccess`
/// skips it, an unhandled error aborts with `Initialization`.
pub fn after_init<G, E>(init: Result<InitResult<G>, E>) -> (r: AfterInit<G>)
    ensures
        init matches Ok(InitResult::Success(g)) ==> r == AfterInit::RunLoop(g),
        init matches Ok(InitResult::NoSuccess(g)) ==> r == AfterInit::Teardown(g),
        init is Err ==> r == AfterInit::<G>::Abort(GenServerError::Initialization),
{
    match init {
        Ok(InitResult::Success(g)) => AfterInit::RunLoop(g),
        Ok(InitResult::NoSuccess(g)) => AfterInit::Teardown(g),
        Err(_) => AfterInit::Abort(GenServerError::Initialization),
    }
}

/// The reason a server is unregistered with once its run has ended:
/// `Normal` after a clean run, `Error("GenServer crashed")` otherwise.
pub fn run_exit_reason(run: Result<(), GenServerError>) -> (r: ExitReason)
    ensures
        run is Ok ==> r == ExitReason::Normal,
        run is Err ==> (r matches ExitReason::Error(msg) && msg@ == "GenServer crashed"@),
{
    match run {
        Ok(()) => ExitReason::Normal,
        Err(_) => ExitReason::Error("GenServer crashed".to_owned()),
    }
}

} // verus!

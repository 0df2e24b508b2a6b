use spawned_concurrency::error::GenServerError;
use spawned_concurrency::gen_server::{
    after_init, call_result, receive_step, run_exit_reason, send_result, AfterInit, CallResponse, CallWait,
    CastResponse, InfoResponse, InitResult, LoopEvent, LoopStep, Outcome,
};
use spawned_concurrency::gen_statem::{
    after_event, call_result as statem_call_result, interrupt_reason, state_from_reply, StateResult, StatemError,
    StatemInterrupt,
};
use spawned_concurrency::pid::ExitReason;

#[derive(Clone, Debug, PartialEq)]
enum LightState {
    Red,
    Yellow,
    Green,
}

#[derive(Clone, Debug, PartialEq)]
enum LightReply {
    Done,
    State(LightState),
}

#[test]
fn test_state_result_builders() {
    // Test keep_state
    let result: StateResult<LightState, LightReply> = StateResult::keep_state();
    assert!(result.next_state.is_none());
    assert!(result.reply.is_none());
    assert!(!result.stop);

    // Test transition
    let result: StateResult<LightState, LightReply> = StateResult::transition(LightState::Green);
    assert!(matches!(result.next_state, Some(LightState::Green)));
    assert!(!result.stop);

    // Test stop
    let result: StateResult<LightState, LightReply> = StateResult::stop();
    assert!(result.stop);
    assert!(matches!(result.stop_reason, Some(ExitReason::Normal)));

    // Test stop_with_reason
    let result: StateResult<LightState, LightReply> = StateResult::stop_with_reason(ExitReason::Shutdown);
    assert!(result.stop);
    assert!(matches!(result.stop_reason, Some(ExitReason::Shutdown)));

    // Test reply chaining
    let result: StateResult<LightState, LightReply> = StateResult::transition(LightState::Yellow).reply(LightReply::Done);
    assert!(matches!(result.next_state, Some(LightState::Yellow)));
    assert!(matches!(result.reply, Some(LightReply::Done)));
}

#[test]
fn test_statem_error_display() {
    assert_eq!(StatemError::NotRunning.to_string(), "state machine is not running");
    assert_eq!(StatemError::ChannelClosed.to_string(), "communication channel closed");
    assert_eq!(StatemError::InvalidReply.to_string(), "invalid reply received");
}

#[test]
fn statem_reply_only_for_calls() {
    let step = after_event(StateResult::<LightState, LightReply>::keep_state().reply(LightReply::State(LightState::Red)), false);
    assert!(step.reply.is_none());
    let step = after_event(StateResult::<LightState, LightReply>::keep_state().reply(LightReply::State(LightState::Red)), true);
    assert_eq!(step.reply, Some(LightReply::State(LightState::Red)));
}

#[test]
fn statem_transition_and_stop() {
    let step = after_event(StateResult::<LightState, LightReply>::transition(LightState::Green), true);
    assert_eq!(step.enter, Some(LightState::Green));
    assert!(step.stop.is_none());
    let mut r: StateResult<LightState, LightReply> = StateResult::stop();
    r.stop_reason = None;
    let step = after_event(r, false);
    assert_eq!(step.stop, Some(ExitReason::Normal));
    let step = after_event(StateResult::<LightState, LightReply>::stop_with_reason(ExitReason::Kill), false);
    assert_eq!(step.stop, Some(ExitReason::Kill));
}

#[test]
fn statem_interrupts_and_calls() {
    assert_eq!(interrupt_reason(StatemInterrupt::Cancelled), ExitReason::Shutdown);
    assert_eq!(interrupt_reason(StatemInterrupt::MailboxClosed), ExitReason::Normal);
    assert_eq!(statem_call_result::<u8>(false, None), Err(StatemError::NotRunning));
    assert_eq!(statem_call_result::<u8>(true, None), Err(StatemError::ChannelClosed));
    assert_eq!(statem_call_result(true, Some(3u8)), Ok(3));
    assert_eq!(state_from_reply::<LightState>(None), Err(StatemError::InvalidReply));
    assert_eq!(state_from_reply(Some(LightState::Red)), Ok(LightState::Red));
}

#[test]
fn gen_server_loop_steps() {
    assert_eq!(receive_step::<u8>(LoopEvent::SystemClosed), LoopStep { keep_running: true, reply: None });
    assert_eq!(receive_step::<u8>(LoopEvent::MailboxClosed), LoopStep { keep_running: false, reply: None });
    assert_eq!(
        receive_step::<u8>(LoopEvent::Info(Outcome::Returned(InfoResponse::NoReply))),
        LoopStep { keep_running: true, reply: None }
    );
    assert_eq!(
        receive_step::<u8>(LoopEvent::Info(Outcome::Returned(InfoResponse::Stop))),
        LoopStep { keep_running: false, reply: None }
    );
    assert_eq!(receive_step::<u8>(LoopEvent::Info(Outcome::Panicked)), LoopStep { keep_running: false, reply: None });
    assert_eq!(
        receive_step(LoopEvent::Call(Outcome::Returned(CallResponse::Reply(7u8)))),
        LoopStep { keep_running: true, reply: Some(Ok(7)) }
    );
    assert_eq!(
        receive_step(LoopEvent::Call(Outcome::Returned(CallResponse::Stop(8u8)))),
        LoopStep { keep_running: false, reply: Some(Ok(8)) }
    );
    assert_eq!(
        receive_step::<u8>(LoopEvent::Call(Outcome::Panicked)),
        LoopStep { keep_running: false, reply: Some(Err(GenServerError::Callback)) }
    );
    assert_eq!(
        receive_step::<u8>(LoopEvent::Cast(Outcome::Returned(CastResponse::NoReply))),
        LoopStep { keep_running: true, reply: None }
    );
    assert_eq!(
        receive_step::<u8>(LoopEvent::Cast(Outcome::Returned(CastResponse::Stop))),
        LoopStep { keep_running: false, reply: None }
    );
    assert_eq!(receive_step::<u8>(LoopEvent::Cast(Outcome::Panicked)), LoopStep { keep_running: false, reply: None });
}

#[test]
fn gen_server_call_outcomes() {
    assert_eq!(call_result(CallWait::Answered(Ok(5u8))), Ok(5));
    assert_eq!(call_result::<u8>(CallWait::Answered(Err(GenServerError::Callback))), Err(GenServerError::Callback));
    assert_eq!(call_result::<u8>(CallWait::Dropped), Err(GenServerError::Server));
    assert_eq!(call_result::<u8>(CallWait::TimedOut), Err(GenServerError::CallTimeout));
    assert_eq!(send_result(true), Ok(()));
    assert_eq!(send_result(false), Err(GenServerError::Server));
}

#[test]
fn gen_server_init_and_exit() {
    assert_eq!(after_init::<u8, ()>(Ok(InitResult::Success(1))), AfterInit::RunLoop(1));
    assert_eq!(after_init::<u8, ()>(Ok(InitResult::NoSuccess(2))), AfterInit::Teardown(2));
    assert_eq!(after_init::<u8, &str>(Err("nope")), AfterInit::Abort(GenServerError::Initialization));
    assert_eq!(run_exit_reason(Ok(())), ExitReason::Normal);
    assert_eq!(run_exit_reason(Err(GenServerError::Server)), ExitReason::Error("GenServer crashed".to_string()));
}

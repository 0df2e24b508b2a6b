use spawned_concurrency::application::ApplicationError;
use spawned_concurrency::child_handle::ActorId;
use spawned_concurrency::error::{ActorError, ExitReason};
use spawned_concurrency::ids::IdCounter;
use spawned_concurrency::monitor::MonitorRef;
use spawned_concurrency::pid;
use spawned_concurrency::pid::Pid;

#[test]
fn test_application_error_display() {
    let err = ApplicationError::AlreadyStarted("test".to_string());
    assert_eq!(err.to_string(), "application 'test' is already started");

    let err = ApplicationError::NotRunning("test".to_string());
    assert_eq!(err.to_string(), "application 'test' is not running");

    let err = ApplicationError::StartFailed("oops".to_string());
    assert_eq!(err.to_string(), "failed to start application: oops");

    let err = ApplicationError::StopFailed("oops".to_string());
    assert_eq!(err.to_string(), "failed to stop application: oops");
}

#[test]
fn actor_id_is_unique() {
    let mut ids = IdCounter::new();
    let a = ActorId::next(&mut ids);
    let b = ActorId::next(&mut ids);
    assert_ne!(a, b);
}

#[test]
fn actor_id_display() {
    let mut ids = IdCounter::new();
    let id = ActorId::next(&mut ids);
    let s = id.to_string();
    assert!(s.starts_with("ActorId("));
}

#[test]
fn actor_id_display_exact() {
    assert_eq!(ActorId(42).to_string(), "ActorId(42)");
    assert_eq!(ActorId(0).to_string(), "ActorId(0)");
}

#[test]
fn test_error_into_std_error() {
    let error = ActorError::ActorStopped;
    assert_eq!(error.to_string(), "Actor stopped");
}

#[test]
fn actor_error_messages() {
    assert_eq!(ActorError::RequestTimeout.to_string(), "Request to Actor timed out");
}

#[test]
fn exit_reason_is_abnormal_classification() {
    assert!(!ExitReason::Normal.is_abnormal());
    assert!(!ExitReason::Shutdown.is_abnormal());
    assert!(ExitReason::Panic("boom".into()).is_abnormal());
    assert!(ExitReason::Kill.is_abnormal());
}

#[test]
fn error_exit_reason_display() {
    assert_eq!(ExitReason::Normal.to_string(), "normal");
    assert_eq!(ExitReason::Shutdown.to_string(), "shutdown");
    assert_eq!(ExitReason::Panic("oops".into()).to_string(), "panic: oops");
    assert_eq!(ExitReason::Kill.to_string(), "kill");
}

#[test]
fn exit_reason_partial_eq() {
    assert_eq!(ExitReason::Normal, ExitReason::Normal);
    assert_ne!(ExitReason::Normal, ExitReason::Kill);
    assert_eq!(ExitReason::Panic("x".into()), ExitReason::Panic("x".into()));
}

#[test]
fn exit_reason_duplicate_is_equal() {
    let r = ExitReason::Panic("x".into());
    assert_eq!(r.duplicate(), r);
}

#[test]
fn monitor_ref_is_unique() {
    let mut refs = IdCounter::new();
    let a = MonitorRef::next(&mut refs);
    let b = MonitorRef::next(&mut refs);
    assert_ne!(a, b);
}

#[test]
fn monitor_ref_display() {
    let mut refs = IdCounter::new();
    let r = MonitorRef::next(&mut refs);
    assert!(r.to_string().starts_with("MonitorRef("));
    assert_eq!(MonitorRef(7).to_string(), "MonitorRef(7)");
}

#[test]
fn id_counter_wraps_like_fetch_add() {
    let mut c = IdCounter { next: u64::MAX };
    assert_eq!(c.fetch_next(), u64::MAX);
    assert_eq!(c.next, 0);
    assert_eq!(c.fetch_next(), 0);
    assert_eq!(c.next, 1);
}

#[test]
fn pid_uniqueness() {
    let mut ids = IdCounter::new();
    let pid1 = Pid::new(&mut ids);
    let pid2 = Pid::new(&mut ids);
    let pid3 = Pid::new(&mut ids);

    assert_ne!(pid1, pid2);
    assert_ne!(pid2, pid3);
    assert_ne!(pid1, pid3);

    // IDs should be monotonically increasing
    assert!(pid1.id() < pid2.id());
    assert!(pid2.id() < pid3.id());
}

#[test]
fn pid_clone_equality() {
    let mut ids = IdCounter::new();
    let pid1 = Pid::new(&mut ids);
    let pid2 = pid1;

    assert_eq!(pid1, pid2);
    assert_eq!(pid1.id(), pid2.id());
}

#[test]
fn pid_display() {
    let mut ids = IdCounter::new();
    let pid = Pid::new(&mut ids);
    let display = pid.to_string();
    assert!(display.starts_with("<0."));
    assert!(display.ends_with(">"));
}

#[test]
fn pid_display_exact() {
    assert_eq!(Pid { id: 123 }.to_string(), "<0.123>");
    assert_eq!(Pid { id: 5 }.to_debug_string(), "Pid(5)");
}

#[test]
fn exit_reason_is_normal() {
    let mut ids = IdCounter::new();
    assert!(pid::ExitReason::Normal.is_normal());
    assert!(pid::ExitReason::Shutdown.is_normal());
    assert!(!pid::ExitReason::Kill.is_normal());
    assert!(!pid::ExitReason::Error("oops".to_string()).is_normal());
    assert!(!pid::ExitReason::Linked {
        pid: Pid::new(&mut ids),
        reason: Box::new(pid::ExitReason::Kill),
    }
    .is_normal());
}

#[test]
fn pid_exit_reason_display() {
    assert_eq!(pid::ExitReason::Normal.to_string(), "normal");
    assert_eq!(pid::ExitReason::Shutdown.to_string(), "shutdown");
    assert_eq!(pid::ExitReason::Kill.to_string(), "killed");
    assert_eq!(
        pid::ExitReason::Error("connection lost".to_string()).to_string(),
        "error: connection lost"
    );
}

#[test]
fn linked_exit_reason_display() {
    let r = pid::ExitReason::Linked {
        pid: Pid { id: 3 },
        reason: Box::new(pid::ExitReason::Error("x".to_string())),
    };
    assert_eq!(r.to_string(), "linked process <0.3> exited: error: x");
}

#[test]
fn exit_reason_constructors() {
    assert_eq!(pid::ExitReason::error("e".to_string()), pid::ExitReason::Error("e".to_string()));
    assert_eq!(pid::ExitReason::from_error("f".to_string()), pid::ExitReason::Error("f".to_string()));
    assert!(pid::ExitReason::Kill.is_error());
    assert!(!pid::ExitReason::Normal.is_error());
}

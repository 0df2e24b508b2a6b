use spawned_concurrency::actor::{lifecycle_step, Backend, LifecycleAction, LifecycleEvent, Phase};
use spawned_concurrency::actors::{ActorEffect, ActorTable};
use spawned_concurrency::child_handle::ActorId;
use spawned_concurrency::error::ExitReason;
use spawned_concurrency::link::Exit;
use spawned_concurrency::monitor::{Down, MonitorRef};

#[test]
fn backend_default_is_async() {
    assert_eq!(Backend::default(), Backend::Async);
}

#[test]
fn backend_enum_is_copy_and_clone() {
    let backend = Backend::Blocking;
    let copied = backend;
    let cloned = backend.clone();
    assert_eq!(backend, copied);
    assert_eq!(backend, cloned);
}

#[test]
fn backend_enum_debug_format() {
    assert_eq!(format!("{:?}", Backend::Async), "Async");
    assert_eq!(format!("{:?}", Backend::Blocking), "Blocking");
    assert_eq!(format!("{:?}", Backend::Thread), "Thread");
}

#[test]
fn backend_enum_equality() {
    assert_eq!(Backend::Async, Backend::Async);
    assert_ne!(Backend::Async, Backend::Blocking);
    assert_ne!(Backend::Blocking, Backend::Thread);
}

// ---------------------------------------------------------------------------
// Lifecycle
// ---------------------------------------------------------------------------

fn run(events: Vec<LifecycleEvent>) -> (Phase, Vec<LifecycleAction>) {
    let mut phase = Phase::Starting;
    let mut actions = Vec::new();
    for e in events {
        let (next, action) = lifecycle_step(&phase, e);
        phase = next;
        actions.push(action);
    }
    (phase, actions)
}

#[test]
fn clean_stop_exits_normal() {
    let (phase, actions) = run(vec![
        LifecycleEvent::StartedReturned { cancelled: false },
        LifecycleEvent::Handled { cancelled: false },
        LifecycleEvent::Handled { cancelled: true },
        LifecycleEvent::StoppedReturned,
    ]);
    assert_eq!(phase, Phase::Exited(ExitReason::Normal));
    assert_eq!(
        actions,
        vec![
            LifecycleAction::Receive,
            LifecycleAction::Receive,
            LifecycleAction::RunStopped,
            LifecycleAction::Finish(ExitReason::Normal)
        ]
    );
}

#[test]
fn panic_in_started_skips_stopped() {
    let (phase, actions) = run(vec![LifecycleEvent::StartedPanicked("boom".to_string())]);
    let reason = ExitReason::Panic("panic in started(): boom".to_string());
    assert_eq!(phase, Phase::Exited(reason.clone()));
    assert_eq!(actions, vec![LifecycleAction::Finish(reason)]);
}

#[test]
fn panic_in_handler_is_reported() {
    let (phase, _) = run(vec![
        LifecycleEvent::StartedReturned { cancelled: false },
        LifecycleEvent::HandlerPanicked("bad msg".to_string()),
        LifecycleEvent::StoppedReturned,
    ]);
    assert_eq!(phase, Phase::Exited(ExitReason::Panic("panic in handler: bad msg".to_string())));
}

#[test]
fn panic_in_stopped_after_clean_run() {
    let (phase, _) = run(vec![
        LifecycleEvent::StartedReturned { cancelled: false },
        LifecycleEvent::MailboxEnded,
        LifecycleEvent::StoppedPanicked("cleanup".to_string()),
    ]);
    assert_eq!(phase, Phase::Exited(ExitReason::Panic("panic in stopped(): cleanup".to_string())));
}

#[test]
fn panic_in_stopped_keeps_handler_panic() {
    let (phase, _) = run(vec![
        LifecycleEvent::StartedReturned { cancelled: false },
        LifecycleEvent::HandlerPanicked("first".to_string()),
        LifecycleEvent::StoppedPanicked("second".to_string()),
    ]);
    assert_eq!(phase, Phase::Exited(ExitReason::Panic("panic in handler: first".to_string())));
}

#[test]
fn cancelled_during_started_reports_panic_in_stopped() {
    let (phase, actions) = run(vec![
        LifecycleEvent::StartedReturned { cancelled: true },
        LifecycleEvent::StoppedPanicked("late".to_string()),
    ]);
    assert_eq!(phase, Phase::Exited(ExitReason::Panic("panic in stopped(): late".to_string())));
    assert_eq!(actions[0], LifecycleAction::RunStopped);
}

// ---------------------------------------------------------------------------
// Links and monitors between actors
// ---------------------------------------------------------------------------

#[test]
fn link_propagates_panic_to_non_trapping_peer_in_table() {
    let mut t = ActorTable::new();
    let a = t.spawn();
    let b = t.spawn();
    assert!(t.link(a, b).is_empty());
    let (reason, effects) = t.finish(a, ExitReason::Panic("boom".to_string()));
    assert_eq!(reason, ExitReason::Panic("boom".to_string()));
    assert_eq!(effects, vec![ActorEffect::Cancel(b)]);
    // b was cancelled by the link: its own exit reports a's reason
    let (b_reason, _) = t.finish(b, ExitReason::Normal);
    assert_eq!(b_reason, ExitReason::Panic("boom".to_string()));
}

#[test]
fn link_delivers_exit_to_trapping_peer_in_table() {
    let mut t = ActorTable::new();
    let a = t.spawn();
    let b = t.spawn();
    t.set_trap_exit(b, true);
    t.link(a, b);
    let (_, effects) = t.finish(a, ExitReason::Panic("boom".to_string()));
    assert_eq!(
        effects,
        vec![ActorEffect::DeliverExit(b, Exit { from: a, reason: ExitReason::Panic("boom".to_string()) })]
    );
    assert!(t.is_alive(b));
}

#[test]
fn normal_exit_not_propagated_to_non_trapping_peer_in_table() {
    let mut t = ActorTable::new();
    let a = t.spawn();
    let b = t.spawn();
    t.link(a, b);
    let (_, effects) = t.finish(a, ExitReason::Normal);
    assert!(effects.is_empty());
}

#[test]
fn link_to_dead_actor_signals_at_once() {
    let mut t = ActorTable::new();
    let a = t.spawn();
    let dead = t.spawn();
    t.finish(dead, ExitReason::Kill);
    assert_eq!(t.exit_reason(dead), Some(ExitReason::Kill));
    assert!(!t.is_alive(dead));
    let effects = t.link(a, dead);
    assert_eq!(effects, vec![ActorEffect::Cancel(a)]);
}

#[test]
fn link_to_dead_actor_delivers_once_to_trapping_peer() {
    let mut t = ActorTable::new();
    let a = t.spawn();
    let dead = t.spawn();
    t.set_trap_exit(a, true);
    t.finish(dead, ExitReason::Panic("x".to_string()));
    let effects = t.link(a, dead);
    assert_eq!(
        effects,
        vec![ActorEffect::DeliverExit(a, Exit { from: dead, reason: ExitReason::Panic("x".to_string()) })]
    );
    assert!(t.link(a, dead).is_empty());
}

#[test]
fn unlink_prevents_signal() {
    let mut t = ActorTable::new();
    let a = t.spawn();
    let b = t.spawn();
    t.link(a, b);
    t.unlink(a, b);
    let (_, effects) = t.finish(a, ExitReason::Kill);
    assert!(effects.is_empty());
}

#[test]
fn duplicate_link_signals_once() {
    let mut t = ActorTable::new();
    let a = t.spawn();
    let b = t.spawn();
    t.link(a, b);
    t.link(a, b);
    t.link(b, a);
    let (_, effects) = t.finish(a, ExitReason::Kill);
    assert_eq!(effects, vec![ActorEffect::Cancel(b)]);
}

#[test]
fn chain_propagation_through_non_trapping_middle() {
    let mut t = ActorTable::new();
    let a = t.spawn();
    let b = t.spawn();
    let c = t.spawn();
    t.set_trap_exit(c, true);
    t.link(a, b);
    t.link(b, c);
    let (_, effects) = t.finish(a, ExitReason::Panic("root".to_string()));
    assert_eq!(effects, vec![ActorEffect::Cancel(b)]);
    let (b_reason, effects) = t.finish(b, ExitReason::Normal);
    assert_eq!(b_reason, ExitReason::Panic("root".to_string()));
    assert_eq!(
        effects,
        vec![ActorEffect::DeliverExit(c, Exit { from: b, reason: ExitReason::Panic("root".to_string()) })]
    );
}

#[test]
fn self_link_is_ignored() {
    let mut t = ActorTable::new();
    let a = t.spawn();
    assert!(t.link(a, a).is_empty());
    let (_, effects) = t.finish(a, ExitReason::Kill);
    assert!(effects.is_empty());
}

#[test]
fn monitor_running_actor_delivers_down_on_exit_in_table() {
    let mut t = ActorTable::new();
    let watcher = t.spawn();
    let target = t.spawn();
    let (m, now) = t.monitor(watcher, target);
    assert!(now.is_empty());
    let (_, effects) = t.finish(target, ExitReason::Normal);
    assert_eq!(effects, vec![ActorEffect::DeliverDown(watcher, Down { monitor_ref: m, reason: ExitReason::Normal })]);
}

#[test]
fn monitor_dead_actor_delivers_down_immediately_in_table() {
    let mut t = ActorTable::new();
    let watcher = t.spawn();
    let target = t.spawn();
    t.finish(target, ExitReason::Panic("gone".to_string()));
    let (m, effects) = t.monitor(watcher, target);
    assert_eq!(
        effects,
        vec![ActorEffect::DeliverDown(watcher, Down { monitor_ref: m, reason: ExitReason::Panic("gone".to_string()) })]
    );
}

#[test]
fn demonitor_suppresses_down() {
    let mut t = ActorTable::new();
    let watcher = t.spawn();
    let target = t.spawn();
    let (m, _) = t.monitor(watcher, target);
    t.demonitor(watcher, m);
    let (_, effects) = t.finish(target, ExitReason::Kill);
    assert!(effects.is_empty());
}

#[test]
fn multiple_monitors_each_get_own_ref() {
    let mut t = ActorTable::new();
    let watcher = t.spawn();
    let target = t.spawn();
    let (m1, _) = t.monitor(watcher, target);
    let (m2, _) = t.monitor(watcher, target);
    assert_ne!(m1, m2);
    assert_eq!(m1, MonitorRef(1));
    assert_eq!(m2, MonitorRef(2));
    let (_, effects) = t.finish(target, ExitReason::Shutdown);
    assert_eq!(
        effects,
        vec![
            ActorEffect::DeliverDown(watcher, Down { monitor_ref: m1, reason: ExitReason::Shutdown }),
            ActorEffect::DeliverDown(watcher, Down { monitor_ref: m2, reason: ExitReason::Shutdown }),
        ]
    );
    // the monitors are gone once delivered
    let other = t.spawn();
    let (_, effects) = t.finish(other, ExitReason::Kill);
    assert!(effects.is_empty());
}

#[test]
fn spawned_ids_are_sequential() {
    let mut t = ActorTable::new();
    assert_eq!(t.spawn(), ActorId(1));
    assert_eq!(t.spawn(), ActorId(2));
    assert_eq!(t.exit_reason(ActorId(99)), None);
    assert!(!t.is_alive(ActorId(99)));
}

#[test]
fn cancelled_during_started_exits_normal_when_stopped_returns() {
    let (phase, _) = run(vec![
        LifecycleEvent::StartedReturned { cancelled: true },
        LifecycleEvent::StoppedReturned,
    ]);
    assert_eq!(phase, Phase::Exited(ExitReason::Normal));
}

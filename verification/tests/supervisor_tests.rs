use spawned_concurrency::gen_server::{CallResponse, CastResponse, InfoResponse, SystemMessage};
use spawned_concurrency::monitor::MonitorRef;
use spawned_concurrency::pid::{ExitReason, Pid};
use spawned_concurrency::process_table::{self, ProcessTable, SystemMessageSender};
use spawned_concurrency::registry::{self, Registry};
use spawned_concurrency::supervisor::{
    ChildHandle, ChildSpec, ChildType, DynamicSupervisor, DynamicSupervisorCall, DynamicSupervisorCast,
    DynamicSupervisorError, DynamicSupervisorResponse, DynamicSupervisorSpec, RestartIntensityTracker,
    RestartStrategy, RestartType, Shutdown, StartChild, Supervisor, SupervisorCall, SupervisorCast, SupervisorCounts,
    SupervisorError, SupervisorResponse, SupervisorSpec, SupervisorState,
};
use spawned_concurrency::time::Span;
use std::sync::atomic::{AtomicBool, AtomicU32, AtomicU64, Ordering};
use std::sync::Arc;

static NEXT_PID: AtomicU64 = AtomicU64::new(1000);

fn fresh_pid() -> Pid {
    Pid { id: NEXT_PID.fetch_add(1, Ordering::SeqCst) }
}

// Mock child handle for testing
struct MockChildHandle {
    pid: Pid,
    alive: Arc<AtomicBool>,
}

impl MockChildHandle {
    fn new() -> Self {
        Self { pid: fresh_pid(), alive: Arc::new(AtomicBool::new(true)) }
    }
}

impl ChildHandle for MockChildHandle {
    fn pid(&self) -> Pid {
        self.pid
    }

    fn shutdown(&self) {
        self.alive.store(false, Ordering::SeqCst);
    }

    fn is_alive(&self) -> bool {
        self.alive.load(Ordering::SeqCst)
    }
}

// Starts a fresh mock child, counting the starts.
#[derive(Clone)]
struct MockStart {
    counter: Arc<AtomicU32>,
}

impl StartChild<MockChildHandle> for MockStart {
    fn start(&self) -> MockChildHandle {
        self.counter.fetch_add(1, Ordering::SeqCst);
        MockChildHandle::new()
    }
}

fn mock_worker(id: &str) -> ChildSpec<MockStart> {
    ChildSpec::worker(id.to_string(), MockStart { counter: Arc::new(AtomicU32::new(0)) })
}

fn counted_worker(id: &str, counter: Arc<AtomicU32>) -> ChildSpec<MockStart> {
    ChildSpec::worker(id.to_string(), MockStart { counter })
}

// A sender that only answers liveness.
struct QuietSender;

impl SystemMessageSender for QuietSender {
    fn send_down(&self, _pid: Pid, _monitor_ref: MonitorRef, _reason: ExitReason) {}
    fn send_exit(&self, _pid: Pid, _reason: ExitReason) {}
    fn kill(&self, _reason: ExitReason) {}
    fn is_alive(&self) -> bool {
        true
    }
}

#[test]
fn test_child_spec_creation() {
    let spec = mock_worker("worker1");
    assert_eq!(spec.id(), "worker1");
    assert_eq!(spec.restart_type(), RestartType::Permanent);
    assert_eq!(spec.child_type(), ChildType::Worker);
}

#[test]
fn test_child_spec_builder() {
    let spec = mock_worker("worker1").transient().with_shutdown(Shutdown::Brutal);

    assert_eq!(spec.restart_type(), RestartType::Transient);
    assert_eq!(spec.shutdown_behavior(), Shutdown::Brutal);
    assert_eq!(spec.child_type(), ChildType::Worker);
}

#[test]
fn test_supervisor_child_spec() {
    let spec = ChildSpec::supervisor("sub_sup".to_string(), MockStart { counter: Arc::new(AtomicU32::new(0)) });
    assert_eq!(spec.child_type(), ChildType::Supervisor);
}

#[test]
fn test_supervisor_spec_creation() {
    let spec = SupervisorSpec::new(RestartStrategy::OneForOne)
        .max_restarts(5, Span::from_secs(10))
        .name("my_supervisor".to_string())
        .child(mock_worker("worker1"))
        .child(mock_worker("worker2"));

    assert_eq!(spec.strategy, RestartStrategy::OneForOne);
    assert_eq!(spec.max_restarts, 5);
    assert_eq!(spec.max_seconds, Span::from_secs(10));
    assert_eq!(spec.name, Some("my_supervisor".to_string()));
    assert_eq!(spec.children.len(), 2);
}

#[test]
fn test_restart_strategy_values() {
    assert_eq!(RestartStrategy::OneForOne, RestartStrategy::OneForOne);
    assert_ne!(RestartStrategy::OneForOne, RestartStrategy::OneForAll);
    assert_ne!(RestartStrategy::OneForAll, RestartStrategy::RestForOne);
}

#[test]
fn test_restart_type_default() {
    assert_eq!(RestartType::default(), RestartType::Permanent);
}

#[test]
fn test_shutdown_default() {
    assert_eq!(Shutdown::default(), Shutdown::Timeout(Span::from_secs(5)));
}

#[test]
fn test_child_type_default() {
    assert_eq!(ChildType::default(), ChildType::Worker);
}

#[test]
fn test_supervisor_error_display() {
    assert_eq!(SupervisorError::ChildAlreadyExists("foo".to_string()).to_string(), "child 'foo' already exists");
    assert_eq!(SupervisorError::ChildNotFound("bar".to_string()).to_string(), "child 'bar' not found");
    assert_eq!(
        SupervisorError::StartFailed("baz".to_string(), "oops".to_string()).to_string(),
        "failed to start child 'baz': oops"
    );
    assert_eq!(SupervisorError::MaxRestartsExceeded.to_string(), "maximum restart intensity exceeded");
    assert_eq!(SupervisorError::ShuttingDown.to_string(), "supervisor is shutting down");
}

#[test]
fn test_supervisor_counts_default() {
    let counts = SupervisorCounts::default();
    assert_eq!(counts.specs, 0);
    assert_eq!(counts.active, 0);
    assert_eq!(counts.workers, 0);
    assert_eq!(counts.supervisors, 0);
}

#[test]
fn test_child_handle_shutdown() {
    let handle = MockChildHandle::new();
    assert!(handle.is_alive());
    handle.shutdown();
    assert!(!handle.is_alive());
}

#[test]
fn test_child_spec_start_creates_new_handles() {
    let counter = Arc::new(AtomicU32::new(0));
    let spec = counted_worker("worker1", counter.clone());

    // Each call to start() should create a new handle
    let _h1 = spec.starter().start();
    assert_eq!(counter.load(Ordering::SeqCst), 1);

    let _h2 = spec.starter().start();
    assert_eq!(counter.load(Ordering::SeqCst), 2);
}

#[test]
fn supervisor_tests_test_supervisor_spec_multiple_children() {
    let spec = SupervisorSpec::new(RestartStrategy::OneForAll).children(vec![
        mock_worker("w1"),
        mock_worker("w2"),
        mock_worker("w3"),
    ]);

    assert_eq!(spec.children.len(), 3);
    assert_eq!(spec.strategy, RestartStrategy::OneForAll);
}

#[test]
fn test_child_spec_clone() {
    let spec1 = mock_worker("worker1").transient();
    let spec2 = spec1.duplicate();

    assert_eq!(spec1.id(), spec2.id());
    assert_eq!(spec1.restart_type(), spec2.restart_type());
}

// ---------------------------------------------------------------------------
// Restart intensity
// ---------------------------------------------------------------------------

#[test]
fn tracker_refuses_after_limit_within_window() {
    let mut t = RestartIntensityTracker::new(2, Span::from_secs(5));
    let now = Span::from_secs(100);
    assert!(t.can_restart(now));
    t.record_restart(now);
    assert!(t.can_restart(now));
    t.record_restart(now);
    assert!(!t.can_restart(now));
    // Once the window has passed the old restarts no longer count.
    assert!(t.can_restart(Span::from_secs(106)));
}

// ---------------------------------------------------------------------------
// Supervisor state and server
// ---------------------------------------------------------------------------

fn table_with(sup: Pid) -> ProcessTable<QuietSender> {
    let mut table = ProcessTable::new();
    process_table::register(&mut table, sup, QuietSender);
    table
}

#[test]
fn supervisor_starts_children_in_order_and_lists_them() {
    let sup = fresh_pid();
    let mut table = table_with(sup);
    let mut names: Registry<Pid> = Registry::new();
    let spec = SupervisorSpec::new(RestartStrategy::OneForOne)
        .name("top".to_string())
        .child(mock_worker("a"))
        .child(mock_worker("b"));
    let mut s: Supervisor<MockStart, MockChildHandle> = Supervisor::new(spec);
    assert!(s.init(&mut table, &mut names, sup, sup).is_ok());
    assert!(process_table::is_trapping_exit(&table, sup));
    assert_eq!(registry::whereis(&names, "top"), Some(&sup));
    match s.handle_call(SupervisorCall::WhichChildren, Span::from_secs(1), &mut table, sup) {
        CallResponse::Reply(SupervisorResponse::Children(ids)) => assert_eq!(ids, vec!["a".to_string(), "b".to_string()]),
        _ => panic!("unexpected response"),
    }
    match s.handle_call(SupervisorCall::CountChildren, Span::from_secs(1), &mut table, sup) {
        CallResponse::Reply(SupervisorResponse::Counts(c)) => {
            assert_eq!(c.specs, 2);
            assert_eq!(c.active, 2);
            assert_eq!(c.workers, 2);
            assert_eq!(c.supervisors, 0);
        },
        _ => panic!("unexpected response"),
    }
}

#[test]
fn supervisor_init_rejects_duplicate_ids() {
    let sup = fresh_pid();
    let mut table = table_with(sup);
    let mut names: Registry<Pid> = Registry::new();
    let spec = SupervisorSpec::new(RestartStrategy::OneForOne).child(mock_worker("a")).child(mock_worker("a"));
    let mut s: Supervisor<MockStart, MockChildHandle> = Supervisor::new(spec);
    assert_eq!(s.init(&mut table, &mut names, sup, sup), Err(SupervisorError::ChildAlreadyExists("a".to_string())));
}

#[test]
fn supervisor_call_errors() {
    let sup = fresh_pid();
    let mut table = table_with(sup);
    let mut names: Registry<Pid> = Registry::new();
    let spec = SupervisorSpec::new(RestartStrategy::OneForOne).child(mock_worker("a"));
    let mut s: Supervisor<MockStart, MockChildHandle> = Supervisor::new(spec);
    s.init(&mut table, &mut names, sup, sup).unwrap();
    let now = Span::from_secs(1);
    match s.handle_call(SupervisorCall::StartChild(mock_worker("a")), now, &mut table, sup) {
        CallResponse::Reply(SupervisorResponse::Error(SupervisorError::ChildAlreadyExists(id))) => assert_eq!(id, "a"),
        _ => panic!("expected ChildAlreadyExists"),
    }
    match s.handle_call(SupervisorCall::TerminateChild("zzz".to_string()), now, &mut table, sup) {
        CallResponse::Reply(SupervisorResponse::Error(SupervisorError::ChildNotFound(id))) => assert_eq!(id, "zzz"),
        _ => panic!("expected ChildNotFound"),
    }
    match s.handle_call(SupervisorCall::DeleteChild("a".to_string()), now, &mut table, sup) {
        CallResponse::Reply(SupervisorResponse::Completed) => {},
        _ => panic!("expected Completed"),
    }
    match s.handle_call(SupervisorCall::WhichChildren, now, &mut table, sup) {
        CallResponse::Reply(SupervisorResponse::Children(ids)) => assert!(ids.is_empty()),
        _ => panic!("unexpected response"),
    }
    assert_eq!(s.handle_cast(SupervisorCast::_Placeholder), CastResponse::NoReply);
}

fn pid_of(s: &mut Supervisor<MockStart, MockChildHandle>, table: &mut ProcessTable<QuietSender>, sup: Pid, id: &str) -> Pid {
    match s.handle_call(SupervisorCall::RestartChild(id.to_string()), Span::from_secs(0), table, sup) {
        CallResponse::Reply(SupervisorResponse::Started(p)) => p,
        _ => panic!("restart failed"),
    }
}

#[test]
fn one_for_one_restarts_crashed_child_only() {
    let sup = fresh_pid();
    let mut table = table_with(sup);
    let mut names: Registry<Pid> = Registry::new();
    let a_starts = Arc::new(AtomicU32::new(0));
    let b_starts = Arc::new(AtomicU32::new(0));
    let spec = SupervisorSpec::new(RestartStrategy::OneForOne)
        .max_restarts(10, Span::from_secs(60))
        .child(counted_worker("a", a_starts.clone()))
        .child(counted_worker("b", b_starts.clone()));
    let mut s: Supervisor<MockStart, MockChildHandle> = Supervisor::new(spec);
    s.init(&mut table, &mut names, sup, sup).unwrap();
    let a = pid_of(&mut s, &mut table, sup, "a");
    assert_eq!(a_starts.load(Ordering::SeqCst), 2);
    let r = s.handle_info(
        SystemMessage::Exit { pid: a, reason: ExitReason::Error("crash".to_string()) },
        Span::from_secs(1),
        &mut table,
        sup,
    );
    assert_eq!(r, InfoResponse::NoReply);
    assert_eq!(a_starts.load(Ordering::SeqCst), 3);
    assert_eq!(b_starts.load(Ordering::SeqCst), 1);
}

#[test]
fn one_for_all_restarts_everyone() {
    let sup = fresh_pid();
    let mut table = table_with(sup);
    let mut names: Registry<Pid> = Registry::new();
    let a_starts = Arc::new(AtomicU32::new(0));
    let b_starts = Arc::new(AtomicU32::new(0));
    let spec = SupervisorSpec::new(RestartStrategy::OneForAll)
        .max_restarts(10, Span::from_secs(60))
        .child(counted_worker("a", a_starts.clone()))
        .child(counted_worker("b", b_starts.clone()));
    let mut s: Supervisor<MockStart, MockChildHandle> = Supervisor::new(spec);
    s.init(&mut table, &mut names, sup, sup).unwrap();
    let b = pid_of(&mut s, &mut table, sup, "b");
    let r = s.handle_info(
        SystemMessage::Exit { pid: b, reason: ExitReason::Kill },
        Span::from_secs(1),
        &mut table,
        sup,
    );
    assert_eq!(r, InfoResponse::NoReply);
    assert_eq!(a_starts.load(Ordering::SeqCst), 2);
    assert_eq!(b_starts.load(Ordering::SeqCst), 3);
}

#[test]
fn transient_child_not_restarted_after_normal_exit() {
    let sup = fresh_pid();
    let mut table = table_with(sup);
    let mut names: Registry<Pid> = Registry::new();
    let starts = Arc::new(AtomicU32::new(0));
    let spec = SupervisorSpec::new(RestartStrategy::OneForOne).child(counted_worker("a", starts.clone()).transient());
    let mut s: Supervisor<MockStart, MockChildHandle> = Supervisor::new(spec);
    s.init(&mut table, &mut names, sup, sup).unwrap();
    let a = pid_of(&mut s, &mut table, sup, "a");
    let r = s.handle_info(SystemMessage::Exit { pid: a, reason: ExitReason::Normal }, Span::from_secs(1), &mut table, sup);
    assert_eq!(r, InfoResponse::NoReply);
    assert_eq!(starts.load(Ordering::SeqCst), 2);
}

#[test]
fn supervisor_stops_when_restart_intensity_exhausted() {
    let sup = fresh_pid();
    let mut table = table_with(sup);
    let mut names: Registry<Pid> = Registry::new();
    let spec = SupervisorSpec::new(RestartStrategy::OneForOne)
        .max_restarts(1, Span::from_secs(60))
        .child(mock_worker("a"));
    let mut s: Supervisor<MockStart, MockChildHandle> = Supervisor::new(spec);
    s.init(&mut table, &mut names, sup, sup).unwrap();
    let first = match s.handle_call(SupervisorCall::WhichChildren, Span::from_secs(0), &mut table, sup) {
        CallResponse::Reply(SupervisorResponse::Children(ids)) => ids,
        _ => panic!(),
    };
    assert_eq!(first.len(), 1);
    let a = pid_of(&mut s, &mut table, sup, "a");
    // the explicit restart above used the only restart allowed
    let r = s.handle_info(
        SystemMessage::Exit { pid: a, reason: ExitReason::Error("again".to_string()) },
        Span::from_secs(1),
        &mut table,
        sup,
    );
    assert_eq!(r, InfoResponse::Stop);
}

#[test]
fn supervisor_ignores_timeouts_and_unknown_pids() {
    let sup = fresh_pid();
    let mut table = table_with(sup);
    let mut names: Registry<Pid> = Registry::new();
    let spec = SupervisorSpec::new(RestartStrategy::OneForOne).child(mock_worker("a"));
    let mut s: Supervisor<MockStart, MockChildHandle> = Supervisor::new(spec);
    s.init(&mut table, &mut names, sup, sup).unwrap();
    assert_eq!(s.handle_info(SystemMessage::Timeout { id: 1 }, Span::from_secs(1), &mut table, sup), InfoResponse::NoReply);
    assert_eq!(
        s.handle_info(SystemMessage::Exit { pid: fresh_pid(), reason: ExitReason::Kill }, Span::from_secs(1), &mut table, sup),
        InfoResponse::NoReply
    );
}

#[test]
fn supervisor_teardown_stops_children_last_first() {
    let sup = fresh_pid();
    let mut table = table_with(sup);
    let mut names: Registry<Pid> = Registry::new();
    let spec = SupervisorSpec::new(RestartStrategy::OneForOne).child(mock_worker("a")).child(mock_worker("b"));
    let mut s: Supervisor<MockStart, MockChildHandle> = Supervisor::new(spec);
    s.init(&mut table, &mut names, sup, sup).unwrap();
    let stopped = s.teardown();
    assert_eq!(stopped.len(), 2);
    assert!(stopped[0].id > stopped[1].id);
    match s.handle_call(SupervisorCall::StartChild(mock_worker("c")), Span::from_secs(1), &mut table, sup) {
        CallResponse::Reply(SupervisorResponse::Error(SupervisorError::ShuttingDown)) => {},
        _ => panic!("expected ShuttingDown"),
    }
}

#[test]
fn supervisor_state_restart_unknown_child() {
    let mut table = table_with(fresh_pid());
    let mut st: SupervisorState<MockStart, MockChildHandle> = SupervisorState::new(SupervisorSpec::new(RestartStrategy::OneForOne));
    let sup = fresh_pid();
    assert_eq!(
        st.restart_child("nope", Span::from_secs(1), &mut table, sup),
        Err(SupervisorError::ChildNotFound("nope".to_string()))
    );
}

// ---------------------------------------------------------------------------
// Dynamic supervisor
// ---------------------------------------------------------------------------

#[test]
fn dynamic_supervisor_limits_children() {
    let sup = fresh_pid();
    let mut table = table_with(sup);
    let mut names: Registry<Pid> = Registry::new();
    let mut d: DynamicSupervisor<MockStart, MockChildHandle> =
        DynamicSupervisor::new(DynamicSupervisorSpec::new().max_children(1).name("dyn".to_string()));
    d.init(&mut table, &mut names, sup, sup);
    assert_eq!(registry::whereis(&names, "dyn"), Some(&sup));
    let first = match d.handle_call(DynamicSupervisorCall::StartChild(mock_worker("w")), &mut table, sup) {
        CallResponse::Reply(DynamicSupervisorResponse::Started(p)) => p,
        _ => panic!("expected Started"),
    };
    match d.handle_call(DynamicSupervisorCall::StartChild(mock_worker("w")), &mut table, sup) {
        CallResponse::Reply(DynamicSupervisorResponse::Error(DynamicSupervisorError::MaxChildrenReached)) => {},
        _ => panic!("expected MaxChildrenReached"),
    }
    match d.handle_call(DynamicSupervisorCall::CountChildren, &mut table, sup) {
        CallResponse::Reply(DynamicSupervisorResponse::Count(n)) => assert_eq!(n, 1),
        _ => panic!(),
    }
    match d.handle_call(DynamicSupervisorCall::TerminateChild(first), &mut table, sup) {
        CallResponse::Reply(DynamicSupervisorResponse::Completed) => {},
        _ => panic!("expected Completed"),
    }
    match d.handle_call(DynamicSupervisorCall::TerminateChild(first), &mut table, sup) {
        CallResponse::Reply(DynamicSupervisorResponse::Error(DynamicSupervisorError::ChildNotFound(p))) => assert_eq!(p, first),
        _ => panic!("expected ChildNotFound"),
    }
    assert_eq!(d.handle_cast(DynamicSupervisorCast::_Placeholder), CastResponse::NoReply);
}

#[test]
fn dynamic_supervisor_restarts_then_stops() {
    let sup = fresh_pid();
    let mut table = table_with(sup);
    let mut d: DynamicSupervisor<MockStart, MockChildHandle> =
        DynamicSupervisor::new(DynamicSupervisorSpec::new().max_restarts(1, Span::from_secs(60)));
    let p = match d.handle_call(DynamicSupervisorCall::StartChild(mock_worker("w")), &mut table, sup) {
        CallResponse::Reply(DynamicSupervisorResponse::Started(p)) => p,
        _ => panic!(),
    };
    let r = d.handle_info(SystemMessage::Exit { pid: p, reason: ExitReason::Kill }, Span::from_secs(1), &mut table, sup);
    assert_eq!(r, InfoResponse::NoReply);
    let p2 = match d.handle_call(DynamicSupervisorCall::WhichChildren, &mut table, sup) {
        CallResponse::Reply(DynamicSupervisorResponse::Children(v)) => {
            assert_eq!(v.len(), 1);
            v[0]
        },
        _ => panic!(),
    };
    assert_ne!(p2, p);
    let r = d.handle_info(SystemMessage::Exit { pid: p2, reason: ExitReason::Kill }, Span::from_secs(2), &mut table, sup);
    assert_eq!(r, InfoResponse::Stop);
}

#[test]
fn dynamic_supervisor_error_display() {
    assert_eq!(DynamicSupervisorError::ChildNotFound(Pid { id: 4 }).to_string(), "child with pid <0.4> not found");
    assert_eq!(DynamicSupervisorError::MaxRestartsExceeded.to_string(), "maximum restart intensity exceeded");
    assert_eq!(DynamicSupervisorError::MaxChildrenReached.to_string(), "maximum number of children reached");
    assert_eq!(DynamicSupervisorError::ShuttingDown.to_string(), "dynamic supervisor is shutting down");
}

#[test]
fn dynamic_spec_builders() {
    let s = DynamicSupervisorSpec::new();
    assert_eq!(s.max_restarts, 3);
    assert_eq!(s.max_seconds, Span::from_secs(5));
    assert_eq!(s.max_children, None);
    assert_eq!(s.name, None);
}

#[test]
fn one_for_all_shuts_down_last_started_first() {
    let sup = fresh_pid();
    let mut table = table_with(sup);
    let mut st: SupervisorState<MockStart, MockChildHandle> =
        SupervisorState::new(SupervisorSpec::new(RestartStrategy::OneForAll));
    let a = st.start_child(mock_worker("a"), &mut table, sup).unwrap();
    let b = st.start_child(mock_worker("b"), &mut table, sup).unwrap();
    let c = st.start_child(mock_worker("c"), &mut table, sup).unwrap();
    let (restart, stopped) = st.handle_child_exit(b, &ExitReason::Kill).unwrap();
    assert_eq!(restart, vec!["a".to_string(), "b".to_string(), "c".to_string()]);
    assert_eq!(stopped, vec![c, a]);
}

#[test]
fn rest_for_one_shuts_down_later_children_last_first() {
    let sup = fresh_pid();
    let mut table = table_with(sup);
    let mut st: SupervisorState<MockStart, MockChildHandle> =
        SupervisorState::new(SupervisorSpec::new(RestartStrategy::RestForOne));
    let a = st.start_child(mock_worker("a"), &mut table, sup).unwrap();
    let _b = st.start_child(mock_worker("b"), &mut table, sup).unwrap();
    let c = st.start_child(mock_worker("c"), &mut table, sup).unwrap();
    let d = st.start_child(mock_worker("d"), &mut table, sup).unwrap();
    let (restart, stopped) = st.handle_child_exit(_b, &ExitReason::Kill).unwrap();
    assert_eq!(restart, vec!["b".to_string(), "c".to_string(), "d".to_string()]);
    assert_eq!(stopped, vec![d, c]);
    let _ = a;
}

#[test]
fn one_for_all_restarting_up_to_the_limit_keeps_running() {
    let sup = fresh_pid();
    let mut table = table_with(sup);
    let mut names: Registry<Pid> = Registry::new();
    let b_starts = Arc::new(AtomicU32::new(0));
    let spec = SupervisorSpec::new(RestartStrategy::OneForAll)
        .max_restarts(4, Span::from_secs(60))
        .child(mock_worker("a"))
        .child(counted_worker("b", b_starts.clone()))
        .child(mock_worker("c"));
    let mut s: Supervisor<MockStart, MockChildHandle> = Supervisor::new(spec);
    s.init(&mut table, &mut names, sup, sup).unwrap();
    // one restart to learn b's pid, then three for the whole group: four,
    // exactly the budget, so all are granted and the supervisor runs on
    let b = pid_of(&mut s, &mut table, sup, "b");
    let r = s.handle_info(SystemMessage::Exit { pid: b, reason: ExitReason::Kill }, Span::from_secs(1), &mut table, sup);
    assert_eq!(r, InfoResponse::NoReply);
    assert_eq!(b_starts.load(Ordering::SeqCst), 3);
    // the budget is spent: the next restart is refused
    match s.handle_call(SupervisorCall::RestartChild("a".to_string()), Span::from_secs(2), &mut table, sup) {
        CallResponse::Reply(SupervisorResponse::Error(SupervisorError::MaxRestartsExceeded)) => {},
        _ => panic!("expected MaxRestartsExceeded"),
    }
}

use spawned_concurrency::supervisor::{
    ChildHandle, ChildSpec, ChildType, DynamicSupervisorSpec, RestartStrategy, StartChild, SupervisorSpec,
};
use spawned_concurrency::pid::Pid;
use spawned_concurrency::time::Span;

struct MockHandle;

impl ChildHandle for MockHandle {
    fn pid(&self) -> Pid {
        Pid { id: 1 }
    }
    fn shutdown(&self) {}
    fn is_alive(&self) -> bool {
        true
    }
}

struct MockServer;

impl StartChild<MockHandle> for MockServer {
    fn start(&self) -> MockHandle {
        MockHandle
    }
}

#[test]
fn test_child_spec_worker_macro() {
    let spec = ChildSpec::worker("test".to_string(), MockServer);
    assert_eq!(spec.id(), "test");
}

#[test]
fn test_child_spec_supervisor_macro() {
    let spec = ChildSpec::supervisor("test_sup".to_string(), MockServer);
    assert_eq!(spec.id(), "test_sup");
    assert_eq!(spec.child_type(), ChildType::Supervisor);
}

#[test]
fn test_supervisor_spec_macro() {
    let spec = SupervisorSpec::new(RestartStrategy::OneForOne).child(ChildSpec::worker("w1".to_string(), MockServer));
    assert_eq!(spec.strategy, RestartStrategy::OneForOne);
}

#[test]
fn test_supervisor_spec_with_max_restarts() {
    let spec = SupervisorSpec::new(RestartStrategy::OneForAll)
        .max_restarts(5, Span::from_secs(60))
        .child(ChildSpec::worker("w1".to_string(), MockServer));
    assert_eq!(spec.strategy, RestartStrategy::OneForAll);
    assert_eq!(spec.max_restarts, 5);
    assert_eq!(spec.max_seconds, Span::from_secs(60));
}

#[test]
fn macros_test_supervisor_spec_multiple_children() {
    let spec = SupervisorSpec::new(RestartStrategy::RestForOne)
        .child(ChildSpec::worker("w1".to_string(), MockServer))
        .child(ChildSpec::worker("w2".to_string(), MockServer))
        .child(ChildSpec::supervisor("sub".to_string(), MockServer));
    assert_eq!(spec.strategy, RestartStrategy::RestForOne);
    assert_eq!(spec.children.len(), 3);
}

#[test]
fn test_dynamic_supervisor_spec_macro() {
    let _spec = DynamicSupervisorSpec::new();
    // Just verify it compiles
}

#[test]
fn test_dynamic_supervisor_spec_with_max_children() {
    let spec = DynamicSupervisorSpec::new().max_children(50);
    assert_eq!(spec.max_children, Some(50));
}

#[test]
fn test_dynamic_supervisor_spec_with_max_restarts() {
    let spec = DynamicSupervisorSpec::new().max_restarts(10, Span::from_secs(60));
    assert_eq!(spec.max_restarts, 10);
}

#[test]
fn test_dynamic_supervisor_spec_with_both_options() {
    let spec = DynamicSupervisorSpec::new().max_children(100).max_restarts(5, Span::from_secs(30));
    assert_eq!(spec.max_children, Some(100));
}

use spawned_concurrency::ids::IdCounter;
use spawned_concurrency::monitor::MonitorRef;
use spawned_concurrency::pid::{ExitReason, Pid};
use spawned_concurrency::process_table::{
    all_processes, clear, demonitor, get_links, get_monitors, is_alive, is_trapping_exit, link, monitor, process_count,
    process_info, register, set_trap_exit, unlink, unregister, LinkError, ProcessTable, SystemMessageSender,
    SystemNotice, unregister_with_names,
};
use spawned_concurrency::registry::{self, Registry};
use std::sync::atomic::{AtomicBool, Ordering};
use std::sync::{Arc, RwLock};

/// Mock sender for testing
struct MockSender {
    alive: AtomicBool,
    down_received: RwLock<Vec<(Pid, MonitorRef, ExitReason)>>,
    exit_received: RwLock<Vec<(Pid, ExitReason)>>,
    kill_received: RwLock<Vec<ExitReason>>,
}

impl MockSender {
    fn new() -> Arc<Self> {
        Arc::new(Self {
            alive: AtomicBool::new(true),
            down_received: RwLock::new(Vec::new()),
            exit_received: RwLock::new(Vec::new()),
            kill_received: RwLock::new(Vec::new()),
        })
    }
}

/// The sender registered in the table: shares the mock's records.
struct Shared(Arc<MockSender>);

impl SystemMessageSender for Shared {
    fn send_down(&self, pid: Pid, monitor_ref: MonitorRef, reason: ExitReason) {
        self.0.down_received.write().unwrap().push((pid, monitor_ref, reason));
    }

    fn send_exit(&self, pid: Pid, reason: ExitReason) {
        self.0.exit_received.write().unwrap().push((pid, reason));
    }

    fn kill(&self, reason: ExitReason) {
        self.0.kill_received.write().unwrap().push(reason);
        self.0.alive.store(false, Ordering::SeqCst);
    }

    fn is_alive(&self) -> bool {
        self.0.alive.load(Ordering::SeqCst)
    }
}

fn table() -> (ProcessTable<Shared>, IdCounter) {
    (ProcessTable::new(), IdCounter::new())
}

#[test]
fn test_register_and_unregister() {
    let (mut t, mut ids) = table();
    let pid = Pid::new(&mut ids);
    let sender = MockSender::new();
    register(&mut t, pid, Shared(sender));
    assert!(is_alive(&t, pid));
    unregister(&mut t, pid, ExitReason::Normal);
    assert!(!is_alive(&t, pid));
}

#[test]
fn test_link_self_error() {
    let (mut t, mut ids) = table();
    let pid = Pid::new(&mut ids);
    register(&mut t, pid, Shared(MockSender::new()));
    let result = link(&mut t, pid, pid);
    assert_eq!(result, Err(LinkError::SelfLink));
    unregister(&mut t, pid, ExitReason::Normal);
}

#[test]
fn test_link_not_found_error() {
    let (mut t, mut ids) = table();
    let pid1 = Pid::new(&mut ids);
    let pid2 = Pid::new(&mut ids); // Not registered
    register(&mut t, pid1, Shared(MockSender::new()));
    let result = link(&mut t, pid1, pid2);
    assert_eq!(result, Err(LinkError::ProcessNotFound(pid2)));
    unregister(&mut t, pid1, ExitReason::Normal);
}

#[test]
fn test_link_and_unlink() {
    let (mut t, mut ids) = table();
    let pid1 = Pid::new(&mut ids);
    let pid2 = Pid::new(&mut ids);
    register(&mut t, pid1, Shared(MockSender::new()));
    register(&mut t, pid2, Shared(MockSender::new()));

    // Link
    assert!(link(&mut t, pid1, pid2).is_ok());
    assert!(get_links(&t, pid1).contains(&pid2));
    assert!(get_links(&t, pid2).contains(&pid1));

    // Unlink
    unlink(&mut t, pid1, pid2);
    assert!(!get_links(&t, pid1).contains(&pid2));
    assert!(!get_links(&t, pid2).contains(&pid1));
}

#[test]
fn test_monitor_and_demonitor() {
    let (mut t, mut ids) = table();
    let pid1 = Pid::new(&mut ids);
    let pid2 = Pid::new(&mut ids);
    register(&mut t, pid1, Shared(MockSender::new()));
    register(&mut t, pid2, Shared(MockSender::new()));

    // Monitor
    let monitor_ref = monitor(&mut t, pid1, pid2).0.unwrap();
    assert!(get_monitors(&t, pid2).contains(&monitor_ref));

    // Demonitor
    demonitor(&mut t, monitor_ref);
    assert!(!get_monitors(&t, pid2).contains(&monitor_ref));

    unregister(&mut t, pid1, ExitReason::Normal);
    unregister(&mut t, pid2, ExitReason::Normal);
}

#[test]
fn test_trap_exit() {
    let (mut t, mut ids) = table();
    let pid = Pid::new(&mut ids);
    register(&mut t, pid, Shared(MockSender::new()));

    assert!(!is_trapping_exit(&t, pid));
    set_trap_exit(&mut t, pid, true);
    assert!(is_trapping_exit(&t, pid));
    set_trap_exit(&mut t, pid, false);
    assert!(!is_trapping_exit(&t, pid));

    unregister(&mut t, pid, ExitReason::Normal);
}

#[test]
fn test_monitor_dead_process() {
    let (mut t, mut ids) = table();
    let pid1 = Pid::new(&mut ids);
    let pid2 = Pid::new(&mut ids); // Not registered (dead)
    let sender1 = MockSender::new();
    register(&mut t, pid1, Shared(sender1.clone()));

    // Monitor dead process should succeed and send immediate DOWN
    let monitor_ref = monitor(&mut t, pid1, pid2).0.unwrap();

    let downs = sender1.down_received.read().unwrap();
    assert_eq!(downs.len(), 1);
    assert_eq!(downs[0].0, pid2);
    assert_eq!(downs[0].1, monitor_ref);
}

#[test]
fn test_all_processes() {
    let (mut t, mut ids) = table();
    let pid1 = Pid::new(&mut ids);
    let pid2 = Pid::new(&mut ids);

    assert!(all_processes(&t).is_empty());

    register(&mut t, pid1, Shared(MockSender::new()));
    assert_eq!(all_processes(&t).len(), 1);
    assert!(all_processes(&t).contains(&pid1));

    register(&mut t, pid2, Shared(MockSender::new()));
    let all = all_processes(&t);
    assert_eq!(all.len(), 2);
    assert!(all.contains(&pid1));
    assert!(all.contains(&pid2));
}

#[test]
fn test_process_count() {
    let (mut t, mut ids) = table();
    assert_eq!(process_count(&t), 0);

    let pid1 = Pid::new(&mut ids);
    register(&mut t, pid1, Shared(MockSender::new()));
    assert_eq!(process_count(&t), 1);

    let pid2 = Pid::new(&mut ids);
    register(&mut t, pid2, Shared(MockSender::new()));
    assert_eq!(process_count(&t), 2);

    unregister(&mut t, pid1, ExitReason::Normal);
    assert_eq!(process_count(&t), 1);
}

#[test]
fn test_process_info_basic() {
    let (mut t, mut ids) = table();
    let pid = Pid::new(&mut ids);
    register(&mut t, pid, Shared(MockSender::new()));

    let info = process_info(&t, pid).unwrap();
    assert_eq!(info.pid, pid);
    assert!(!info.trap_exit);
    assert!(info.links.is_empty());
    assert!(info.monitors.is_empty());
    assert!(info.alive);
}

#[test]
fn test_process_info_nonexistent() {
    let (t, mut ids) = table();
    let pid = Pid::new(&mut ids);
    assert!(process_info(&t, pid).is_none());
}

#[test]
fn test_process_info_with_trap_exit() {
    let (mut t, mut ids) = table();
    let pid = Pid::new(&mut ids);
    register(&mut t, pid, Shared(MockSender::new()));
    set_trap_exit(&mut t, pid, true);

    let info = process_info(&t, pid).unwrap();
    assert!(info.trap_exit);
}

#[test]
fn test_process_info_with_links() {
    let (mut t, mut ids) = table();
    let pid1 = Pid::new(&mut ids);
    let pid2 = Pid::new(&mut ids);
    register(&mut t, pid1, Shared(MockSender::new()));
    register(&mut t, pid2, Shared(MockSender::new()));
    link(&mut t, pid1, pid2).unwrap();

    let info = process_info(&t, pid1).unwrap();
    assert!(info.links.contains(&pid2));
}

#[test]
fn test_process_info_with_monitors() {
    let (mut t, mut ids) = table();
    let pid1 = Pid::new(&mut ids);
    let pid2 = Pid::new(&mut ids);
    register(&mut t, pid1, Shared(MockSender::new()));
    register(&mut t, pid2, Shared(MockSender::new()));
    let monitor_ref = monitor(&mut t, pid1, pid2).0.unwrap();

    let info = process_info(&t, pid2).unwrap();
    assert!(info.monitors.contains(&monitor_ref));
}

#[test]
fn test_exit_normal_to_self() {
    let (mut t, mut ids) = table();
    let pid = Pid::new(&mut ids);
    let sender = MockSender::new();
    register(&mut t, pid, Shared(sender.clone()));

    // Normal exit should not kill anything
    unregister(&mut t, pid, ExitReason::Normal);
    assert!(sender.kill_received.read().unwrap().is_empty());
}

#[test]
fn test_exit_error_kills_non_trapping_process() {
    let (mut t, mut ids) = table();
    let pid1 = Pid::new(&mut ids);
    let pid2 = Pid::new(&mut ids);
    let sender2 = MockSender::new();
    register(&mut t, pid1, Shared(MockSender::new()));
    register(&mut t, pid2, Shared(sender2.clone()));
    link(&mut t, pid1, pid2).unwrap();

    // Error exit should kill linked process
    unregister(&mut t, pid1, ExitReason::Error("test error".to_string()));
    assert!(!sender2.kill_received.read().unwrap().is_empty());
}

#[test]
fn test_exit_error_is_trapped_when_trapping() {
    let (mut t, mut ids) = table();
    let pid1 = Pid::new(&mut ids);
    let pid2 = Pid::new(&mut ids);
    let sender2 = MockSender::new();
    register(&mut t, pid1, Shared(MockSender::new()));
    register(&mut t, pid2, Shared(sender2.clone()));
    link(&mut t, pid1, pid2).unwrap();
    set_trap_exit(&mut t, pid2, true);

    // Error exit should be trapped, not kill
    unregister(&mut t, pid1, ExitReason::Error("test error".to_string()));
    assert!(sender2.kill_received.read().unwrap().is_empty());
    assert!(!sender2.exit_received.read().unwrap().is_empty());
}

#[test]
fn test_exit_normal_to_other_is_ignored() {
    let (mut t, mut ids) = table();
    let pid1 = Pid::new(&mut ids);
    let pid2 = Pid::new(&mut ids);
    let sender2 = MockSender::new();
    register(&mut t, pid1, Shared(MockSender::new()));
    register(&mut t, pid2, Shared(sender2.clone()));
    link(&mut t, pid1, pid2).unwrap();

    // Normal exit should not kill or notify linked process
    unregister(&mut t, pid1, ExitReason::Normal);
    assert!(sender2.kill_received.read().unwrap().is_empty());
    assert!(sender2.exit_received.read().unwrap().is_empty());
}

#[test]
fn test_exit_to_nonexistent_process() {
    // Should not panic
    let (mut t, mut ids) = table();
    unregister(&mut t, Pid::new(&mut ids), ExitReason::Normal);
}

#[test]
fn test_exit_self_convenience() {
    let (mut t, mut ids) = table();
    let pid = Pid::new(&mut ids);
    register(&mut t, pid, Shared(MockSender::new()));

    // Just test that unregister works as self-exit
    unregister(&mut t, pid, ExitReason::Normal);
    assert!(!is_alive(&t, pid));
}

#[test]
fn test_exit_shutdown_behavior() {
    let (mut t, mut ids) = table();
    let pid1 = Pid::new(&mut ids);
    let pid2 = Pid::new(&mut ids);
    let sender2 = MockSender::new();
    register(&mut t, pid1, Shared(MockSender::new()));
    register(&mut t, pid2, Shared(sender2.clone()));
    link(&mut t, pid1, pid2).unwrap();

    // Shutdown is considered normal/graceful, should NOT propagate
    unregister(&mut t, pid1, ExitReason::Shutdown);
    assert!(sender2.kill_received.read().unwrap().is_empty());
}

#[test]
fn test_exit_kill_is_untrappable() {
    let (mut t, mut ids) = table();
    let pid1 = Pid::new(&mut ids);
    let pid2 = Pid::new(&mut ids);
    let sender2 = MockSender::new();
    register(&mut t, pid1, Shared(MockSender::new()));
    register(&mut t, pid2, Shared(sender2.clone()));
    link(&mut t, pid1, pid2).unwrap();
    set_trap_exit(&mut t, pid2, true);

    // Kill exit should still be propagated (untrappable)
    unregister(&mut t, pid1, ExitReason::Kill);
    // Kill is treated like an abnormal exit so it should propagate via EXIT message
    // when trapping, not via kill
    assert!(!sender2.exit_received.read().unwrap().is_empty());
}

#[test]
fn unregister_reports_notices_and_cleans_up() {
    let (mut t, mut ids) = table();
    let a = Pid::new(&mut ids);
    let b = Pid::new(&mut ids);
    let c = Pid::new(&mut ids);
    register(&mut t, a, Shared(MockSender::new()));
    register(&mut t, b, Shared(MockSender::new()));
    register(&mut t, c, Shared(MockSender::new()));
    link(&mut t, a, b).unwrap();
    let m = monitor(&mut t, c, a).0.unwrap();
    let notices = unregister(&mut t, a, ExitReason::Kill);
    assert_eq!(
        notices,
        vec![
            SystemNotice::Kill { to: b, reason: ExitReason::Linked { pid: a, reason: Box::new(ExitReason::Kill) } },
            SystemNotice::Down { to: c, from: a, monitor_ref: m, reason: ExitReason::Kill },
        ]
    );
    assert!(get_links(&t, b).is_empty());
    assert!(get_monitors(&t, a).is_empty());
    clear(&mut t);
    assert_eq!(process_count(&t), 0);
}

#[test]
fn link_error_display() {
    assert_eq!(LinkError::SelfLink.to_string(), "cannot link a process to itself");
    assert_eq!(LinkError::ProcessNotFound(Pid { id: 7 }).to_string(), "process <0.7> not found");
}

#[test]
fn monitor_returns_the_immediate_down() {
    let (mut t, mut ids) = table();
    let watcher = Pid::new(&mut ids);
    let live = Pid::new(&mut ids);
    let dead = Pid::new(&mut ids);
    let stranger = Pid::new(&mut ids);
    register(&mut t, watcher, Shared(MockSender::new()));
    register(&mut t, live, Shared(MockSender::new()));
    let (r, notices) = monitor(&mut t, watcher, dead);
    let m = r.unwrap();
    assert_eq!(notices, vec![SystemNotice::Down { to: watcher, from: dead, monitor_ref: m, reason: ExitReason::Normal }]);
    assert!(!get_monitors(&t, dead).contains(&m));
    let (r, notices) = monitor(&mut t, watcher, live);
    assert!(get_monitors(&t, live).contains(&r.unwrap()));
    assert!(notices.is_empty());
    let (r, notices) = monitor(&mut t, stranger, live);
    assert_eq!(r, Err(LinkError::ProcessNotFound(stranger)));
    assert!(notices.is_empty());
}

#[test]
fn unregister_with_names_forgets_the_names_of_the_process() {
    let (mut t, mut ids) = table();
    let pid = Pid::new(&mut ids);
    let other = Pid::new(&mut ids);
    register(&mut t, pid, Shared(MockSender::new()));
    register(&mut t, other, Shared(MockSender::new()));
    let mut names: Registry<(Option<Pid>, ())> = Registry::new();
    registry::register(&mut names, "server", (Some(pid), ())).unwrap();
    registry::register(&mut names, "peer", (Some(other), ())).unwrap();
    unregister_with_names(&mut t, &mut names, pid, ExitReason::Normal);
    assert!(!is_alive(&t, pid));
    assert_eq!(registry::registered(&names), vec!["peer".to_string()]);
}

use spawned_concurrency::child_handle::ActorId;
use spawned_concurrency::error::ExitReason;
use spawned_concurrency::ids::IdCounter;
use spawned_concurrency::link::{
    add_link, exit_signal, new_link_table, new_linked_exit_reason, new_trap_exit_flag, register_link,
    resolve_exit_reason, take_entries, take_self_from_peer_table, unregister_link, Exit, ExitSignal, LinkTable,
};

#[test]
fn exit_is_clone_and_eq() {
    let mut ids = IdCounter::new();
    let e1 = Exit { from: ActorId::next(&mut ids), reason: ExitReason::Normal };
    let e2 = e1.clone();
    assert_eq!(e1, e2);
}

#[test]
fn empty_table_is_default() {
    let table: LinkTable<()> = new_link_table();
    assert!(table.is_empty());
}

#[test]
fn trap_exit_flag_defaults_to_false() {
    let flag = new_trap_exit_flag();
    assert!(!flag);
}

#[test]
fn take_self_from_peer_table_returns_true_when_present() {
    let mut ids = IdCounter::new();
    let mut peer_links: LinkTable<()> = new_link_table();
    let own_id = ActorId::next(&mut ids);
    // Insert a fake entry for own_id
    assert!(add_link(&mut peer_links, own_id, ()));
    // First call: present, returns true and removes
    assert!(take_self_from_peer_table(own_id, &mut peer_links));
    // Second call: gone, returns false
    assert!(!take_self_from_peer_table(own_id, &mut peer_links));
    assert!(peer_links.is_empty());
}

#[test]
fn take_self_from_peer_table_returns_false_when_absent() {
    let mut ids = IdCounter::new();
    let mut peer_links: LinkTable<()> = new_link_table();
    let own_id = ActorId::next(&mut ids);
    // Empty table — no entry for own_id
    assert!(!take_self_from_peer_table(own_id, &mut peer_links));
}

#[test]
fn linked_exit_reason_starts_empty() {
    assert_eq!(new_linked_exit_reason(), None);
}

#[test]
fn register_link_is_bidirectional_and_idempotent() {
    let a = ActorId(1);
    let b = ActorId(2);
    let mut la: LinkTable<&str> = new_link_table();
    let mut lb: LinkTable<&str> = new_link_table();
    register_link(a, &mut la, "sig-a", b, &mut lb, "sig-b");
    assert!(la.contains_peer(b));
    assert!(lb.contains_peer(a));
    register_link(a, &mut la, "sig-a", b, &mut lb, "sig-b");
    assert_eq!(la.len(), 1);
    assert_eq!(lb.len(), 1);
    assert_eq!(la.peer_ids(), vec![b]);
    unregister_link(a, &mut la, b, &mut lb);
    assert!(la.is_empty());
    assert!(lb.is_empty());
}

#[test]
fn take_entries_drains_in_link_order() {
    let mut t: LinkTable<u8> = new_link_table();
    add_link(&mut t, ActorId(5), 1);
    add_link(&mut t, ActorId(3), 2);
    let entries = take_entries(&mut t);
    assert_eq!(entries.len(), 2);
    assert_eq!(entries[0].peer_id, ActorId(5));
    assert_eq!(entries[1].peer, 2);
    assert!(t.is_empty());
}

#[test]
fn kill_signal_cancels_even_trapping_actor() {
    let mut slot = None;
    let action = exit_signal(true, &mut slot, ActorId(1), ExitReason::Kill);
    assert_eq!(action, ExitSignal::Cancel);
    assert_eq!(slot, Some(ExitReason::Kill));
}

#[test]
fn normal_signal_ignored_by_non_trapping_actor() {
    let mut slot = None;
    let action = exit_signal(false, &mut slot, ActorId(1), ExitReason::Normal);
    assert_eq!(action, ExitSignal::Ignore);
    assert_eq!(slot, None);
}

#[test]
fn trapping_actor_gets_exit_message() {
    let mut slot = None;
    let action = exit_signal(true, &mut slot, ActorId(9), ExitReason::Panic("boom".to_string()));
    assert_eq!(
        action,
        ExitSignal::Deliver(Exit { from: ActorId(9), reason: ExitReason::Panic("boom".to_string()) })
    );
    assert_eq!(slot, None);
}

#[test]
fn non_trapping_actor_records_first_reason() {
    let mut slot = None;
    assert_eq!(exit_signal(false, &mut slot, ActorId(1), ExitReason::Shutdown), ExitSignal::Cancel);
    assert_eq!(slot, Some(ExitReason::Shutdown));
    assert_eq!(exit_signal(false, &mut slot, ActorId(2), ExitReason::Panic("later".to_string())), ExitSignal::Cancel);
    assert_eq!(slot, Some(ExitReason::Shutdown));
}

#[test]
fn resolve_takes_linked_reason_on_normal_exit() {
    let mut slot = Some(ExitReason::Kill);
    assert_eq!(resolve_exit_reason(ExitReason::Normal, &mut slot), ExitReason::Kill);
    assert_eq!(slot, None);
    let mut slot = Some(ExitReason::Kill);
    assert_eq!(resolve_exit_reason(ExitReason::Panic("p".to_string()), &mut slot), ExitReason::Panic("p".to_string()));
    assert_eq!(slot, Some(ExitReason::Kill));
}

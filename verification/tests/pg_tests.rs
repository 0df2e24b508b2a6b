use spawned_concurrency::pg::{
    all_groups, clear, get_members, is_member, join, join_or_ignore, leave, leave_all, leave_or_ignore, member_count,
    which_groups, PgError, PgInner,
};
use spawned_concurrency::ids::IdCounter;
use spawned_concurrency::pid::Pid;

#[test]
fn test_join_and_get_members() {
    let mut reg = PgInner::new();
    let mut ids = IdCounter::new();
    let pid1 = Pid::new(&mut ids);
    let pid2 = Pid::new(&mut ids);

    join(&mut reg, "test_group_1".to_string(), pid1).unwrap();
    join(&mut reg, "test_group_1".to_string(), pid2).unwrap();

    let members = get_members(&reg, "test_group_1");
    assert!(members.contains(&pid1));
    assert!(members.contains(&pid2));
    assert_eq!(members.len(), 2);

    // Cleanup
    leave_all(&mut reg, pid1);
    leave_all(&mut reg, pid2);
}

#[test]
fn test_join_already_member() {
    let mut reg = PgInner::new();
    let mut ids = IdCounter::new();
    let pid = Pid::new(&mut ids);

    join(&mut reg, "test_group_2".to_string(), pid).unwrap();
    let result = join(&mut reg, "test_group_2".to_string(), pid);
    assert_eq!(result, Err(PgError::AlreadyMember));

    // Cleanup
    leave_all(&mut reg, pid);
}

#[test]
fn test_join_or_ignore() {
    let mut reg = PgInner::new();
    let mut ids = IdCounter::new();
    let pid = Pid::new(&mut ids);

    join_or_ignore(&mut reg, "test_group_3".to_string(), pid);
    join_or_ignore(&mut reg, "test_group_3".to_string(), pid); // Should not panic

    assert!(is_member(&reg, "test_group_3", pid));

    // Cleanup
    leave_all(&mut reg, pid);
}

#[test]
fn test_leave() {
    let mut reg = PgInner::new();
    let mut ids = IdCounter::new();
    let pid = Pid::new(&mut ids);

    join(&mut reg, "test_group_4".to_string(), pid).unwrap();
    assert!(is_member(&reg, "test_group_4", pid));

    leave(&mut reg, "test_group_4", pid).unwrap();
    assert!(!is_member(&reg, "test_group_4", pid));
}

#[test]
fn test_leave_not_member() {
    let mut reg = PgInner::new();
    let mut ids = IdCounter::new();
    let pid = Pid::new(&mut ids);
    let result = leave(&mut reg, "nonexistent_group", pid);
    assert_eq!(result, Err(PgError::NotMember));
}

#[test]
fn test_leave_or_ignore() {
    let mut reg = PgInner::new();
    let mut ids = IdCounter::new();
    let pid = Pid::new(&mut ids);
    leave_or_ignore(&mut reg, "nonexistent_group_2", pid); // Should not panic
}

#[test]
fn test_leave_all() {
    let mut reg = PgInner::new();
    let mut ids = IdCounter::new();
    let pid = Pid::new(&mut ids);

    join(&mut reg, "group_a".to_string(), pid).unwrap();
    join(&mut reg, "group_b".to_string(), pid).unwrap();
    join(&mut reg, "group_c".to_string(), pid).unwrap();

    assert_eq!(which_groups(&reg, pid).len(), 3);

    leave_all(&mut reg, pid);

    assert!(which_groups(&reg, pid).is_empty());
    assert!(!is_member(&reg, "group_a", pid));
    assert!(!is_member(&reg, "group_b", pid));
    assert!(!is_member(&reg, "group_c", pid));
}

#[test]
fn test_which_groups() {
    let mut reg = PgInner::new();
    let mut ids = IdCounter::new();
    let pid = Pid::new(&mut ids);

    join(&mut reg, "test_which_1".to_string(), pid).unwrap();
    join(&mut reg, "test_which_2".to_string(), pid).unwrap();

    let groups = which_groups(&reg, pid);
    assert!(groups.contains(&"test_which_1".to_string()));
    assert!(groups.contains(&"test_which_2".to_string()));
    assert_eq!(groups.len(), 2);

    // Cleanup
    leave_all(&mut reg, pid);
}

#[test]
fn test_is_member() {
    let mut reg = PgInner::new();
    let mut ids = IdCounter::new();
    let pid = Pid::new(&mut ids);
    let other_pid = Pid::new(&mut ids);

    join(&mut reg, "test_is_member".to_string(), pid).unwrap();

    assert!(is_member(&reg, "test_is_member", pid));
    assert!(!is_member(&reg, "test_is_member", other_pid));
    assert!(!is_member(&reg, "nonexistent", pid));

    // Cleanup
    leave_all(&mut reg, pid);
}

#[test]
fn test_member_count() {
    let mut reg = PgInner::new();
    let mut ids = IdCounter::new();
    let pid1 = Pid::new(&mut ids);
    let pid2 = Pid::new(&mut ids);
    let pid3 = Pid::new(&mut ids);

    assert_eq!(member_count(&reg, "test_count"), 0);

    join(&mut reg, "test_count".to_string(), pid1).unwrap();
    assert_eq!(member_count(&reg, "test_count"), 1);

    join(&mut reg, "test_count".to_string(), pid2).unwrap();
    assert_eq!(member_count(&reg, "test_count"), 2);

    join(&mut reg, "test_count".to_string(), pid3).unwrap();
    assert_eq!(member_count(&reg, "test_count"), 3);

    leave(&mut reg, "test_count", pid1).unwrap();
    assert_eq!(member_count(&reg, "test_count"), 2);

    // Cleanup
    leave_all(&mut reg, pid2);
    leave_all(&mut reg, pid3);
}

#[test]
fn test_get_members_empty_group() {
    let reg = PgInner::new();
    let members = get_members(&reg, "nonexistent_group_99");
    assert!(members.is_empty());
}

#[test]
fn test_all_groups() {
    let mut reg = PgInner::new();
    let mut ids = IdCounter::new();
    let pid = Pid::new(&mut ids);

    join(&mut reg, "all_groups_test_1".to_string(), pid).unwrap();
    join(&mut reg, "all_groups_test_2".to_string(), pid).unwrap();

    let groups = all_groups(&reg);
    assert!(groups.contains(&"all_groups_test_1".to_string()));
    assert!(groups.contains(&"all_groups_test_2".to_string()));

    // Cleanup
    leave_all(&mut reg, pid);
}

#[test]
fn test_empty_group_removed() {
    let mut reg = PgInner::new();
    let mut ids = IdCounter::new();
    let pid = Pid::new(&mut ids);

    join(&mut reg, "test_empty_removal".to_string(), pid).unwrap();
    assert!(all_groups(&reg).contains(&"test_empty_removal".to_string()));

    leave(&mut reg, "test_empty_removal", pid).unwrap();

    // Group should be removed when empty
    assert!(!all_groups(&reg).contains(&"test_empty_removal".to_string()));
}

#[test]
fn test_multiple_processes_multiple_groups() {
    let mut reg = PgInner::new();
    let mut ids = IdCounter::new();
    let pid1 = Pid::new(&mut ids);
    let pid2 = Pid::new(&mut ids);
    let pid3 = Pid::new(&mut ids);

    // pid1 in groups A and B
    join(&mut reg, "multi_test_A".to_string(), pid1).unwrap();
    join(&mut reg, "multi_test_B".to_string(), pid1).unwrap();

    // pid2 in groups B and C
    join(&mut reg, "multi_test_B".to_string(), pid2).unwrap();
    join(&mut reg, "multi_test_C".to_string(), pid2).unwrap();

    // pid3 only in group A
    join(&mut reg, "multi_test_A".to_string(), pid3).unwrap();

    // Check group A
    let group_a = get_members(&reg, "multi_test_A");
    assert!(group_a.contains(&pid1));
    assert!(group_a.contains(&pid3));
    assert!(!group_a.contains(&pid2));

    // Check group B
    let group_b = get_members(&reg, "multi_test_B");
    assert!(group_b.contains(&pid1));
    assert!(group_b.contains(&pid2));
    assert!(!group_b.contains(&pid3));

    // Check group C
    let group_c = get_members(&reg, "multi_test_C");
    assert!(group_c.contains(&pid2));
    assert!(!group_c.contains(&pid1));
    assert!(!group_c.contains(&pid3));

    // Cleanup
    leave_all(&mut reg, pid1);
    leave_all(&mut reg, pid2);
    leave_all(&mut reg, pid3);
}

#[test]
fn test_pg_error_display() {
    assert_eq!(PgError::AlreadyMember.to_string(), "process is already a member of this group");
    assert_eq!(PgError::NotMember.to_string(), "process is not a member of this group");
}

#[test]
fn pg_clear_forgets_everything() {
    let mut reg = PgInner::new();
    join(&mut reg, "g".to_string(), Pid { id: 1 }).unwrap();
    clear(&mut reg);
    assert!(all_groups(&reg).is_empty());
    assert_eq!(member_count(&reg, "g"), 0);
}

#[test]
fn members_listed_in_join_order() {
    let mut reg = PgInner::new();
    join(&mut reg, "g".to_string(), Pid { id: 9 }).unwrap();
    join(&mut reg, "g".to_string(), Pid { id: 4 }).unwrap();
    assert_eq!(get_members(&reg, "g"), vec![Pid { id: 9 }, Pid { id: 4 }]);
}

use spawned_concurrency::application::{ApplicationError, ApplicationTable};
use spawned_concurrency::pid::Pid;

#[test]
fn application_start_stop_cycle() {
    let mut apps: ApplicationTable<&str> = ApplicationTable::new();
    let pid = apps.start(1, "test_app", || Ok(("handle", Pid { id: 42 }))).unwrap();
    assert_eq!(pid, Pid { id: 42 });
    assert!(apps.is_running(1));
    assert_eq!(apps.whereis(1), Some(Pid { id: 42 }));
    assert_eq!(apps.get_handle(1), Some(&"handle"));

    // Starting again is refused without calling the start function
    let again = apps.start(1, "test_app", || -> Result<(&str, Pid), ApplicationError> { panic!("must not start") });
    assert_eq!(again, Err(ApplicationError::AlreadyStarted("test_app".to_string())));

    let app = apps.stop(1, "test_app").unwrap();
    assert_eq!(app.pid, Pid { id: 42 });
    assert!(!apps.is_running(1));
    assert_eq!(apps.whereis(1), None);
    assert!(apps.get_handle(1).is_none());
    assert!(matches!(apps.stop(1, "test_app"), Err(ApplicationError::NotRunning(name)) if name == "test_app"));
}

#[test]
fn multiple_applications_listed() {
    let mut apps: ApplicationTable<u8> = ApplicationTable::new();
    let p1 = apps.start(1, "test_app", || Ok((1, Pid { id: 1 }))).unwrap();
    let p2 = apps.start(2, "another_app", || Ok((2, Pid { id: 2 }))).unwrap();
    assert_ne!(p1, p2);
    let running = apps.which_applications();
    assert_eq!(running.len(), 2);
    assert!(running.contains(&"test_app".to_string()));
    assert!(running.contains(&"another_app".to_string()));
    apps.clear();
    assert!(apps.which_applications().is_empty());
}

#[test]
fn failed_start_is_not_recorded() {
    let mut apps: ApplicationTable<u8> = ApplicationTable::new();
    let r = apps.start(3, "broken", || Err(ApplicationError::StartFailed("oops".to_string())));
    assert_eq!(r, Err(ApplicationError::StartFailed("oops".to_string())));
    assert!(!apps.is_running(3));
}

use psy::names::NameMap;
use psy::process::{calculate_backoff, should_restart, validate_name, ProcessEntry};
use psy::protocol::RestartPolicy;
use psy::time::Duration;
// -- validate_name -------------------------------------------------------

#[test]
fn valid_names() {
    assert!(validate_name("a"));
    assert!(validate_name("myapp"));
    assert!(validate_name("my-app"));
    assert!(validate_name("my_app"));
    assert!(validate_name("App123"));
    assert!(validate_name("a1-b2_c3"));
    assert!(validate_name("X"));
    assert!(validate_name("0"));
}

#[test]
fn invalid_names() {
    assert!(!validate_name(""));
    assert!(!validate_name("-start"));
    assert!(!validate_name("_start"));
    assert!(!validate_name("has space"));
    assert!(!validate_name("has.dot"));
    assert!(!validate_name("has/slash"));
    // 64 characters is too long (max 63)
    let long_name = "a".repeat(64);
    assert!(!validate_name(&long_name));
    // 63 characters is fine
    let max_name = "a".repeat(63);
    assert!(validate_name(&max_name));
}

// -- calculate_backoff ---------------------------------------------------

#[test]
fn backoff_values() {
    assert_eq!(calculate_backoff(0), Duration::from_secs(1));
    assert_eq!(calculate_backoff(1), Duration::from_secs(2));
    assert_eq!(calculate_backoff(2), Duration::from_secs(4));
    assert_eq!(calculate_backoff(3), Duration::from_secs(8));
    assert_eq!(calculate_backoff(4), Duration::from_secs(16));
    // Capped at 16s
    assert_eq!(calculate_backoff(5), Duration::from_secs(16));
    assert_eq!(calculate_backoff(100), Duration::from_secs(16));
}

// -- should_restart ------------------------------------------------------

fn make_entry(policy: RestartPolicy, restarts: u32) -> ProcessEntry {
    let mut e = ProcessEntry::new(
        "test".into(),
        vec!["echo".into()],
        NameMap::new(),
        policy,
        false,
    );
    e.restarts = restarts;
    e
}

#[test]
fn no_restart_policy() {
    let entry = make_entry(RestartPolicy::No, 0);
    assert!(!should_restart(&entry, Some(1)));
    assert!(!should_restart(&entry, Some(0)));
    assert!(!should_restart(&entry, None));
}

#[test]
fn always_restart_policy() {
    let entry = make_entry(RestartPolicy::Always, 0);
    assert!(should_restart(&entry, Some(0)));
    assert!(should_restart(&entry, Some(1)));
    assert!(should_restart(&entry, None));
}

#[test]
fn always_restart_max_reached() {
    let entry = make_entry(RestartPolicy::Always, 5);
    assert!(!should_restart(&entry, Some(1)));
}

#[test]
fn on_failure_restart_policy() {
    let entry = make_entry(RestartPolicy::OnFailure, 0);
    assert!(!should_restart(&entry, Some(0)));
    assert!(should_restart(&entry, Some(1)));
    assert!(should_restart(&entry, Some(137)));
    assert!(should_restart(&entry, None));
}

#[test]
fn on_failure_max_reached() {
    let entry = make_entry(RestartPolicy::OnFailure, 5);
    assert!(!should_restart(&entry, Some(1)));
}

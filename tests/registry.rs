use speedtester_rs::registry::{Registry, RegistryError};

fn name(s: &str) -> String {
    s.to_string()
}

#[test]
fn registry_scenario_two_ports() {
    let mut reg = Registry::new(9000, 9001, 30).unwrap();
    assert_eq!(reg.allocate(name("A"), 60, 0).unwrap().port, 9000);
    assert_eq!(reg.allocate(name("B"), 60, 0).unwrap().port, 9001);
    assert_eq!(reg.allocate(name("C"), 60, 0).err(), Some(RegistryError::Exhausted));
    reg.release(&name("A"));
    assert_eq!(reg.allocate(name("C"), 60, 0).unwrap().port, 9000);
}

#[test]
fn registry_second_allocate_is_duplicate() {
    let mut reg = Registry::new(9000, 9003, 10).unwrap();
    let r = reg.allocate(name("A"), 60, 100).unwrap();
    assert_eq!(r.client_name, "A");
    assert_eq!(r.created_at, 100);
    assert_eq!(r.expires_at, 160);
    assert_eq!(
        reg.allocate(name("A"), 60, 160).err(),
        Some(RegistryError::DuplicateReservation)
    );
    assert_eq!(reg.len(), 1);
    assert!(reg.pool().is_allocated(9000));
    assert!(!reg.pool().is_allocated(9001));
}

#[test]
fn registry_expired_reservation_is_replaced() {
    let mut reg = Registry::new(9000, 9003, 10).unwrap();
    reg.allocate(name("B"), 60, 0).unwrap();
    reg.allocate(name("A"), 5, 0).unwrap();
    let r = reg.allocate(name("A"), 60, 6).unwrap();
    assert_eq!(r.port, 9001);
    assert_eq!(r.expires_at, 66);
    assert_eq!(reg.len(), 2);
}

#[test]
fn registry_release_is_idempotent() {
    let mut reg = Registry::new(9000, 9001, 0).unwrap();
    reg.allocate(name("A"), 60, 0).unwrap();
    reg.release(&name("A"));
    reg.release(&name("A"));
    reg.release(&name("nobody"));
    assert_eq!(reg.len(), 0);
    assert!(!reg.pool().is_allocated(9000));
}

#[test]
fn registry_lookup_matches_client_and_port() {
    let mut reg = Registry::new(9000, 9001, 5).unwrap();
    reg.allocate(name("A"), 10, 0).unwrap();
    assert_eq!(reg.lookup(&name("A"), 9000, 15).unwrap().port, 9000);
    assert!(reg.lookup(&name("A"), 9001, 0).is_none());
    assert!(reg.lookup(&name("B"), 9000, 0).is_none());
    assert!(reg.lookup(&name("A"), 9000, 16).is_none());
}

#[test]
fn registry_zero_ttl_is_swept_after_grace() {
    let mut reg = Registry::new(9000, 9001, 30).unwrap();
    let r = reg.allocate(name("A"), 0, 1000).unwrap();
    assert_eq!(r.expires_at, r.created_at);
    reg.allocate(name("B"), 600, 1000).unwrap();
    assert!(reg.lookup(&name("A"), 9000, 1030).is_some());
    reg.sweep(1030);
    assert_eq!(reg.len(), 2);
    assert!(reg.lookup(&name("A"), 9000, 1031).is_none());
    reg.sweep(1031);
    assert_eq!(reg.len(), 1);
    assert!(!reg.pool().is_allocated(9000));
    assert!(reg.pool().is_allocated(9001));
    assert!(reg.lookup(&name("A"), 9000, 1031).is_none());
    assert!(reg.lookup(&name("B"), 9001, 1031).is_some());
}

#[test]
fn registry_grace_near_time_limit() {
    let mut reg = Registry::new(1, 1, u64::MAX).unwrap();
    reg.allocate(name("A"), 0, u64::MAX - 1).unwrap();
    assert!(reg.lookup(&name("A"), 1, u64::MAX).is_some());
    reg.sweep(u64::MAX);
    assert_eq!(reg.len(), 1);
}

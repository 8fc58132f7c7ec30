use speedtester_rs::api::{PubTestReport, StorageError, TestRequest, TestResults};
use speedtester_rs::coordinator::{CoordError, Coordinator};
use speedtester_rs::gate::Gate;
use speedtester_rs::ingest::{Pipeline, Rejection};
use speedtester_rs::registry::Registry;

fn request(client: &str) -> TestRequest {
    TestRequest { client_name: client.to_string() }
}

fn report(client: &str, port: u16, payload: &str) -> PubTestReport {
    PubTestReport {
        report: TestResults {
            client_name: client.to_string(),
            port,
            payload: payload.to_string(),
        },
    }
}

#[test]
fn coordinator_scenario_two_ports() {
    let mut c = Coordinator::new(9000, 9001, 60, 30, 8).unwrap();
    assert_eq!(c.handle_reserve(&request("A"), 0).unwrap().port_number, 9000);
    assert_eq!(c.handle_reserve(&request("B"), 0).unwrap().port_number, 9001);
    assert_eq!(c.handle_reserve(&request("C"), 0).err(), Some(CoordError::Exhausted));
    c.release(&"A".to_string());
    assert_eq!(c.handle_reserve(&request("C"), 0).unwrap().port_number, 9000);
}

#[test]
fn coordinator_rejects_empty_port_range() {
    assert!(Coordinator::new(9001, 9000, 60, 30, 8).is_none());
}

#[test]
fn coordinator_duplicate_reservation() {
    let mut c = Coordinator::new(9000, 9005, 60, 30, 8).unwrap();
    c.handle_reserve(&request("A"), 0).unwrap();
    assert_eq!(
        c.handle_reserve(&request("A"), 10).err(),
        Some(CoordError::DuplicateReservation)
    );
}

#[test]
fn coordinator_submission_is_idempotent() {
    let mut c = Coordinator::new(9000, 9001, 60, 30, 8).unwrap();
    c.handle_reserve(&request("A"), 0).unwrap();
    let sub = report("A", 9000, "{\"bps\": 940000000}");
    let record = c.begin_submit(&sub, 10).unwrap();
    assert_eq!(record.client_name, "A");
    assert_eq!(record.port, 9000);
    assert_eq!(record.measurement_payload, "{\"bps\": 940000000}");
    assert_eq!(record.received_at, 10);
    assert_eq!(c.complete_submit(&record, Ok(()), 11), Ok(()));
    assert!(!c.registry().pool().is_allocated(9000));
    assert_eq!(c.begin_submit(&sub, 12).err(), Some(CoordError::Duplicate));
    assert_eq!(c.complete_submit(&record, Ok(()), 12), Err(CoordError::Duplicate));
}

#[test]
fn coordinator_unknown_report_is_rejected() {
    let mut c = Coordinator::new(9000, 9001, 60, 30, 8).unwrap();
    c.handle_reserve(&request("A"), 0).unwrap();
    assert_eq!(
        c.begin_submit(&report("B", 9000, "x"), 1).err(),
        Some(CoordError::NoSuchReservation)
    );
    assert_eq!(
        c.begin_submit(&report("A", 9001, "x"), 1).err(),
        Some(CoordError::NoSuchReservation)
    );
    assert_eq!(
        c.begin_submit(&report("A", 9000, "x"), 91).err(),
        Some(CoordError::NoSuchReservation)
    );
}

#[test]
fn coordinator_failed_persist_keeps_reservation() {
    let mut c = Coordinator::new(9000, 9001, 60, 30, 8).unwrap();
    c.handle_reserve(&request("A"), 0).unwrap();
    let sub = report("A", 9000, "r");
    let record = c.begin_submit(&sub, 5).unwrap();
    assert_eq!(c.complete_submit(&record, Err(StorageError), 6), Err(CoordError::Storage));
    assert!(c.registry().pool().is_allocated(9000));
    assert!(c.lookup(&"A".to_string(), 9000, 6).is_some());
    let again = c.begin_submit(&sub, 7).unwrap();
    assert_eq!(c.complete_submit(&again, Ok(()), 8), Ok(()));
    assert!(!c.registry().pool().is_allocated(9000));
    assert!(c.lookup(&"A".to_string(), 9000, 8).is_none());
}

#[test]
fn coordinator_late_report_within_grace() {
    let mut c = Coordinator::new(9000, 9001, 60, 30, 8).unwrap();
    c.handle_reserve(&request("A"), 0).unwrap();
    let record = c.begin_submit(&report("A", 9000, "late"), 90).unwrap();
    assert_eq!(c.complete_submit(&record, Ok(()), 90), Ok(()));
}

#[test]
fn coordinator_sweep_reclaims_expired() {
    let mut c = Coordinator::new(9000, 9000, 0, 30, 8).unwrap();
    c.handle_reserve(&request("A"), 1000).unwrap();
    c.sweep(1030);
    assert!(c.registry().pool().is_allocated(9000));
    c.sweep(1031);
    assert!(!c.registry().pool().is_allocated(9000));
    assert!(c.lookup(&"A".to_string(), 9000, 1031).is_none());
    assert_eq!(c.handle_reserve(&request("B"), 1031).unwrap().port_number, 9000);
}

#[test]
fn coordinator_admission_ceiling() {
    let mut c = Coordinator::new(9000, 9001, 60, 30, 2).unwrap();
    assert_eq!(c.enter(), Ok(()));
    assert_eq!(c.enter(), Ok(()));
    assert_eq!(c.enter(), Err(CoordError::AdmissionRejected));
    c.finish();
    assert_eq!(c.enter(), Ok(()));
}

#[test]
fn gate_counts_in_flight() {
    let mut g = Gate::new(1);
    assert!(g.try_enter());
    assert_eq!(g.in_flight(), 1);
    assert!(!g.try_enter());
    g.leave();
    g.leave();
    assert_eq!(g.in_flight(), 0);
    assert_eq!(g.ceiling(), 1);
    let mut closed = Gate::new(0);
    assert!(!closed.try_enter());
}

#[test]
fn pipeline_rejections() {
    let mut reg = Registry::new(9000, 9001, 0).unwrap();
    let mut p = Pipeline::new();
    reg.allocate("A".to_string(), 10, 0).unwrap();
    let r = report("A", 9000, "m").report;
    let rec = p.check(&reg, &r, 1).unwrap();
    assert_eq!(p.commit(&mut reg, &rec, Err(StorageError), 1), Err(Rejection::Storage));
    assert!(!p.was_accepted(&"A".to_string(), 9000));
    assert_eq!(p.commit(&mut reg, &rec, Ok(()), 2), Ok(()));
    assert!(p.was_accepted(&"A".to_string(), 9000));
    assert_eq!(p.check(&reg, &r, 3).err(), Some(Rejection::Duplicate));
    let other = report("B", 9001, "m").report;
    assert_eq!(p.check(&reg, &other, 3).err(), Some(Rejection::NoSuchReservation));
}

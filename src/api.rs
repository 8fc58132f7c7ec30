use vstd::prelude::*;

verus! {

/// A client's request for a port to run a throughput test on.
pub struct TestRequest {
    pub client_name: String,
}

/// The port reserved for a client's test.
#[derive(Clone, Copy, Debug, PartialEq, Eq, Structural)]
pub struct TestReservation {
    pub port_number: u16,
}

/// The results of a test, as the client reports them: who ran it, on which
/// reserved port, and the measurement itself.
pub struct TestResults {
    pub client_name: String,
    pub port: u16,
    pub payload: String,
}

/// A report submitted by a client.
pub struct PubTestReport {
    pub report: TestResults,
}

/// The normalized record of an accepted report, as handed to storage.
pub struct TestReport {
    pub client_name: String,
    pub port: u16,
    pub measurement_payload: String,
    pub received_at: u64,
}

/// The storage collaborator failed to persist a record.
#[derive(Clone, Copy, Debug, PartialEq, Eq, Structural)]
pub struct StorageError;

} // verus!

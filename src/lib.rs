//! Coordination of network-throughput tests: clients reserve an exclusive port
//! from a fixed range, run their measurement elsewhere, and submit a report
//! that is checked, deduplicated and handed to storage, which closes the
//! reservation. Time is passed in as seconds; persistence is done by the
//! caller between `Coordinator::begin_submit` and
//! `Coordinator::complete_submit`.
use vstd::prelude::*;

pub mod api;
pub mod coordinator;
pub mod gate;
pub mod ingest;
pub mod pool;
pub mod registry;

verus! {

} // verus!

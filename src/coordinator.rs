use vstd::prelude::*;

use crate::api::{PubTestReport, StorageError, TestReport, TestRequest, TestReservation};
use crate::gate::{Gate, GateView};
use crate::ingest::{check_outcome, Pipeline, Rejection};
use crate::registry::{Registry, RegistryError, RegistryView, Reservation};

verus! {

/// The reasons a client can be turned away, each calling for its own retry
/// strategy.
#[derive(Clone, Copy, Debug, PartialEq, Eq, Structural)]
pub enum CoordError {
    /// No free port; retry after a backoff.
    Exhausted,
    /// The client holds an unexpired reservation already.
    DuplicateReservation,
    /// The report matches no reservation that takes a report.
    NoSuchReservation,
    /// The report was accepted before.
    Duplicate,
    /// Storage failed; resubmit.
    Storage,
    /// Too many operations in flight; retry after a backoff.
    AdmissionRejected,
}

pub open spec fn registry_error(e: RegistryError) -> CoordError {
    match e {
        RegistryError::DuplicateReservation => CoordError::DuplicateReservation,
        RegistryError::Exhausted => CoordError::Exhausted,
    }
}

pub open spec fn rejection_error(e: Rejection) -> CoordError {
    match e {
        Rejection::NoSuchReservation => CoordError::NoSuchReservation,
        Rejection::Duplicate => CoordError::Duplicate,
        Rejection::Storage => CoordError::Storage,
    }
}

/// The reply to a reservation request, given what the registry answered.
pub open spec fn reserve_reply(r: Result<Reservation, RegistryError>) -> Result<
    TestReservation,
    CoordError,
> {
    match r {
        Ok(res) => Ok(TestReservation { port_number: res.port }),
        Err(e) => Err(registry_error(e)),
    }
}

fn from_registry_error(e: RegistryError) -> (r: CoordError)
    ensures
        r == registry_error(e),
{
    match e {
        RegistryError::DuplicateReservation => CoordError::DuplicateReservation,
        RegistryError::Exhausted => CoordError::Exhausted,
    }
}

fn from_rejection(e: Rejection) -> (r: CoordError)
    ensures
        r == rejection_error(e),
{
    match e {
        Rejection::NoSuchReservation => CoordError::NoSuchReservation,
        Rejection::Duplicate => CoordError::Duplicate,
        Rejection::Storage => CoordError::Storage,
    }
}

/// The abstract state of a coordinator.
pub struct CoordinatorView {
    pub registry: RegistryView,
    pub accepted: Set<(Seq<char>, u16)>,
    pub gate: GateView,
    pub ttl: u64,
}

/// The single owner of the registry, the report pipeline and the admission
/// gate; every mutation goes through it.
pub struct Coordinator {
    registry: Registry,
    pipeline: Pipeline,
    gate: Gate,
    ttl: u64,
}

impl Coordinator {
    pub closed spec fn view(&self) -> CoordinatorView {
        CoordinatorView {
            registry: self.registry.view(),
            accepted: self.pipeline.view(),
            gate: self.gate.view(),
            ttl: self.ttl,
        }
    }

    pub closed spec fn wf(&self) -> bool {
        self.registry.wf()
    }

    /// A well-formed coordinator has a valid registry.
    pub proof fn lemma_wf_valid(&self)
        requires
            self.wf(),
        ensures
            self.view().registry.valid(),
    {
        self.registry.lemma_wf_valid();
    }

    /// A coordinator over the ports `[min_port, max_port]`, giving each
    /// reservation `ttl` and a report `grace` more, with at most `ceiling`
    /// operations in flight; `None` for an empty port range.
    pub fn new(min_port: u16, max_port: u16, ttl: u64, grace: u64, ceiling: u64) -> (r: Option<
        Coordinator,
    >)
        ensures
            r is None <==> min_port > max_port,
            r matches Some(c) ==> {
                &&& c.wf()
                &&& c.view().registry.pool.min_port == min_port
                &&& c.view().registry.pool.max_port == max_port
                &&& c.view().registry.pool.held == Set::<u16>::empty()
                &&& c.view().registry.entries == Seq::<Reservation>::empty()
                &&& c.view().registry.grace == grace
                &&& c.view().accepted == Set::<(Seq<char>, u16)>::empty()
                &&& c.view().gate == (GateView { in_flight: 0, ceiling })
                &&& c.view().ttl == ttl
            },
    {
        match Registry::new(min_port, max_port, grace) {
            None => None,
            Some(registry) => Some(
                Coordinator { registry, pipeline: Pipeline::new(), gate: Gate::new(ceiling), ttl },
            ),
        }
    }

    pub fn ttl(&self) -> (r: u64)
        ensures
            r == self.view().ttl,
    {
        self.ttl
    }

    pub fn registry(&self) -> (r: &Registry)
        ensures
            r.view() == self.view().registry,
            self.wf() ==> r.wf(),
    {
        &self.registry
    }

    /// Admits one operation, or refuses it when the ceiling is reached.
    pub fn enter(&mut self) -> (r: Result<(), CoordError>)
        requires
            old(self).wf(),
        ensures
            final(self).wf(),
            r is Ok <==> old(self).view().gate.in_flight < old(self).view().gate.ceiling,
            r matches Err(e) ==> e == CoordError::AdmissionRejected && final(self).view() == old(
                self,
            ).view(),
            r is Ok ==> final(self).view() == (CoordinatorView {
                gate: GateView {
                    in_flight: (old(self).view().gate.in_flight + 1) as u64,
                    ..old(self).view().gate
                },
                ..old(self).view()
            }),
    {
        if self.gate.try_enter() {
            Ok(())
        } else {
            Err(CoordError::AdmissionRejected)
        }
    }

    /// Ends one admitted operation.
    pub fn finish(&mut self)
        requires
            old(self).wf(),
        ensures
            final(self).wf(),
            final(self).view() == (CoordinatorView {
                gate: GateView {
                    in_flight: if old(self).view().gate.in_flight > 0 {
                        (old(self).view().gate.in_flight - 1) as u64
                    } else {
                        0
                    },
                    ..old(self).view().gate
                },
                ..old(self).view()
            }),
    {
        self.gate.leave();
    }

    /// Reserves a port for the requesting client at `now`, for the configured
    /// time to live.
    pub fn handle_reserve(&mut self, request: &TestRequest, now: u64) -> (r: Result<
        TestReservation,
        CoordError,
    >)
        requires
            old(self).wf(),
            now as int + old(self).view().ttl as int <= u64::MAX,
        ensures
            final(self).wf(),
            final(self).view().accepted == old(self).view().accepted,
            final(self).view().gate == old(self).view().gate,
            final(self).view().ttl == old(self).view().ttl,
            exists|rr: Result<Reservation, RegistryError>|
                {
                    &&& old(self).view().registry.allocate_post(
                        request.client_name@,
                        old(self).view().ttl,
                        now,
                        rr,
                        final(self).view().registry,
                    )
                    &&& r == reserve_reply(rr)
                },
    {
        let rr = self.registry.allocate(request.client_name.clone(), self.ttl, now);
        let ghost answered = rr;
        let r = match rr {
            Ok(res) => Ok(TestReservation { port_number: res.port }),
            Err(e) => Err(from_registry_error(e)),
        };
        assert(r == reserve_reply(answered));
        r
    }

    /// Checks a submitted report at `now`, changing nothing; on success, the
    /// record to persist before calling `complete_submit`.
    pub fn begin_submit(&self, submission: &PubTestReport, now: u64) -> (r: Result<
        TestReport,
        CoordError,
    >)
        requires
            self.wf(),
        ensures
            ({
                let outcome = check_outcome(
                    self.view().registry,
                    self.view().accepted,
                    submission.report.client_name@,
                    submission.report.port,
                    now,
                );
                match r {
                    Ok(rec) => {
                        &&& outcome is Ok
                        &&& rec.client_name@ == submission.report.client_name@
                        &&& rec.port == submission.report.port
                        &&& rec.measurement_payload@ == submission.report.payload@
                        &&& rec.received_at == now
                    },
                    Err(e) => exists|x: Rejection|
                        outcome == Err::<(), Rejection>(x) && e == rejection_error(x),
                }
            }),
    {
        match self.pipeline.check(&self.registry, &submission.report, now) {
            Ok(rec) => Ok(rec),
            Err(e) => Err(from_rejection(e)),
        }
    }

    /// Applies what storage answered for `record` at `now`: a failure changes
    /// nothing; a success closes the reservation if it still takes the report.
    pub fn complete_submit(
        &mut self,
        record: &TestReport,
        stored: Result<(), StorageError>,
        now: u64,
    ) -> (r: Result<(), CoordError>)
        requires
            old(self).wf(),
        ensures
            final(self).wf(),
            final(self).view().gate == old(self).view().gate,
            final(self).view().ttl == old(self).view().ttl,
            stored is Err ==> r == Err::<(), CoordError>(CoordError::Storage) && final(self).view()
                == old(self).view(),
            stored is Ok ==> {
                let outcome = check_outcome(
                    old(self).view().registry,
                    old(self).view().accepted,
                    record.client_name@,
                    record.port,
                    now,
                );
                &&& outcome is Ok ==> {
                    &&& r is Ok
                    &&& final(self).view().registry == old(self).view().registry.released(
                        record.client_name@,
                    )
                    &&& final(self).view().accepted == old(self).view().accepted.insert(
                        (record.client_name@, record.port),
                    )
                }
                &&& outcome matches Err(x) ==> {
                    &&& r == Err::<(), CoordError>(rejection_error(x))
                    &&& final(self).view() == old(self).view()
                }
            },
    {
        match self.pipeline.commit(&mut self.registry, record, stored, now) {
            Ok(()) => Ok(()),
            Err(e) => Err(from_rejection(e)),
        }
    }

    /// Looks up the reservation of `client_name` on `port` at `now`.
    pub fn lookup(&self, client_name: &String, port: u16, now: u64) -> (r: Option<Reservation>)
        requires
            self.wf(),
        ensures
            r is Some <==> self.view().registry.reachable(client_name@, port, now),
            r matches Some(x) ==> x == self.view().registry.entries[self.view().registry.client_index(
                client_name@,
            )],
    {
        self.registry.lookup(client_name, port, now)
    }

    /// Releases the reservation of `client_name`, if any.
    pub fn release(&mut self, client_name: &String)
        requires
            old(self).wf(),
        ensures
            final(self).wf(),
            final(self).view() == (CoordinatorView {
                registry: old(self).view().registry.released(client_name@),
                ..old(self).view()
            }),
    {
        self.registry.release(client_name);
    }

    /// Removes every reservation past expiry plus grace at `now`.
    pub fn sweep(&mut self, now: u64)
        requires
            old(self).wf(),
        ensures
            final(self).wf(),
            final(self).view().accepted == old(self).view().accepted,
            final(self).view().gate == old(self).view().gate,
            final(self).view().ttl == old(self).view().ttl,
            old(self).view().registry.swept(now, final(self).view().registry),
    {
        self.registry.sweep(now);
    }
}

} // verus!

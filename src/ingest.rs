use vstd::prelude::*;

use crate::api::{StorageError, TestReport, TestResults};
use crate::registry::{lemma_client_index, lemma_released_has_no_client, Registry, RegistryView};

verus! {

/// Why a submitted report was not accepted.
#[derive(Clone, Copy, Debug, PartialEq, Eq, Structural)]
pub enum Rejection {
    /// No reservation of the client on that port takes a report now.
    NoSuchReservation,
    /// A report for that reservation was already accepted.
    Duplicate,
    /// Storage failed; nothing changed and the client may resubmit.
    Storage,
}

/// The verdict on a report from `client` for `port` at `now`, given the
/// registry and the set of (client, port) pairs whose report was accepted: a
/// reservation that still takes a report goes first, then an earlier
/// acceptance makes it a duplicate.
pub open spec fn check_outcome(
    reg: RegistryView,
    accepted: Set<(Seq<char>, u16)>,
    client: Seq<char>,
    port: u16,
    now: u64,
) -> Result<(), Rejection> {
    if reg.reachable(client, port, now) {
        Ok(())
    } else if accepted.contains((client, port)) {
        Err(Rejection::Duplicate)
    } else {
        Err(Rejection::NoSuchReservation)
    }
}

/// Submission is idempotent: once a report that `Pipeline::check` accepts is
/// committed, the same report is refused as a duplicate at any later time, so
/// it is never handed to storage again.
pub proof fn lemma_submission_idempotent(
    reg: RegistryView,
    accepted: Set<(Seq<char>, u16)>,
    client: Seq<char>,
    port: u16,
    now: u64,
    later: u64,
)
    requires
        reg.valid(),
        check_outcome(reg, accepted, client, port, now) is Ok,
    ensures
        check_outcome(reg.released(client), accepted.insert((client, port)), client, port, later)
            == Err::<(), Rejection>(Rejection::Duplicate),
{
    lemma_released_has_no_client(reg, client);
    let w = reg.released(client);
    if w.reachable(client, port, later) {
        let k = choose|k: int|
            0 <= k < w.entries.len() && #[trigger] w.entries[k].client_name@ == client
                && w.entries[k].port == port && w.entries[k].reachable(later, w.grace);
        assert(w.has_client(client));
    }
}

/// No leak on a failed persist: the reservation of a report that
/// `Pipeline::check` accepts holds its port, and `Pipeline::commit` leaves it
/// as it is while storage fails; once a retry is stored and committed, the
/// port is free and the reservation gone.
pub proof fn lemma_failed_persist_then_retry(
    reg: RegistryView,
    accepted: Set<(Seq<char>, u16)>,
    client: Seq<char>,
    port: u16,
    now: u64,
)
    requires
        reg.valid(),
        check_outcome(reg, accepted, client, port, now) is Ok,
    ensures
        reg.pool.held.contains(port),
        !reg.released(client).pool.held.contains(port),
        !reg.released(client).has_client(client),
{
    let k = choose|k: int|
        0 <= k < reg.entries.len() && #[trigger] reg.entries[k].client_name@ == client
            && reg.entries[k].port == port && reg.entries[k].reachable(now, reg.grace);
    assert(reg.pool.held.contains(reg.entries[k].port));
    lemma_client_index(reg, k);
    lemma_released_has_no_client(reg, client);
}

/// Validates and deduplicates reports against the registry, and closes the
/// reservation of each report that storage has taken.
pub struct Pipeline {
    accepted: Vec<(String, u16)>,
}

impl Pipeline {
    /// The (client, port) pairs whose report was accepted.
    pub closed spec fn view(&self) -> Set<(Seq<char>, u16)> {
        Set::new(
            |k: (Seq<char>, u16)|
                exists|i: int|
                    0 <= i < self.accepted@.len() && #[trigger] self.accepted@[i].0@ == k.0
                        && self.accepted@[i].1 == k.1,
        )
    }

    pub fn new() -> (r: Pipeline)
        ensures
            r.view() == Set::<(Seq<char>, u16)>::empty(),
    {
        let r = Pipeline { accepted: Vec::new() };
        assert(r.view() =~= Set::<(Seq<char>, u16)>::empty());
        r
    }

    /// Whether a report of `client_name` for `port` was accepted.
    pub fn was_accepted(&self, client_name: &String, port: u16) -> (r: bool)
        ensures
            r == self.view().contains((client_name@, port)),
    {
        let mut i: usize = 0;
        while i < self.accepted.len()
            invariant
                i <= self.accepted@.len(),
                forall|j: int|
                    0 <= j < i ==> !(#[trigger] self.accepted@[j].0@ == client_name@
                        && self.accepted@[j].1 == port),
            decreases self.accepted@.len() - i,
        {
            if self.accepted[i].1 == port && self.accepted[i].0 == *client_name {
                assert(self.accepted@[i as int].0@ == client_name@);
                return true;
            }
            i = i + 1;
        }
        false
    }

    /// Checks a report at `now` without changing anything; on success, the
    /// record to hand to storage.
    pub fn check(&self, reg: &Registry, report: &TestResults, now: u64) -> (r: Result<
        TestReport,
        Rejection,
    >)
        requires
            reg.wf(),
        ensures
            match r {
                Ok(rec) => {
                    &&& check_outcome(reg.view(), self.view(), report.client_name@, report.port, now)
                        is Ok
                    &&& rec.client_name@ == report.client_name@
                    &&& rec.port == report.port
                    &&& rec.measurement_payload@ == report.payload@
                    &&& rec.received_at == now
                },
                Err(e) => check_outcome(
                    reg.view(),
                    self.view(),
                    report.client_name@,
                    report.port,
                    now,
                ) == Err::<(), Rejection>(e),
            },
    {
        if reg.lookup(&report.client_name, report.port, now).is_some() {
            Ok(
                TestReport {
                    client_name: report.client_name.clone(),
                    port: report.port,
                    measurement_payload: report.payload.clone(),
                    received_at: now,
                },
            )
        } else if self.was_accepted(&report.client_name, report.port) {
            Err(Rejection::Duplicate)
        } else {
            Err(Rejection::NoSuchReservation)
        }
    }

    /// Applies what storage answered for `record`. A failure changes nothing.
    /// A success, if the reservation still takes the report at `now`, closes
    /// it: the reservation is released and the pair counted as accepted.
    pub fn commit(
        &mut self,
        reg: &mut Registry,
        record: &TestReport,
        stored: Result<(), StorageError>,
        now: u64,
    ) -> (r: Result<(), Rejection>)
        requires
            old(reg).wf(),
        ensures
            final(reg).wf(),
            stored is Err ==> {
                &&& r == Err::<(), Rejection>(Rejection::Storage)
                &&& final(reg).view() == old(reg).view()
                &&& final(self).view() == old(self).view()
            },
            stored is Ok ==> r == check_outcome(
                old(reg).view(),
                old(self).view(),
                record.client_name@,
                record.port,
                now,
            ),
            stored is Ok && r is Ok ==> {
                &&& final(reg).view() == old(reg).view().released(record.client_name@)
                &&& final(self).view() == old(self).view().insert(
                    (record.client_name@, record.port),
                )
            },
            stored is Ok && r is Err ==> {
                &&& final(reg).view() == old(reg).view()
                &&& final(self).view() == old(self).view()
            },
    {
        if stored.is_err() {
            return Err(Rejection::Storage);
        }
        if reg.lookup(&record.client_name, record.port, now).is_none() {
            if self.was_accepted(&record.client_name, record.port) {
                return Err(Rejection::Duplicate);
            } else {
                return Err(Rejection::NoSuchReservation);
            }
        }
        reg.release(&record.client_name);
        let ghost before = self.view();
        let ghost acc0 = self.accepted@;
        if !self.was_accepted(&record.client_name, record.port) {
            self.accepted.push((record.client_name.clone(), record.port));
            assert(self.view().contains((record.client_name@, record.port))) by {
                assert(self.accepted@[self.accepted@.len() - 1].0@ == record.client_name@);
            }
            assert forall|k: (Seq<char>, u16)| #[trigger] before.contains(k) implies self.view().contains(k) by {
                let i = choose|i: int|
                    0 <= i < acc0.len() && #[trigger] acc0[i].0@ == k.0 && acc0[i].1 == k.1;
                assert(self.accepted@[i] == acc0[i]);
                assert(self.accepted@[i].0@ == k.0);
            }
            assert forall|k: (Seq<char>, u16)| #[trigger] self.view().contains(k) implies before.insert(
                (record.client_name@, record.port),
            ).contains(k) by {
                let i = choose|i: int|
                    0 <= i < self.accepted@.len() && #[trigger] self.accepted@[i].0@ == k.0
                        && self.accepted@[i].1 == k.1;
                if i < acc0.len() {
                    assert(acc0[i] == self.accepted@[i]);
                    assert(acc0[i].0@ == k.0);
                    assert(before.contains(k));
                }
            }
        }
        assert(self.view() =~= before.insert((record.client_name@, record.port)));
        Ok(())
    }
}

} // verus!

use vstd::prelude::*;

use crate::pool::{PoolView, PortPool};

verus! {

/// Why a reservation was refused.
#[derive(Clone, Copy, Debug, PartialEq, Eq, Structural)]
pub enum RegistryError {
    /// The client already holds a reservation that has not expired.
    DuplicateReservation,
    /// No port is free.
    Exhausted,
}

/// An exclusive claim on one port by one client, for a bounded time.
pub struct Reservation {
    pub client_name: String,
    pub port: u16,
    pub created_at: u64,
    pub expires_at: u64,
}

impl Clone for Reservation {
    fn clone(&self) -> (r: Self)
        ensures
            r == *self,
    {
        Reservation {
            client_name: self.client_name.clone(),
            port: self.port,
            created_at: self.created_at,
            expires_at: self.expires_at,
        }
    }
}

impl Reservation {
    /// Not past its nominal expiry.
    pub open spec fn unexpired(&self, now: u64) -> bool {
        now <= self.expires_at
    }

    /// Not past its expiry plus the grace period: a report is still taken.
    pub open spec fn reachable(&self, now: u64, grace: u64) -> bool {
        now as int <= self.expires_at as int + grace as int
    }

    pub fn is_reachable(&self, now: u64, grace: u64) -> (r: bool)
        ensures
            r == self.reachable(now, grace),
    {
        now <= self.expires_at || now - self.expires_at <= grace
    }
}

/// The abstract state of a registry: its pool, its reservations in order of
/// creation, and the grace period.
pub struct RegistryView {
    pub pool: PoolView,
    pub entries: Seq<Reservation>,
    pub grace: u64,
}

impl RegistryView {
    pub open spec fn has_client(self, c: Seq<char>) -> bool {
        exists|i: int| 0 <= i < self.entries.len() && #[trigger] self.entries[i].client_name@ == c
    }

    /// The position of the reservation of client `c`.
    pub open spec fn client_index(self, c: Seq<char>) -> int {
        choose|i: int| 0 <= i < self.entries.len() && #[trigger] self.entries[i].client_name@ == c
    }

    /// Client `c` holds a reservation that has not expired at `now`.
    pub open spec fn holds_unexpired(self, c: Seq<char>, now: u64) -> bool {
        exists|i: int|
            0 <= i < self.entries.len() && #[trigger] self.entries[i].client_name@ == c
                && self.entries[i].unexpired(now)
    }

    /// A reservation of client `c` on `port` still takes a report at `now`.
    pub open spec fn reachable(self, c: Seq<char>, port: u16, now: u64) -> bool {
        exists|i: int|
            0 <= i < self.entries.len() && #[trigger] self.entries[i].client_name@ == c
                && self.entries[i].port == port && self.entries[i].reachable(now, self.grace)
    }

    /// The state after the reservation of `c`, if any, is removed and its port
    /// freed.
    pub open spec fn released(self, c: Seq<char>) -> RegistryView {
        if self.has_client(c) {
            let i = self.client_index(c);
            RegistryView {
                pool: self.pool.with_held(self.pool.held.remove(self.entries[i].port)),
                entries: self.entries.remove(i),
                grace: self.grace,
            }
        } else {
            self
        }
    }

    /// The state after `r` is recorded on a port taken from the pool.
    pub open spec fn recorded(self, r: Reservation) -> RegistryView {
        RegistryView {
            pool: self.pool.with_held(self.pool.held.insert(r.port)),
            entries: self.entries.push(r),
            grace: self.grace,
        }
    }

    /// Port `p` is held by a reservation that is past expiry plus grace at `now`.
    pub open spec fn stale_port(self, p: u16, now: u64) -> bool {
        exists|i: int|
            0 <= i < self.entries.len() && #[trigger] self.entries[i].port == p
                && !self.entries[i].reachable(now, self.grace)
    }

    /// What `allocate(c, ttl, now)` returns, `r`, and leaves, `after`, from this
    /// state: a refusal while `c` holds an unexpired reservation; else, once an
    /// expired reservation of `c` is released, the lowest free port, or a
    /// refusal with nothing changed when none is free.
    pub open spec fn allocate_post(
        self,
        c: Seq<char>,
        ttl: u64,
        now: u64,
        r: Result<Reservation, RegistryError>,
        after: RegistryView,
    ) -> bool {
        if self.holds_unexpired(c, now) {
            r == Err::<Reservation, RegistryError>(RegistryError::DuplicateReservation) && after
                == self
        } else {
            let mid = self.released(c);
            if mid.pool.is_full() {
                r == Err::<Reservation, RegistryError>(RegistryError::Exhausted) && after == self
            } else {
                match r {
                    Ok(res) => {
                        &&& res.client_name@ == c
                        &&& res.created_at == now
                        &&& res.expires_at == now + ttl
                        &&& mid.pool.is_lowest_free(res.port)
                        &&& after == mid.recorded(res)
                    },
                    Err(_) => false,
                }
            }
        }
    }

    /// `after` is this state once every reservation past expiry plus grace at
    /// `now` is removed and its port freed.
    pub open spec fn swept(self, now: u64, after: RegistryView) -> bool {
        &&& after.grace == self.grace
        &&& after.pool.min_port == self.pool.min_port
        &&& after.pool.max_port == self.pool.max_port
        &&& forall|r: Reservation|
            #[trigger] after.entries.contains(r) <==> self.entries.contains(r) && r.reachable(
                now,
                self.grace,
            )
        &&& forall|p: u16|
            #[trigger] after.pool.held.contains(p) <==> self.pool.held.contains(p)
                && !self.stale_port(p, now)
    }

    pub open spec fn names_unique(self) -> bool {
        forall|i: int, j: int|
            #![trigger self.entries[i], self.entries[j]]
            0 <= i < self.entries.len() && 0 <= j < self.entries.len() && i != j
                ==> self.entries[i].client_name@ != self.entries[j].client_name@
    }

    pub open spec fn ports_unique(self) -> bool {
        forall|i: int, j: int|
            #![trigger self.entries[i], self.entries[j]]
            0 <= i < self.entries.len() && 0 <= j < self.entries.len() && i != j
                ==> self.entries[i].port != self.entries[j].port
    }

    /// The registry's invariant: one reservation per client, one per port,
    /// and the held ports of the pool are exactly the reserved ones.
    pub open spec fn valid(self) -> bool {
        &&& self.pool.valid()
        &&& self.names_unique()
        &&& self.ports_unique()
        &&& forall|i: int|
            0 <= i < self.entries.len() ==> #[trigger] self.pool.held.contains(
                self.entries[i].port,
            )
        &&& forall|p: u16|
            #[trigger] self.pool.held.contains(p) ==> exists|i: int|
                0 <= i < self.entries.len() && #[trigger] self.entries[i].port == p
        &&& forall|i: int|
            0 <= i < self.entries.len() ==> #[trigger] self.entries[i].created_at
                <= self.entries[i].expires_at
    }
}

/// With one reservation per client, `client_index` finds the only one.
pub proof fn lemma_client_index(v: RegistryView, i: int)
    requires
        v.names_unique(),
        0 <= i < v.entries.len(),
    ensures
        v.has_client(v.entries[i].client_name@),
        v.client_index(v.entries[i].client_name@) == i,
{
    let c = v.entries[i].client_name@;
    assert(v.entries[i].client_name@ == c);
    let k = v.client_index(c);
    if k != i {
        assert(v.entries[k].client_name@ != v.entries[i].client_name@);
    }
}

/// Once the reservation of `c` is released, no reservation of `c` is left.
pub proof fn lemma_released_has_no_client(v: RegistryView, c: Seq<char>)
    requires
        v.names_unique(),
    ensures
        !v.released(c).has_client(c),
{
    let w = v.released(c);
    if v.has_client(c) && w.has_client(c) {
        let i = v.client_index(c);
        v.entries.remove_ensures(i);
        let k = choose|k: int| 0 <= k < w.entries.len() && #[trigger] w.entries[k].client_name@ == c;
        let k0 = if k < i { k } else { k + 1 };
        assert(w.entries[k] == v.entries[k0]);
    }
}

/// One active test per client: after `allocate(c, ttl)` succeeds at `now`, a
/// second `allocate(c, ..)` at any time up to the expiry `now + ttl` is
/// refused as a duplicate and changes nothing.
pub proof fn lemma_one_reservation_per_client(
    before: RegistryView,
    c: Seq<char>,
    ttl: u64,
    now: u64,
    r: Result<Reservation, RegistryError>,
    after: RegistryView,
    later: u64,
)
    requires
        before.allocate_post(c, ttl, now, r, after),
        r is Ok,
        later <= now + ttl,
    ensures
        forall|ttl2: u64, r2: Result<Reservation, RegistryError>, after2: RegistryView|
            #[trigger] after.allocate_post(c, ttl2, later, r2, after2) ==> r2 == Err::<
                Reservation,
                RegistryError,
            >(RegistryError::DuplicateReservation) && after2 == after,
{
    let res = r->Ok_0;
    let n = after.entries.len() - 1;
    assert(after.entries[n] == res);
    assert(after.holds_unexpired(c, later));
}

/// Expiry reclaims: a reservation made with no time to live (expiry equal to
/// creation) that a sweep finds past the grace period frees its port, and no
/// lookup reaches it, before or after the sweep.
pub proof fn lemma_expired_reservation_reclaimed(
    before: RegistryView,
    i: int,
    now: u64,
    after: RegistryView,
)
    requires
        before.valid(),
        0 <= i < before.entries.len(),
        before.entries[i].expires_at == before.entries[i].created_at,
        now as int > before.entries[i].created_at as int + before.grace as int,
        before.swept(now, after),
    ensures
        !before.reachable(before.entries[i].client_name@, before.entries[i].port, now),
        !after.reachable(before.entries[i].client_name@, before.entries[i].port, now),
        before.pool.held.contains(before.entries[i].port),
        !after.pool.held.contains(before.entries[i].port),
{
    let e = before.entries[i];
    assert(before.pool.held.contains(e.port));
    assert(before.stale_port(e.port, now));
    if before.reachable(e.client_name@, e.port, now) {
        let k = choose|k: int|
            0 <= k < before.entries.len() && #[trigger] before.entries[k].client_name@
                == e.client_name@ && before.entries[k].port == e.port
                && before.entries[k].reachable(now, before.grace);
        assert(k != i);
    }
    if after.reachable(e.client_name@, e.port, now) {
        let k = choose|k: int|
            0 <= k < after.entries.len() && #[trigger] after.entries[k].client_name@
                == e.client_name@ && after.entries[k].port == e.port
                && after.entries[k].reachable(now, after.grace);
        assert(after.entries.contains(after.entries[k]));
        assert(before.entries.contains(after.entries[k]));
        let m = choose|m: int| 0 <= m < before.entries.len() && before.entries[m] == after.entries[k];
        assert(m != i);
    }
}

/// Tracks the outstanding reservations over a pool of ports.
pub struct Registry {
    pool: PortPool,
    entries: Vec<Reservation>,
    grace: u64,
}

impl Registry {
    pub closed spec fn view(&self) -> RegistryView {
        RegistryView { pool: self.pool.view(), entries: self.entries@, grace: self.grace }
    }

    pub closed spec fn wf(&self) -> bool {
        &&& self.pool.wf()
        &&& self.view().valid()
    }

    /// A well-formed registry has a valid view.
    pub proof fn lemma_wf_valid(&self)
        requires
            self.wf(),
        ensures
            self.view().valid(),
    {
    }

    /// An empty registry over the ports `[min_port, max_port]`; `None` for an
    /// empty range.
    pub fn new(min_port: u16, max_port: u16, grace: u64) -> (r: Option<Registry>)
        ensures
            r is None <==> min_port > max_port,
            r matches Some(reg) ==> {
                &&& reg.wf()
                &&& reg.view().pool.min_port == min_port
                &&& reg.view().pool.max_port == max_port
                &&& reg.view().pool.held == Set::<u16>::empty()
                &&& reg.view().entries == Seq::<Reservation>::empty()
                &&& reg.view().grace == grace
            },
    {
        match PortPool::new(min_port, max_port) {
            None => None,
            Some(pool) => {
                let reg = Registry { pool, entries: Vec::new(), grace };
                proof {
                    pool.lemma_wf_valid();
                }
                Some(reg)
            },
        }
    }

    pub fn grace(&self) -> (r: u64)
        ensures
            r == self.view().grace,
    {
        self.grace
    }

    pub fn pool(&self) -> (r: &PortPool)
        ensures
            r.view() == self.view().pool,
            self.wf() ==> r.wf(),
    {
        &self.pool
    }

    pub fn len(&self) -> (r: usize)
        ensures
            r == self.view().entries.len(),
    {
        self.entries.len()
    }

    fn find_client(&self, c: &String) -> (r: Option<usize>)
        ensures
            r matches Some(i) ==> i < self.entries@.len() && self.entries@[i as int].client_name@
                == c@,
            r is None ==> !self.view().has_client(c@),
    {
        let mut i: usize = 0;
        while i < self.entries.len()
            invariant
                i <= self.entries@.len(),
                forall|j: int| 0 <= j < i ==> self.entries@[j].client_name@ != c@,
            decreases self.entries@.len() - i,
        {
            if self.entries[i].client_name == *c {
                return Some(i);
            }
            i = i + 1;
        }
        None
    }

    /// The reservation of `client_name` on `port`, if it is not past its expiry
    /// plus the grace period at `now`.
    pub fn lookup(&self, client_name: &String, port: u16, now: u64) -> (r: Option<Reservation>)
        requires
            self.wf(),
        ensures
            r is Some <==> self.view().reachable(client_name@, port, now),
            r matches Some(x) ==> x == self.view().entries[self.view().client_index(
                client_name@,
            )],
    {
        match self.find_client(client_name) {
            None => None,
            Some(i) => {
                proof {
                    lemma_client_index(self.view(), i as int);
                }
                let e = &self.entries[i];
                if e.port == port && e.is_reachable(now, self.grace) {
                    Some(e.clone())
                } else {
                    proof {
                        if self.view().reachable(client_name@, port, now) {
                            let k = choose|k: int|
                                0 <= k < self.entries@.len()
                                    && #[trigger] self.entries@[k].client_name@ == client_name@
                                    && self.entries@[k].port == port
                                    && self.entries@[k].reachable(now, self.grace);
                            lemma_client_index(self.view(), k);
                        }
                    }
                    None
                }
            },
        }
    }

    /// Removes the reservation of `client_name` and frees its port; nothing
    /// happens when the client holds none.
    pub fn release(&mut self, client_name: &String)
        requires
            old(self).wf(),
        ensures
            final(self).wf(),
            final(self).view() == old(self).view().released(client_name@),
    {
        match self.find_client(client_name) {
            None => {},
            Some(i) => {
                let ghost v = self.view();
                proof {
                    lemma_client_index(v, i as int);
                    v.entries.remove_ensures(i as int);
                }
                let e = self.entries.remove(i);
                let res = self.pool.give_back(e.port);
                assert(res is Ok);
                let ghost w = self.view();
                assert(w == v.released(client_name@));
                assert forall|p: u16| #[trigger] w.pool.held.contains(p) implies exists|k: int|
                    0 <= k < w.entries.len() && #[trigger] w.entries[k].port == p by {
                    let j = choose|j: int| 0 <= j < v.entries.len() && #[trigger] v.entries[j].port == p;
                    if j < i {
                        assert(w.entries[j].port == p);
                    } else {
                        assert(j != i);
                        assert(w.entries[j - 1].port == p);
                    }
                }
                assert forall|a: int, b: int|
                    #![trigger w.entries[a], w.entries[b]]
                    0 <= a < w.entries.len() && 0 <= b < w.entries.len() && a != b
                        implies w.entries[a].client_name@ != w.entries[b].client_name@
                        && w.entries[a].port != w.entries[b].port by {
                    let a0 = if a < i { a } else { a + 1 };
                    let b0 = if b < i { b } else { b + 1 };
                    assert(w.entries[a] == v.entries[a0]);
                    assert(w.entries[b] == v.entries[b0]);
                }
                assert forall|k: int| 0 <= k < w.entries.len() implies #[trigger] w.pool.held.contains(
                    w.entries[k].port,
                ) by {
                    let k0 = if k < i { k } else { k + 1 };
                    assert(w.entries[k] == v.entries[k0]);
                }
                assert forall|k: int| 0 <= k < w.entries.len() implies #[trigger] w.entries[k].created_at
                    <= w.entries[k].expires_at by {
                    let k0 = if k < i { k } else { k + 1 };
                    assert(w.entries[k] == v.entries[k0]);
                }
            },
        }
    }

    /// Reserves the lowest free port for `client_name` from `now` for `ttl`.
    /// Refused while the client holds an unexpired reservation; an expired one
    /// of the client is released first.
    pub fn allocate(&mut self, client_name: String, ttl: u64, now: u64) -> (r: Result<
        Reservation,
        RegistryError,
    >)
        requires
            old(self).wf(),
            now as int + ttl as int <= u64::MAX,
        ensures
            final(self).wf(),
            old(self).view().allocate_post(client_name@, ttl, now, r, final(self).view()),
    {
        let ghost v0 = self.view();
        let found = self.find_client(&client_name);
        if let Some(i) = found {
            proof {
                lemma_client_index(v0, i as int);
            }
            if now <= self.entries[i].expires_at {
                return Err(RegistryError::DuplicateReservation);
            }
            assert(!v0.holds_unexpired(client_name@, now)) by {
                if v0.holds_unexpired(client_name@, now) {
                    let k = choose|k: int|
                        0 <= k < v0.entries.len() && #[trigger] v0.entries[k].client_name@
                            == client_name@ && v0.entries[k].unexpired(now);
                    lemma_client_index(v0, k);
                }
            }
            let ghost freed = self.entries@[i as int].port;
            self.release(&client_name);
            assert(v0.pool.held.contains(v0.entries[i as int].port));
            assert(v0.pool.in_range(freed));
            assert(!self.view().pool.held.contains(freed));
            assert(self.view().pool.in_range(freed));
            assert(!self.view().pool.is_full());
        }
        let ghost mid = self.view();
        assert(mid == v0.released(client_name@));
        proof {
            lemma_released_has_no_client(v0, client_name@);
        }
        match self.pool.take() {
            Err(_) => Err(RegistryError::Exhausted),
            Ok(p) => {
                let res = Reservation {
                    client_name,
                    port: p,
                    created_at: now,
                    expires_at: now + ttl,
                };
                self.entries.push(res.clone());
                let ghost w = self.view();
                assert(w == mid.recorded(res));
                let ghost n = mid.entries.len();
                assert forall|p2: u16| #[trigger] w.pool.held.contains(p2) implies exists|k: int|
                    0 <= k < w.entries.len() && #[trigger] w.entries[k].port == p2 by {
                    if p2 == p {
                        assert(w.entries[n as int].port == p2);
                    } else {
                        let j = choose|j: int|
                            0 <= j < mid.entries.len() && #[trigger] mid.entries[j].port == p2;
                        assert(w.entries[j].port == p2);
                    }
                }
                assert forall|a: int, b: int|
                    #![trigger w.entries[a], w.entries[b]]
                    0 <= a < w.entries.len() && 0 <= b < w.entries.len() && a != b
                        implies w.entries[a].client_name@ != w.entries[b].client_name@
                        && w.entries[a].port != w.entries[b].port by {
                    if a < n && b < n {
                        assert(w.entries[a] == mid.entries[a]);
                        assert(w.entries[b] == mid.entries[b]);
                    } else if a < n {
                        assert(w.entries[a] == mid.entries[a]);
                        assert(mid.pool.held.contains(mid.entries[a].port));
                        assert(mid.entries[a].client_name@ == client_name@ ==> mid.has_client(
                            client_name@,
                        ));
                    } else {
                        assert(w.entries[b] == mid.entries[b]);
                        assert(mid.pool.held.contains(mid.entries[b].port));
                        assert(mid.entries[b].client_name@ == client_name@ ==> mid.has_client(
                            client_name@,
                        ));
                    }
                }
                assert forall|k: int| 0 <= k < w.entries.len() implies #[trigger] w.pool.held.contains(
                    w.entries[k].port,
                ) by {
                    if k < n {
                        assert(w.entries[k] == mid.entries[k]);
                    }
                }
                assert forall|k: int| 0 <= k < w.entries.len() implies #[trigger] w.entries[k].created_at
                    <= w.entries[k].expires_at by {
                    if k < n {
                        assert(w.entries[k] == mid.entries[k]);
                    }
                }
                Ok(res)
            },
        }
    }

    fn find_stale(&self, now: u64) -> (r: Option<usize>)
        ensures
            r matches Some(i) ==> i < self.entries@.len() && !self.entries@[i as int].reachable(
                now,
                self.grace,
            ),
            r is None ==> forall|j: int|
                0 <= j < self.entries@.len() ==> #[trigger] self.entries@[j].reachable(
                    now,
                    self.grace,
                ),
    {
        let mut i: usize = 0;
        while i < self.entries.len()
            invariant
                i <= self.entries@.len(),
                forall|j: int| 0 <= j < i ==> #[trigger] self.entries@[j].reachable(now, self.grace),
            decreases self.entries@.len() - i,
        {
            if !self.entries[i].is_reachable(now, self.grace) {
                return Some(i);
            }
            i = i + 1;
        }
        None
    }

    /// Removes every reservation past its expiry plus the grace period at `now`
    /// and frees their ports.
    pub fn sweep(&mut self, now: u64)
        requires
            old(self).wf(),
        ensures
            final(self).wf(),
            old(self).view().swept(now, final(self).view()),
    {
        let ghost v0 = self.view();
        let mut done = false;
        while !done
            invariant
                self.wf(),
                self.view().grace == v0.grace,
                self.view().pool.min_port == v0.pool.min_port,
                self.view().pool.max_port == v0.pool.max_port,
                v0.valid(),
                forall|r: Reservation| #[trigger]
                    self.view().entries.contains(r) ==> v0.entries.contains(r),
                forall|r: Reservation|
                    #[trigger] v0.entries.contains(r) && r.reachable(now, v0.grace)
                        ==> self.view().entries.contains(r),
                forall|p: u16| #[trigger]
                    self.view().pool.held.contains(p) ==> v0.pool.held.contains(p),
                forall|p: u16|
                    #[trigger] v0.pool.held.contains(p) && !v0.stale_port(p, now)
                        ==> self.view().pool.held.contains(p),
                done ==> forall|j: int|
                    0 <= j < self.view().entries.len() ==> #[trigger] self.view().entries[j].reachable(
                        now,
                        v0.grace,
                    ),
            decreases self.view().entries.len() + (if done { 0int } else { 1int }),
        {
            match self.find_stale(now) {
                None => {
                    done = true;
                },
                Some(i) => {
                    let ghost v = self.view();
                    let name = self.entries[i].client_name.clone();
                    proof {
                        lemma_client_index(v, i as int);
                        v.entries.remove_ensures(i as int);
                        assert(v.entries.contains(v.entries[i as int]));
                    }
                    self.release(&name);
                    let ghost w = self.view();
                    let ghost gone = v.entries[i as int];
                    assert(v0.entries.contains(gone));
                    let ghost m = choose|m: int| 0 <= m < v0.entries.len() && v0.entries[m] == gone;
                    assert(v0.stale_port(gone.port, now)) by {
                        assert(v0.entries[m].port == gone.port);
                    }
                    assert forall|r: Reservation| #[trigger] w.entries.contains(r) implies v0.entries.contains(r) by {
                        let k = choose|k: int| 0 <= k < w.entries.len() && w.entries[k] == r;
                        let k0 = if k < i { k } else { k + 1 };
                        assert(v.entries[k0] == r);
                        assert(v.entries.contains(r));
                    }
                    assert forall|r: Reservation|
                        #[trigger] v0.entries.contains(r) && r.reachable(now, v0.grace)
                        implies w.entries.contains(r) by {
                        assert(v.entries.contains(r));
                        let k = choose|k: int| 0 <= k < v.entries.len() && v.entries[k] == r;
                        assert(k != i);
                        let k1 = if k < i { k } else { k - 1 };
                        assert(w.entries[k1] == r);
                    }
                },
            }
        }
        let ghost w = self.view();
        assert forall|p: u16| #[trigger] w.pool.held.contains(p) implies !v0.stale_port(p, now) by {
            let j = choose|j: int| 0 <= j < w.entries.len() && #[trigger] w.entries[j].port == p;
            assert(w.entries.contains(w.entries[j]));
            let k = choose|k: int| 0 <= k < v0.entries.len() && v0.entries[k] == w.entries[j];
            if v0.stale_port(p, now) {
                let m = choose|m: int|
                    0 <= m < v0.entries.len() && #[trigger] v0.entries[m].port == p
                        && !v0.entries[m].reachable(now, v0.grace);
                assert(v0.entries[k].port == p);
                assert(v0.entries[k].reachable(now, v0.grace));
            }
        }
        assert forall|r: Reservation| #[trigger] w.entries.contains(r) implies r.reachable(now, v0.grace) by {
            let k = choose|k: int| 0 <= k < w.entries.len() && w.entries[k] == r;
        }
    }
}

} // verus!

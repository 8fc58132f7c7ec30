use vstd::prelude::*;

verus! {

/// Why a pool operation was refused.
#[derive(Clone, Copy, Debug, PartialEq, Eq, Structural)]
pub enum PoolError {
    /// Every port of the range is allocated.
    Exhausted,
    /// The port handed back was not allocated.
    InvalidPort,
}

/// The abstract state of a pool: its inclusive range and the ports now held.
pub struct PoolView {
    pub min_port: u16,
    pub max_port: u16,
    pub held: Set<u16>,
}

impl PoolView {
    pub open spec fn in_range(self, p: u16) -> bool {
        self.min_port <= p <= self.max_port
    }

    /// `p` is the lowest port of the range that is not held.
    pub open spec fn is_lowest_free(self, p: u16) -> bool {
        &&& self.in_range(p)
        &&& !self.held.contains(p)
        &&& forall|q: u16| self.min_port <= q < p ==> #[trigger] self.held.contains(q)
    }

    /// Every port of the range is held.
    pub open spec fn is_full(self) -> bool {
        forall|q: u16| #[trigger] self.in_range(q) ==> self.held.contains(q)
    }

    pub open spec fn with_held(self, held: Set<u16>) -> PoolView {
        PoolView { held, ..self }
    }

    /// The pool's invariant: a non-empty range, and only ports of it held.
    pub open spec fn valid(self) -> bool {
        &&& self.min_port <= self.max_port
        &&& forall|p: u16| #[trigger] self.held.contains(p) ==> self.in_range(p)
    }
}

/// A fixed range of ports, each either free or allocated.
pub struct PortPool {
    min_port: u16,
    max_port: u16,
    used: Vec<bool>,
}

impl PortPool {
    pub closed spec fn wf(&self) -> bool {
        &&& self.min_port <= self.max_port
        &&& self.used@.len() == self.max_port - self.min_port + 1
    }

    pub closed spec fn view(&self) -> PoolView {
        PoolView {
            min_port: self.min_port,
            max_port: self.max_port,
            held: Set::new(
                |p: u16| self.min_port <= p <= self.max_port && self.used@[p - self.min_port],
            ),
        }
    }

    /// A well-formed pool has a valid view.
    pub proof fn lemma_wf_valid(&self)
        requires
            self.wf(),
        ensures
            self.view().valid(),
    {
    }

    /// A pool over `[min_port, max_port]` with nothing allocated; `None` for an
    /// empty range.
    pub fn new(min_port: u16, max_port: u16) -> (r: Option<PortPool>)
        ensures
            r is None <==> min_port > max_port,
            r matches Some(pool) ==> {
                &&& pool.wf()
                &&& pool.view().min_port == min_port
                &&& pool.view().max_port == max_port
                &&& pool.view().held == Set::<u16>::empty()
            },
    {
        if min_port > max_port {
            return None;
        }
        let n: usize = (max_port - min_port) as usize + 1;
        let mut used: Vec<bool> = Vec::new();
        let mut i: usize = 0;
        while i < n
            invariant
                i <= n,
                used@.len() == i,
                forall|j: int| 0 <= j < i ==> !used@[j],
            decreases n - i,
        {
            used.push(false);
            i = i + 1;
        }
        let pool = PortPool { min_port, max_port, used };
        assert(pool.view().held =~= Set::<u16>::empty());
        Some(pool)
    }

    pub fn min_port(&self) -> (r: u16)
        ensures
            r == self.view().min_port,
    {
        self.min_port
    }

    pub fn max_port(&self) -> (r: u16)
        ensures
            r == self.view().max_port,
    {
        self.max_port
    }

    /// Whether `port` is allocated now.
    pub fn is_allocated(&self, port: u16) -> (r: bool)
        requires
            self.wf(),
        ensures
            r == self.view().held.contains(port),
    {
        if port < self.min_port || port > self.max_port {
            false
        } else {
            self.used[(port - self.min_port) as usize]
        }
    }

    /// Allocates the lowest free port of the range.
    pub fn take(&mut self) -> (r: Result<u16, PoolError>)
        requires
            old(self).wf(),
        ensures
            final(self).wf(),
            match r {
                Ok(p) => {
                    &&& old(self).view().is_lowest_free(p)
                    &&& final(self).view() == old(self).view().with_held(
                        old(self).view().held.insert(p),
                    )
                },
                Err(e) => {
                    &&& e == PoolError::Exhausted
                    &&& old(self).view().is_full()
                    &&& final(self).view() == old(self).view()
                },
            },
    {
        let n: usize = self.used.len();
        let mut i: usize = 0;
        while i < n
            invariant
                *self == *old(self),
                self.wf(),
                n == self.used@.len(),
                i <= n,
                forall|j: int| 0 <= j < i ==> self.used@[j],
            decreases n - i,
        {
            if !self.used[i] {
                let ghost before = self.view();
                let p: u16 = self.min_port + i as u16;
                self.used.set(i, true);
                assert forall|q: u16| before.min_port <= q < p implies #[trigger] before.held.contains(
                    q,
                ) by {
                    assert(self.used@[q - self.min_port]);
                }
                assert(self.view().held =~= before.held.insert(p));
                return Ok(p);
            }
            i = i + 1;
        }
        assert forall|q: u16| #[trigger] self.view().in_range(q) implies self.view().held.contains(
            q,
        ) by {
            assert(self.used@[q - self.min_port]);
        }
        Err(PoolError::Exhausted)
    }

    /// Returns `port` to the free ports; refused when it is not allocated.
    pub fn give_back(&mut self, port: u16) -> (r: Result<(), PoolError>)
        requires
            old(self).wf(),
        ensures
            final(self).wf(),
            r is Err <==> !old(self).view().held.contains(port),
            r matches Err(e) ==> e == PoolError::InvalidPort && final(self).view() == old(
                self,
            ).view(),
            r is Ok ==> final(self).view() == old(self).view().with_held(
                old(self).view().held.remove(port),
            ),
    {
        if !self.is_allocated(port) {
            return Err(PoolError::InvalidPort);
        }
        let ghost before = self.view();
        self.used.set((port - self.min_port) as usize, false);
        assert(self.view().held =~= before.held.remove(port));
        Ok(())
    }
}

} // verus!

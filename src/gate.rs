use vstd::prelude::*;

verus! {

/// The abstract state of a gate: operations in flight and the ceiling.
pub struct GateView {
    pub in_flight: u64,
    pub ceiling: u64,
}

/// A bounded admission gate: at most `ceiling` operations are in flight.
pub struct Gate {
    in_flight: u64,
    ceiling: u64,
}

impl Gate {
    pub closed spec fn view(&self) -> GateView {
        GateView { in_flight: self.in_flight, ceiling: self.ceiling }
    }

    pub fn new(ceiling: u64) -> (r: Gate)
        ensures
            r.view() == (GateView { in_flight: 0, ceiling }),
    {
        Gate { in_flight: 0, ceiling }
    }

    pub fn in_flight(&self) -> (r: u64)
        ensures
            r == self.view().in_flight,
    {
        self.in_flight
    }

    pub fn ceiling(&self) -> (r: u64)
        ensures
            r == self.view().ceiling,
    {
        self.ceiling
    }

    /// Admits one more operation if fewer than the ceiling are in flight.
    pub fn try_enter(&mut self) -> (r: bool)
        ensures
            r == (old(self).view().in_flight < old(self).view().ceiling),
            r ==> final(self).view() == (GateView {
                in_flight: (old(self).view().in_flight + 1) as u64,
                ..old(self).view()
            }),
            !r ==> final(self).view() == old(self).view(),
    {
        if self.in_flight < self.ceiling {
            self.in_flight = self.in_flight + 1;
            true
        } else {
            false
        }
    }

    /// Ends one admitted operation; with none in flight, nothing changes.
    pub fn leave(&mut self)
        ensures
            final(self).view() == (GateView {
                in_flight: if old(self).view().in_flight > 0 {
                    (old(self).view().in_flight - 1) as u64
                } else {
                    0
                },
                ..old(self).view()
            }),
    {
        if self.in_flight > 0 {
            self.in_flight = self.in_flight - 1;
        }
    }
}

} // verus!

//! The concurrency admission gate: a counting permit that bounds how many
//! probes are in their request-issuing section at any instant.
//!
//! Tasks may exist for every server at once; only holders of a permit issue
//! request traffic. The driver acquires a permit before a probe's request
//! loop and releases it afterwards.

use vstd::prelude::*;

verus! {

/// A counting permit of fixed capacity.
pub struct AdmissionGate {
    capacity: usize,
    active: usize,
}

impl AdmissionGate {
    /// The configured maximum number of simultaneous permit holders.
    pub closed spec fn spec_capacity(self) -> int {
        self.capacity as int
    }

    /// How many permits are currently held.
    pub closed spec fn spec_active(self) -> int {
        self.active as int
    }

    /// CONCURRENCY LAW: the number of permit holders never exceeds the
    /// capacity.
    pub open spec fn wf(self) -> bool {
        0 <= self.spec_active() <= self.spec_capacity()
    }

    /// A fresh gate with the given capacity and no permits held.
    pub fn new(capacity: usize) -> (r: Self)
        requires
            capacity >= 1,
        ensures
            r.wf(),
            r.spec_capacity() == capacity,
            r.spec_active() == 0,
    {
        AdmissionGate { capacity, active: 0 }
    }

    /// The configured capacity.
    pub fn capacity(&self) -> (r: usize)
        ensures
            r == self.spec_capacity(),
    {
        self.capacity
    }

    /// How many permits are currently held.
    pub fn active(&self) -> (r: usize)
        ensures
            r == self.spec_active(),
    {
        self.active
    }

    /// Take a permit if one is free. A permit is granted exactly when fewer
    /// than `capacity` holders exist, so the bound can never be exceeded.
    pub fn try_acquire(&mut self) -> (r: bool)
        requires
            old(self).wf(),
        ensures
            final(self).wf(),
            final(self).spec_capacity() == old(self).spec_capacity(),
            r == (old(self).spec_active() < old(self).spec_capacity()),
            r ==> final(self).spec_active() == old(self).spec_active() + 1,
            !r ==> final(self).spec_active() == old(self).spec_active(),
    {
        if self.active < self.capacity {
            self.active = self.active + 1;
            true
        } else {
            false
        }
    }

    /// Return a permit.
    pub fn release(&mut self)
        requires
            old(self).wf(),
            old(self).spec_active() > 0,
        ensures
            final(self).wf(),
            final(self).spec_capacity() == old(self).spec_capacity(),
            final(self).spec_active() == old(self).spec_active() - 1,
    {
        self.active = self.active - 1;
    }
}

} // verus!

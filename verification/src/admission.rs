//! Admission control: a counting limiter that bounds concurrent
//! sessions.  Admission is non-blocking — a request that cannot take a
//! permit is rejected outright.

use vstd::prelude::*;

verus! {

/// The admission state: how many sessions may run at once and how many do.
pub struct AdmissionGate {
    capacity: usize,
    active: usize,
}

/// What a try-admit decides and leaves behind.
pub open spec fn spec_try_admit(g: AdmissionGate) -> (bool, AdmissionGate) {
    if g.active() < g.capacity() {
        (true, AdmissionGate::with(g.capacity(), (g.active() + 1) as usize))
    } else {
        (false, g)
    }
}

/// What a release leaves behind: the permit returns unconditionally.
pub open spec fn spec_release(g: AdmissionGate) -> AdmissionGate {
    if g.active() > 0 {
        AdmissionGate::with(g.capacity(), (g.active() - 1) as usize)
    } else {
        g
    }
}

impl AdmissionGate {
    pub closed spec fn capacity(&self) -> usize {
        self.capacity
    }

    pub closed spec fn active(&self) -> usize {
        self.active
    }

    pub open spec fn wf(&self) -> bool {
        self.active() <= self.capacity()
    }

    /// A ghost constructor used to state the transition functions.
    pub closed spec fn with(capacity: usize, active: usize) -> AdmissionGate {
        AdmissionGate { capacity, active }
    }

    pub fn new(capacity: usize) -> (r: AdmissionGate)
        ensures
            r.capacity() == capacity,
            r.active() == 0,
            r.wf(),
    {
        AdmissionGate { capacity, active: 0 }
    }

    /// Admits a session if a permit is free, without blocking: the
    /// request succeeds exactly when fewer sessions run than allowed.
    pub fn try_admit(&mut self) -> (r: bool)
        requires
            old(self).wf(),
        ensures
            final(self).wf(),
            (r, *final(self)) == spec_try_admit(*old(self)),
            r == (old(self).active() < old(self).capacity()),
            final(self).capacity() == old(self).capacity(),
            r ==> final(self).active() == old(self).active() + 1,
            !r ==> final(self).active() == old(self).active(),
    {
        if self.active < self.capacity {
            self.active = self.active + 1;
            true
        } else {
            false
        }
    }

    /// Returns a permit when a session completes, however it ended.
    pub fn release(&mut self)
        requires
            old(self).wf(),
        ensures
            final(self).wf(),
            *final(self) == spec_release(*old(self)),
            final(self).capacity() == old(self).capacity(),
            old(self).active() > 0 ==> final(self).active() == old(self).active() - 1,
            old(self).active() == 0 ==> final(self).active() == 0,
    {
        if self.active > 0 {
            self.active = self.active - 1;
        }
    }
}

/// Admission at capacity one: while a session holds the permit
/// a second request is rejected immediately, and once the first
/// completes a new request succeeds.
pub proof fn lemma_single_permit(g: AdmissionGate)
    requires
        g.wf(),
        g.capacity() == 1,
        g.active() == 0,
    ensures
        ({
            let (first, g1) = spec_try_admit(g);
            let (second, g2) = spec_try_admit(g1);
            let g3 = spec_release(g1);
            let (third, _) = spec_try_admit(g3);
            first && !second && third
        }),
{
}

} // verus!

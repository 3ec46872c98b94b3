//! Signal registration: how the bus hands out signal ids.
use vstd::prelude::*;
use crate::signal::types::SignalId;

verus! {

/// The id counter of the signal bus. Every id it has handed out or been told
/// of is below `next_id`.
pub struct SignalIdAllocator {
    next_id: u32,
}

impl SignalIdAllocator {
    /// The id the next registration gets.
    pub closed spec fn next(&self) -> nat {
        self.next_id as nat
    }

    pub fn new() -> (r: SignalIdAllocator)
        ensures
            r.next() == 0,
    {
        SignalIdAllocator { next_id: 0 }
    }

    /// The id the next registration gets.
    pub fn next_id(&self) -> (r: u32)
        ensures
            r == self.next(),
    {
        self.next_id
    }

    /// The id for a newly registered signal.
    pub fn allocate(&mut self) -> (id: SignalId)
        requires
            old(self).next() < u32::MAX,
        ensures
            id.0 == old(self).next(),
            final(self).next() == old(self).next() + 1,
    {
        let id = SignalId(self.next_id);
        self.next_id = self.next_id + 1;
        id
    }

    /// Take note of a signal registered under a fixed id, so that later
    /// registrations stay above it.
    pub fn reserve(&mut self, id: SignalId)
        requires
            id.0 < u32::MAX,
        ensures
            final(self).next() == if id.0 >= old(self).next() { id.0 + 1 } else { old(self).next() as int },
    {
        if id.0 >= self.next_id {
            self.next_id = id.0 + 1;
        }
    }
}

/// Registration never hands out an id in use: when every id in `used` is
/// below the counter, `allocate` returns an id outside `used`, and after
/// the call every id in `used`, and the new one, is below the counter.
pub proof fn law_allocation_is_fresh(before: SignalIdAllocator, after: SignalIdAllocator, id: SignalId, used: Set<u32>)
    requires
        forall|u: u32| used.contains(u) ==> u < before.next(),
        id.0 == before.next(),
        after.next() == before.next() + 1,
    ensures
        !used.contains(id.0),
        forall|u: u32| used.insert(id.0).contains(u) ==> u < after.next(),
{
}

/// Reserving keeps every id in use below the counter, the reserved one included.
pub proof fn law_reserve_covers(before: SignalIdAllocator, after: SignalIdAllocator, id: SignalId, used: Set<u32>)
    requires
        forall|u: u32| used.contains(u) ==> u < before.next(),
        after.next() == if id.0 >= before.next() { id.0 + 1 } else { before.next() as int },
    ensures
        forall|u: u32| used.insert(id.0).contains(u) ==> u < after.next(),
{
}

} // verus!

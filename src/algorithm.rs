use vstd::prelude::*;
use crate::record::{FileRecord, SimError};

verus! {

/// What every eviction policy offers: a cache of fixed capacity that is fed
/// one access at a time and counts events and hits.
pub trait CacheAlgorithm: Sized {
    /// The internal invariant of the policy's state.
    spec fn inv(&self) -> bool;

    /// The capacity fixed at construction.
    spec fn capacity(&self) -> int;

    /// The sum of the sizes of the resident records.
    spec fn used(&self) -> int;

    /// The number of accesses processed so far.
    spec fn events(&self) -> int;

    /// The number of those accesses that found their label resident.
    spec fn hits(&self) -> int;

    /// Whether `label` is resident.
    spec fn holds(&self, label: i32) -> bool;

    fn new(size: i64) -> (r: Self)
        requires
            size >= 0,
        ensures
            r.inv(),
            r.capacity() == size,
            r.used() == 0,
            r.events() == 0,
            r.hits() == 0,
            forall|l: i32| !r.holds(l),
    ;

    /// Replays one access. A record larger than the capacity is refused and
    /// leaves the state as it was; any other record is counted and either
    /// hits or is admitted. Sizes are byte counts, hence non-negative.
    fn simulate(&mut self, file: FileRecord) -> (r: Result<(), SimError>)
        requires
            old(self).inv(),
            file.size >= 0,
            old(self).events() < i32::MAX,
        ensures
            final(self).inv(),
            final(self).capacity() == old(self).capacity(),
            0 <= final(self).used() <= final(self).capacity(),
            0 <= final(self).hits() <= final(self).events(),
            file.size > old(self).capacity() <==> r matches Err(SimError::OversizedRecord),
            file.size <= old(self).capacity() ==> r is Ok,
            !(r matches Err(SimError::EvictedJustInserted)),
            r is Err ==> final(self).events() == old(self).events() && final(self).hits()
                == old(self).hits() && final(self).used() == old(self).used(),
            r is Ok ==> {
                &&& final(self).events() == old(self).events() + 1
                &&& final(self).hits() == old(self).hits() + if old(self).holds(file.label) {
                    1int
                } else {
                    0int
                }
                &&& final(self).holds(file.label)
            },
    ;

    /// The pair (events, hits).
    fn stats(&self) -> (r: (i32, i32))
        requires
            self.inv(),
        ensures
            r.0 == self.events(),
            r.1 == self.hits(),
    ;
}

} // verus!

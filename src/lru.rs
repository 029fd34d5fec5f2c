use vstd::prelude::*;
use std::collections::HashMap;
use crate::algorithm::CacheAlgorithm;
use crate::lfu::{usage_inv, usage_admitted, evict_and_insert, lemma_admission_unique};
use crate::queue::{UsageQueue, usage_entries, usage_queue_new, usage_queue_get, usage_queue_push};
use crate::record::{FileRecord, SimError, lemma_map_total_empty};

verus! {

broadcast use vstd::std_specs::hash::group_hash_axioms;

/// Least-recently-used policy: evicts the resident label whose last access
/// is oldest. Recency is the event count at the label's last access; every
/// label keeps frequency 1, so that the usage order is the recency order.
pub struct LRU {
    heap: UsageQueue,
    /// Size of each resident label, for constant-time membership tests.
    sizes: HashMap<i32, i64>,
    current_used: i64,
    size: i64,
    event_count: u64,
    hit_count: i32,
}

impl LRU {
    /// Each resident label with its (frequency, last use) pair.
    pub closed spec fn entries(&self) -> Map<i32, (u64, u64)> {
        usage_entries(self.heap)
    }

    /// Each resident label with its size.
    pub closed spec fn sizes(&self) -> Map<i32, i64> {
        self.sizes@
    }

    /// The invariant in terms of the views.
    pub proof fn lemma_state(&self)
        requires
            self.inv(),
        ensures
            usage_inv(self.entries(), self.sizes(), self.used(), self.capacity(), self.events()),
            forall|l: i32| self.holds(l) <==> #[trigger] self.entries().contains_key(l),
    {
    }
}

impl LRU {
    /// Two states that end a miss on `file` from the same state `a`, as
    /// `simulate` describes it, hold the same labels with the same pairs and
    /// sizes and use the same space: a replay decides every miss one way.
    pub proof fn lemma_miss_deterministic(a: &LRU, b1: &LRU, b2: &LRU, file: FileRecord)
        requires
            a.inv(),
            b1.inv(),
            b2.inv(),
            !a.holds(file.label),
            0 <= file.size <= a.capacity(),
            b1.capacity() == a.capacity(),
            b2.capacity() == a.capacity(),
            b1.events() == a.events() + 1,
            b2.events() == a.events() + 1,
            usage_admitted(a.entries(), a.sizes(), b1.entries(), b1.sizes(), file, b1.events(), a.capacity()),
            usage_admitted(a.entries(), a.sizes(), b2.entries(), b2.sizes(), file, b2.events(), a.capacity()),
        ensures
            b1.entries() == b2.entries(),
            b1.sizes() == b2.sizes(),
            b1.used() == b2.used(),
    {
        a.lemma_state();
        b1.lemma_state();
        b2.lemma_state();
        lemma_admission_unique(
            a.entries(),
            a.sizes(),
            a.used(),
            a.capacity(),
            file,
            a.events() + 1,
            b1.entries(),
            b1.sizes(),
            b2.entries(),
            b2.sizes(),
        );
    }

    /// Whether `label` is resident.
    pub fn contains(&self, label: i32) -> (r: bool)
        requires
            self.inv(),
        ensures
            r == self.holds(label),
            r == self.entries().contains_key(label),
    {
        usage_queue_get(&self.heap, label).is_some()
    }

    /// The last use of `label`, if it is resident.
    pub fn last_use(&self, label: i32) -> (r: Option<u64>)
        requires
            self.inv(),
        ensures
            self.entries().contains_key(label) ==> r == Some(self.entries()[label].1),
            !self.entries().contains_key(label) ==> r is None,
    {
        match usage_queue_get(&self.heap, label) {
            Some(u) => Some(u.1),
            None => None,
        }
    }
}

impl CacheAlgorithm for LRU {
    closed spec fn inv(&self) -> bool {
        &&& usage_inv(
            usage_entries(self.heap),
            self.sizes@,
            self.current_used as int,
            self.size as int,
            self.event_count as int,
        )
        &&& forall|k: i32| #[trigger]
            usage_entries(self.heap).contains_key(k) ==> usage_entries(self.heap)[k].0 == 1
        &&& 0 <= self.hit_count <= self.event_count <= i32::MAX
    }

    closed spec fn capacity(&self) -> int {
        self.size as int
    }

    closed spec fn used(&self) -> int {
        self.current_used as int
    }

    closed spec fn events(&self) -> int {
        self.event_count as int
    }

    closed spec fn hits(&self) -> int {
        self.hit_count as int
    }

    closed spec fn holds(&self, label: i32) -> bool {
        usage_entries(self.heap).contains_key(label)
    }

    fn new(size: i64) -> (r: Self)
        ensures
            r.entries().dom().len() == 0,
    {
        let heap = usage_queue_new();
        let sizes: HashMap<i32, i64> = HashMap::new();
        proof {
            assert(sizes@.dom() =~= usage_entries(heap).dom());
            lemma_map_total_empty(sizes@);
        }
        LRU { heap, sizes, current_used: 0, size, event_count: 0, hit_count: 0 }
    }

    fn simulate(&mut self, file: FileRecord) -> (r: Result<(), SimError>)
        ensures
            r is Err ==> final(self).entries() == old(self).entries() && final(self).sizes()
                == old(self).sizes(),
            r is Ok && old(self).holds(file.label) ==> {
                &&& final(self).sizes() == old(self).sizes()
                &&& final(self).entries() == old(self).entries().insert(
                    file.label,
                    (1u64, final(self).events() as u64),
                )
            },
            r is Ok && !old(self).holds(file.label) ==> usage_admitted(
                old(self).entries(),
                old(self).sizes(),
                final(self).entries(),
                final(self).sizes(),
                file,
                final(self).events(),
                old(self).capacity(),
            ),
            !(r matches Err(SimError::EvictedJustInserted)),
    {
        if file.size > self.size {
            return Err(SimError::OversizedRecord);
        }
        self.event_count = self.event_count + 1;
        let id = file.label;
        match usage_queue_get(&self.heap, id) {
            Some(_) => {
                self.hit_count = self.hit_count + 1;
                usage_queue_push(&mut self.heap, id, (1, self.event_count));
                proof {
                    let e = usage_entries(self.heap);
                    assert(self.sizes@.dom() =~= e.dom());
                }
                return Ok(());
            },
            None => {},
        }
        let used = evict_and_insert(
            &mut self.heap,
            &mut self.sizes,
            self.current_used,
            self.size,
            file,
            self.event_count,
        )?;
        self.current_used = used;
        Ok(())
    }

    fn stats(&self) -> (r: (i32, i32)) {
        (self.event_count as i32, self.hit_count)
    }
}

} // verus!

use vstd::prelude::*;
use std::collections::{HashSet, VecDeque};
use crate::algorithm::CacheAlgorithm;
use crate::record::{
    FileRecord, SimError, total_size, labels_of, distinct_labels, sizes_fit,
    lemma_total_size_nonneg, lemma_total_size_prepend,
};

verus! {

broadcast use vstd::std_specs::hash::group_hash_axioms;

/// What is left of `q` after dropping its last records until the rest
/// fits into `capacity`: the recency-queue eviction rule, where the last
/// record is the one that entered first.
pub open spec fn fifo_evict(q: Seq<FileRecord>, capacity: int) -> Seq<FileRecord>
    decreases q.len(),
{
    if q.len() > 0 && total_size(q) > capacity {
        fifo_evict(q.drop_last(), capacity)
    } else {
        q
    }
}

/// Resident records, events and hits after replaying `trace` from an empty
/// cache of the given capacity. A record larger than the capacity is refused
/// and changes nothing.
pub open spec fn fifo_replay(capacity: int, trace: Seq<FileRecord>) -> (Seq<FileRecord>, int, int)
    decreases trace.len(),
{
    if trace.len() == 0 {
        (Seq::empty(), 0, 0)
    } else {
        let prev = fifo_replay(capacity, trace.drop_last());
        let f = trace.last();
        if f.size > capacity {
            prev
        } else if labels_of(prev.0).contains(f.label) {
            (prev.0, prev.1 + 1, prev.2 + 1)
        } else {
            (fifo_evict(seq![f] + prev.0, capacity), prev.1 + 1, prev.2)
        }
    }
}

/// Recency-queue policy: a miss enters at the front, evictions leave from the
/// back, whatever the access history of the records.
pub struct FiFo {
    /// Resident records, newest first.
    queue: VecDeque<FileRecord>,
    /// The labels of `queue`, for constant-time membership tests.
    cache: HashSet<i32>,
    current_used: i64,
    size: i64,
    event_count: i32,
    hit_count: i32,
}

impl FiFo {
    /// The resident records, newest first.
    pub closed spec fn resident(&self) -> Seq<FileRecord> {
        self.queue@
    }

    /// The invariant in terms of the views: the used space is the sum of
    /// the resident sizes, and no label is resident twice.
    pub proof fn lemma_state(&self)
        requires
            self.inv(),
        ensures
            forall|l: i32| self.holds(l) <==> #[trigger] labels_of(self.resident()).contains(l),
            self.used() == total_size(self.resident()),
            distinct_labels(self.resident()),
            sizes_fit(self.resident(), self.capacity()),
    {
    }

    /// Whether `label` is resident.
    pub fn contains(&self, label: i32) -> (r: bool)
        requires
            self.inv(),
        ensures
            r == self.holds(label),
            r == labels_of(self.resident()).contains(label),
    {
        self.cache.contains(&label)
    }

    /// Replays `trace` through a new cache of the given capacity, passing
    /// over the records that are refused. The outcome depends on the
    /// capacity and the trace alone.
    pub fn replay(capacity: i64, trace: &Vec<FileRecord>) -> (r: FiFo)
        requires
            capacity >= 0,
            trace@.len() < i32::MAX,
            forall|i: int| 0 <= i < trace@.len() ==> #[trigger] trace@[i].size >= 0,
        ensures
            r.inv(),
            r.capacity() == capacity,
            r.resident() == fifo_replay(capacity as int, trace@).0,
            r.events() == fifo_replay(capacity as int, trace@).1,
            r.hits() == fifo_replay(capacity as int, trace@).2,
    {
        let mut a = FiFo::new(capacity);
        let mut i: usize = 0;
        proof {
            assert(trace@.subrange(0, 0) =~= Seq::<FileRecord>::empty());
        }
        while i < trace.len()
            invariant
                0 <= i <= trace@.len(),
                trace@.len() < i32::MAX,
                forall|j: int| 0 <= j < trace@.len() ==> #[trigger] trace@[j].size >= 0,
                a.inv(),
                a.capacity() == capacity,
                0 <= a.events() <= i,
                a.resident() == fifo_replay(capacity as int, trace@.subrange(0, i as int)).0,
                a.events() == fifo_replay(capacity as int, trace@.subrange(0, i as int)).1,
                a.hits() == fifo_replay(capacity as int, trace@.subrange(0, i as int)).2,
            decreases trace@.len() - i,
        {
            let f = trace[i];
            let _ = a.simulate(f);
            proof {
                let t = trace@.subrange(0, i + 1);
                assert(t.drop_last() =~= trace@.subrange(0, i as int));
                assert(t.last() == f);
            }
            i = i + 1;
        }
        proof {
            assert(trace@.subrange(0, i as int) =~= trace@);
        }
        a
    }

    fn in_cache(&self, file: &FileRecord) -> (r: bool)
        requires
            self.inv(),
        ensures
            r == labels_of(self.queue@).contains(file.label),
    {
        self.cache.contains(&file.label)
    }
}

impl CacheAlgorithm for FiFo {
    closed spec fn inv(&self) -> bool {
        &&& self.cache@ == labels_of(self.queue@)
        &&& distinct_labels(self.queue@)
        &&& sizes_fit(self.queue@, self.size as int)
        &&& self.current_used == total_size(self.queue@)
        &&& 0 <= self.current_used <= self.size
        &&& 0 <= self.hit_count <= self.event_count
    }

    closed spec fn capacity(&self) -> int {
        self.size as int
    }

    closed spec fn used(&self) -> int {
        self.current_used as int
    }

    closed spec fn events(&self) -> int {
        self.event_count as int
    }

    closed spec fn hits(&self) -> int {
        self.hit_count as int
    }

    closed spec fn holds(&self, label: i32) -> bool {
        labels_of(self.queue@).contains(label)
    }

    fn new(size: i64) -> (r: Self)
        ensures
            r.resident() == Seq::<FileRecord>::empty(),
    {
        let r = FiFo {
            queue: VecDeque::new(),
            cache: HashSet::new(),
            current_used: 0,
            size,
            event_count: 0,
            hit_count: 0,
        };
        assert(r.cache@ =~= labels_of(r.queue@));
        r
    }

    fn simulate(&mut self, file: FileRecord) -> (r: Result<(), SimError>)
        ensures
            r is Err ==> final(self).resident() == old(self).resident(),
            r is Ok && old(self).holds(file.label) ==> final(self).resident() == old(
                self,
            ).resident(),
            r is Ok && !old(self).holds(file.label) ==> final(self).resident() == fifo_evict(
                seq![file] + old(self).resident(),
                old(self).capacity(),
            ),
            !(r matches Err(SimError::EvictedJustInserted)),
    {
        if file.size > self.size {
            return Err(SimError::OversizedRecord);
        }
        self.event_count = self.event_count + 1;
        if self.in_cache(&file) {
            self.hit_count = self.hit_count + 1;
            return Ok(());
        }
        let ghost q0 = self.queue@;
        let id = file.label;
        self.cache.insert(file.label);
        proof {
            lemma_total_size_prepend(file, q0);
        }
        let mut used: i128 = self.current_used as i128 + file.size as i128;
        self.queue.push_front(file);
        proof {
            let q = self.queue@;
            assert(q =~= seq![file] + q0);
            assert(self.cache@ =~= labels_of(q)) by {
                assert(q[0].label == file.label);
                assert forall|l: i32| labels_of(q0).contains(l) implies labels_of(q).contains(
                    l,
                ) by {
                    let i = choose|i: int| 0 <= i < q0.len() && q0[i].label == l;
                    assert(q[i + 1] == q0[i]);
                }
                assert forall|l: i32| labels_of(q).contains(l) implies l == file.label
                    || labels_of(q0).contains(l) by {
                    let i = choose|i: int| 0 <= i < q.len() && q[i].label == l;
                    if i > 0 {
                        assert(q[i] == q0[i - 1]);
                    }
                }
            }
            assert(distinct_labels(q)) by {
                assert forall|i: int, j: int| 0 <= i < j < q.len() implies q[i].label
                    != q[j].label by {
                    assert(q[j] == q0[j - 1]);
                    if i > 0 {
                        assert(q[i] == q0[i - 1]);
                    } else {
                        assert(labels_of(q0).contains(q0[j - 1].label));
                    }
                }
            }
            assert(sizes_fit(q, self.size as int)) by {
                assert forall|i: int| 0 <= i < q.len() implies 0 <= #[trigger] q[i].size
                    <= self.size by {
                    if i > 0 {
                        assert(q[i] == q0[i - 1]);
                    }
                }
            }
        }
        while used > self.size as i128
            invariant
                self.queue@.len() >= 1,
                self.queue@[0] == file,
                id == file.label,
                0 <= file.size <= self.size,
                used == total_size(self.queue@),
                fifo_evict(self.queue@, self.size as int) == fifo_evict(
                    seq![file] + q0,
                    self.size as int,
                ),
                self.cache@ == labels_of(self.queue@),
                distinct_labels(self.queue@),
                sizes_fit(self.queue@, self.size as int),
                self.size == old(self).size,
                self.event_count == old(self).event_count + 1,
                self.hit_count == old(self).hit_count,
                0 <= self.hit_count <= self.event_count,
            decreases self.queue@.len(),
        {
            let ghost q = self.queue@;
            proof {
                if q.len() == 1 {
                    assert(q.drop_last() =~= Seq::<FileRecord>::empty());
                    assert(total_size(q.drop_last()) == 0);
                    assert(q.last() == file);
                    assert(false);
                }
                assert(q[0].label != q[q.len() - 1].label);
            }
            let popped = match self.queue.pop_back() {
                Some(p) => p,
                None => {
                    return Err(SimError::EvictedJustInserted);
                },
            };
            if popped.label == id {
                return Err(SimError::EvictedJustInserted);
            }
            proof {
                let q1 = self.queue@;
                assert(q1 =~= q.drop_last());
                assert(popped == q[q.len() - 1]);
                assert(q.len() > 1);
                assert(q1[0] == q[0]);
                assert(self.cache@.contains(popped.label));
                assert(labels_of(q1) =~= labels_of(q).remove(popped.label)) by {
                    assert forall|l: i32| labels_of(q1).contains(l) implies l != popped.label
                        && labels_of(q).contains(l) by {
                        let i = choose|i: int| 0 <= i < q1.len() && q1[i].label == l;
                        assert(q[i] == q1[i]);
                    }
                    assert forall|l: i32| labels_of(q).contains(l) && l != popped.label implies
                        labels_of(q1).contains(l) by {
                        let i = choose|i: int| 0 <= i < q.len() && q[i].label == l;
                        assert(q1[i] == q[i]);
                    }
                }
                assert(distinct_labels(q1)) by {
                    assert forall|i: int, j: int| 0 <= i < j < q1.len() implies q1[i].label
                        != q1[j].label by {
                        assert(q1[i] == q[i]);
                        assert(q1[j] == q[j]);
                    }
                }
                assert(sizes_fit(q1, self.size as int)) by {
                    assert forall|i: int| 0 <= i < q1.len() implies 0 <= #[trigger] q1[i].size
                        <= self.size by {
                        assert(q1[i] == q[i]);
                    }
                }
                assert(sizes_fit(q, self.size as int));
                assert(0 <= q[q.len() - 1].size);
            }
            self.cache.remove(&popped.label);
            used = used - popped.size as i128;
        }
        proof {
            let q = self.queue@;
            assert(fifo_evict(q, self.size as int) == q);
            lemma_total_size_nonneg(q, self.size as int);
        }
        self.current_used = used as i64;
        Ok(())
    }

    fn stats(&self) -> (r: (i32, i32)) {
        (self.event_count, self.hit_count)
    }
}

} // verus!

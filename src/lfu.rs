use vstd::prelude::*;
use std::collections::HashMap;
use crate::algorithm::CacheAlgorithm;
use crate::queue::{
    UsageQueue, usage_entries, usage_le, usage_queue_new, usage_queue_get, usage_queue_push,
    usage_queue_pop,
};
use crate::record::{
    FileRecord, SimError, map_total, lemma_map_total_remove, lemma_map_total_insert,
    lemma_map_total_empty, lemma_map_total_nonneg, lemma_map_total_submap,
};

verus! {

broadcast use vstd::std_specs::hash::group_hash_axioms;

/// `a` comes strictly before `b` in the lexicographic order of pairs.
pub open spec fn usage_lt(a: (u64, u64), b: (u64, u64)) -> bool {
    usage_le(a, b) && a != b
}

/// The usage-ordered eviction rule for a miss on `file`: `e1`/`s1` (usage and
/// size of each resident label) are `e0`/`s0` with some labels evicted and
/// `file` admitted with frequency 1 and last use `stamp`. Every evicted label
/// has a smaller (frequency, last use) pair than every kept one, and the
/// eviction stopped as soon as everything fit: with the last evicted label
/// back, the capacity would be exceeded.
pub open spec fn usage_admitted(
    e0: Map<i32, (u64, u64)>,
    s0: Map<i32, i64>,
    e1: Map<i32, (u64, u64)>,
    s1: Map<i32, i64>,
    file: FileRecord,
    stamp: int,
    capacity: int,
) -> bool {
    &&& e1.contains_key(file.label)
    &&& e1[file.label] == (1u64, stamp as u64)
    &&& s1.contains_key(file.label)
    &&& s1[file.label] == file.size
    &&& e1.dom() == s1.dom()
    &&& forall|k: i32|
        #![trigger e1.contains_key(k)]
        e1.contains_key(k) && k != file.label ==> e0.contains_key(k) && e1[k] == e0[k] && s1[k]
            == s0[k]
    &&& forall|v: i32, k: i32|
        #![trigger e0.contains_key(v), e1.contains_key(k)]
        e0.contains_key(v) && !e1.contains_key(v) && e1.contains_key(k) && k != file.label
            ==> usage_lt(e0[v], e0[k])
    &&& forall|v: i32|
        #![trigger e0.contains_key(v)]
        e0.contains_key(v) && !e1.contains_key(v) && (forall|w: i32|
            #![trigger e0.contains_key(w)]
            e0.contains_key(w) && !e1.contains_key(w) ==> usage_le(e0[w], e0[v])) ==> map_total(s1)
            + s0[v] > capacity
}

proof fn lemma_usage_max_exists(e0: Map<i32, (u64, u64)>, ev: Set<i32>)
    requires
        ev.finite(),
        ev.len() > 0,
        forall|k: i32| #[trigger] ev.contains(k) ==> e0.contains_key(k),
    ensures
        exists|m: i32|
            ev.contains(m) && forall|w: i32| #[trigger] ev.contains(w) ==> usage_le(e0[w], e0[m]),
    decreases ev.len(),
{
    let x = ev.choose();
    let rest = ev.remove(x);
    if rest.len() == 0 {
        assert forall|w: i32| #[trigger] ev.contains(w) implies usage_le(e0[w], e0[x]) by {
            if w != x {
                assert(rest.contains(w));
            }
        }
    } else {
        lemma_usage_max_exists(e0, rest);
        let m = choose|m: i32|
            rest.contains(m) && forall|w: i32| #[trigger] rest.contains(w) ==> usage_le(e0[w], e0[m]);
        if usage_le(e0[m], e0[x]) {
            assert forall|w: i32| #[trigger] ev.contains(w) implies usage_le(e0[w], e0[x]) by {
                if w != x {
                    assert(rest.contains(w));
                }
            }
        } else {
            assert forall|w: i32| #[trigger] ev.contains(w) implies usage_le(e0[w], e0[m]) by {
                if w != x {
                    assert(rest.contains(w));
                }
            }
        }
    }
}

proof fn lemma_admitted_keeps_no_more(
    e0: Map<i32, (u64, u64)>,
    s0: Map<i32, i64>,
    used: int,
    capacity: int,
    file: FileRecord,
    stamp: int,
    e1: Map<i32, (u64, u64)>,
    s1: Map<i32, i64>,
    e2: Map<i32, (u64, u64)>,
    s2: Map<i32, i64>,
)
    requires
        usage_inv(e0, s0, used, capacity, stamp - 1),
        !e0.contains_key(file.label),
        0 <= file.size,
        usage_admitted(e0, s0, e1, s1, file, stamp, capacity),
        usage_admitted(e0, s0, e2, s2, file, stamp, capacity),
        map_total(s2) <= capacity,
        s2.dom().finite(),
    ensures
        forall|v: i32| #[trigger] e2.contains_key(v) ==> e1.contains_key(v),
{
    assert forall|v: i32| #[trigger] e2.contains_key(v) implies e1.contains_key(v) by {
        if !e1.contains_key(v) {
            assert(e0.contains_key(v));
            let ev = e0.dom().filter(|k: i32| !e1.contains_key(k));
            assert(ev.contains(v));
            lemma_usage_max_exists(e0, ev);
            let m = choose|m: i32|
                ev.contains(m) && forall|w: i32| #[trigger] ev.contains(w) ==> usage_le(
                    e0[w],
                    e0[m],
                );
            assert(usage_le(e0[v], e0[m]));
            assert(forall|w: i32|
                #![trigger e0.contains_key(w)]
                e0.contains_key(w) && !e1.contains_key(w) ==> usage_le(e0[w], e0[m])) by {
                assert forall|w: i32|
                    #![trigger e0.contains_key(w)]
                    e0.contains_key(w) && !e1.contains_key(w) implies usage_le(e0[w], e0[m]) by {
                    assert(ev.contains(w));
                }
            }
            assert(map_total(s1) + s0[m] > capacity);
            assert(e2.contains_key(m)) by {
                if !e2.contains_key(m) {
                    assert(e2.contains_key(v) && v != file.label);
                    assert(usage_lt(e0[m], e0[v]));
                }
            }
            assert forall|k: i32| #[trigger] e1.contains_key(k) implies e2.contains_key(k) by {
                if k != file.label && !e2.contains_key(k) {
                    assert(e0.contains_key(k));
                    assert(usage_lt(e0[k], e0[v]));
                    assert(usage_lt(e0[v], e0[k]));
                }
            }
            let a = s1.insert(m, s0[m]);
            assert(!s1.contains_key(m));
            assert(s1.dom().subset_of(s2.dom()));
            assert(s1.dom().finite()) by {
                vstd::set_lib::lemma_len_subset(s1.dom(), s2.dom());
            }
            lemma_map_total_insert(s1, m, s0[m]);
            assert forall|k: i32| #[trigger] s2.contains_key(k) implies s2[k] >= 0 by {
                if k != file.label {
                    assert(e2.contains_key(k));
                    assert(s0.contains_key(k));
                }
            }
            assert forall|k: i32| #[trigger] a.contains_key(k) implies a[k] == s2[k] by {
                if k != m {
                    assert(e1.contains_key(k));
                    if k != file.label {
                        assert(e2.contains_key(k));
                    }
                } else {
                    assert(e2.contains_key(m));
                }
            }
            lemma_map_total_submap(a, s2);
        }
    }
}

/// A miss of a usage-ordered policy has one outcome only: the labels kept,
/// their pairs and sizes are fixed by the state before and the record. With
/// the hit case, which the contracts pin down directly, replaying a trace
/// twice ends in the same state.
pub proof fn lemma_admission_unique(
    e0: Map<i32, (u64, u64)>,
    s0: Map<i32, i64>,
    used: int,
    capacity: int,
    file: FileRecord,
    stamp: int,
    e1: Map<i32, (u64, u64)>,
    s1: Map<i32, i64>,
    e2: Map<i32, (u64, u64)>,
    s2: Map<i32, i64>,
)
    requires
        usage_inv(e0, s0, used, capacity, stamp - 1),
        !e0.contains_key(file.label),
        0 <= file.size,
        usage_admitted(e0, s0, e1, s1, file, stamp, capacity),
        usage_admitted(e0, s0, e2, s2, file, stamp, capacity),
        map_total(s1) <= capacity,
        map_total(s2) <= capacity,
        s1.dom().finite(),
        s2.dom().finite(),
    ensures
        e1 == e2,
        s1 == s2,
{
    lemma_admitted_keeps_no_more(e0, s0, used, capacity, file, stamp, e1, s1, e2, s2);
    lemma_admitted_keeps_no_more(e0, s0, used, capacity, file, stamp, e2, s2, e1, s1);
    assert(e1.dom() =~= e2.dom());
    assert(e1 =~= e2) by {
        assert forall|k: i32| e1.contains_key(k) implies e1[k] == e2[k] by {
            if k != file.label {
                assert(e1.contains_key(k) && e2.contains_key(k));
            }
        }
    }
    assert(s1 =~= s2) by {
        assert forall|k: i32| s1.contains_key(k) implies s1[k] == s2[k] by {
            if k != file.label {
                assert(e1.contains_key(k) && e2.contains_key(k));
            }
        }
    }
}

/// The bookkeeping shared by the usage-ordered policies: `e` and `s` have the
/// same labels, every size lies in `0..=capacity` and they add up to `used`,
/// which fits; every pair has a frequency of at least 1 and a last use of at
/// most `events`, and no two labels share a last use.
pub open spec fn usage_inv(
    e: Map<i32, (u64, u64)>,
    s: Map<i32, i64>,
    used: int,
    capacity: int,
    events: int,
) -> bool {
    &&& s.dom() == e.dom()
    &&& s.dom().finite()
    &&& forall|k: i32| #[trigger] s.contains_key(k) ==> 0 <= s[k] <= capacity
    &&& used == map_total(s)
    &&& 0 <= used <= capacity
    &&& forall|k: i32| #[trigger]
        e.contains_key(k) ==> 1 <= e[k].0 <= events && e[k].1 <= events
    &&& forall|a: i32, b: i32|
        #![trigger e.contains_key(a), e.contains_key(b)]
        e.contains_key(a) && e.contains_key(b) && a != b ==> e[a].1 != e[b].1
}

/// Inserts `file`, which is not resident, with frequency 1 and last use
/// `stamp`, after evicting the labels of smallest (frequency, last use) pair
/// until it fits. Returns the new sum of sizes.
pub(crate) fn evict_and_insert(
    heap: &mut UsageQueue,
    sizes: &mut HashMap<i32, i64>,
    current_used: i64,
    capacity: i64,
    file: FileRecord,
    stamp: u64,
) -> (r: Result<i64, SimError>)
    requires
        usage_inv(
            usage_entries(*old(heap)),
            old(sizes)@,
            current_used as int,
            capacity as int,
            stamp - 1,
        ),
        stamp >= 1,
        !usage_entries(*old(heap)).contains_key(file.label),
        0 <= file.size <= capacity,
    ensures
        r matches Ok(u) && usage_inv(
            usage_entries(*final(heap)),
            final(sizes)@,
            u as int,
            capacity as int,
            stamp as int,
        ) && usage_admitted(
            usage_entries(*old(heap)),
            old(sizes)@,
            usage_entries(*final(heap)),
            final(sizes)@,
            file,
            stamp as int,
            capacity as int,
        ),
{
    let id = file.label;
    let ghost e0 = usage_entries(*heap);
    let ghost s0 = sizes@;
    let ghost mut ev: Set<i32> = Set::empty();
    let ghost mut last: i32 = 0;
    let mut used: i128 = current_used as i128 + file.size as i128;
    while used > capacity as i128
        invariant
            !e0.contains_key(id),
            id == file.label,
            0 <= file.size <= capacity,
            usage_inv(e0, s0, current_used as int, capacity as int, stamp - 1),
            sizes@.dom() == usage_entries(*heap).dom(),
            sizes@.dom().finite(),
            forall|k: i32| #[trigger]
                usage_entries(*heap).contains_key(k) ==> e0.contains_key(k)
                    && usage_entries(*heap)[k] == e0[k] && sizes@[k] == s0[k],
            forall|k: i32| #[trigger]
                e0.contains_key(k) ==> (usage_entries(*heap).contains_key(k) <==> !ev.contains(k)),
            forall|k: i32| #[trigger] ev.contains(k) ==> e0.contains_key(k),
            used == map_total(sizes@) + file.size,
            forall|v: i32, k: i32|
                #![trigger ev.contains(v), usage_entries(*heap).contains_key(k)]
                ev.contains(v) && usage_entries(*heap).contains_key(k) ==> usage_lt(e0[v], e0[k]),
            ev.len() > 0 ==> {
                &&& ev.contains(last)
                &&& forall|w: i32| #[trigger] ev.contains(w) ==> usage_le(e0[w], e0[last])
                &&& used + s0[last] > capacity
            },
            ev.finite(),
        decreases sizes@.dom().len(),
    {
        let ghost e = usage_entries(*heap);
        let popped = match usage_queue_pop(heap) {
            Some(p) => p,
            None => {
                proof {
                    lemma_map_total_empty(sizes@);
                }
                return Err(SimError::EvictedJustInserted);
            },
        };
        let (label, usage) = popped;
        if label == id {
            return Err(SimError::EvictedJustInserted);
        }
        let ghost sz_before = sizes@;
        let removed = sizes.remove(&label);
        let psize = match removed {
            Some(s) => s,
            None => {
                return Err(SimError::EvictedJustInserted);
            },
        };
        proof {
            assert(e.contains_key(label));
            assert(e0.contains_key(label));
            assert(s0[label] == psize);
            lemma_map_total_remove(sz_before, label);
            assert(sizes@ =~= sz_before.remove(label));
            assert forall|k: i32| #[trigger]
                usage_entries(*heap).contains_key(k) implies usage_lt(e0[label], e0[k]) by {
                assert(e.contains_key(k));
                assert(usage_le(usage, e[k]));
                assert(e0[k].1 != e0[label].1);
            }
            ev = ev.insert(label);
            last = label;
            assert forall|w: i32| #[trigger] ev.contains(w) implies usage_le(e0[w], e0[last]) by {
                if w != label {
                    assert(usage_lt(e0[w], e0[label]));
                }
            }
            assert(sizes@.dom() =~= usage_entries(*heap).dom());
        }
        used = used - psize as i128;
    }
    proof {
        lemma_map_total_insert(sizes@, id, file.size);
        lemma_map_total_nonneg(sizes@);
    }
    usage_queue_push(heap, id, (1, stamp));
    sizes.insert(id, file.size);
    proof {
        let e1 = usage_entries(*heap);
        assert(sizes@.dom() =~= e1.dom());
    }
    Ok(used as i64)
}

/// Least-frequently-used policy: evicts the resident label with the fewest
/// hits, the least recently used one among equals. Recency is the event
/// count at the label's last access.
pub struct LFU {
    heap: UsageQueue,
    /// Size of each resident label, for constant-time membership tests.
    sizes: HashMap<i32, i64>,
    current_used: i64,
    size: i64,
    event_count: u64,
    hit_count: i32,
}

impl LFU {
    /// Each resident label with its (frequency, last use) pair.
    pub closed spec fn entries(&self) -> Map<i32, (u64, u64)> {
        usage_entries(self.heap)
    }

    /// Each resident label with its size.
    pub closed spec fn sizes(&self) -> Map<i32, i64> {
        self.sizes@
    }

    /// The invariant in terms of the views.
    pub proof fn lemma_state(&self)
        requires
            self.inv(),
        ensures
            usage_inv(self.entries(), self.sizes(), self.used(), self.capacity(), self.events()),
            forall|l: i32| self.holds(l) <==> #[trigger] self.entries().contains_key(l),
    {
    }
}

impl LFU {
    /// Two states that end a miss on `file` from the same state `a`, as
    /// `simulate` describes it, hold the same labels with the same pairs and
    /// sizes and use the same space: a replay decides every miss one way.
    pub proof fn lemma_miss_deterministic(a: &LFU, b1: &LFU, b2: &LFU, file: FileRecord)
        requires
            a.inv(),
            b1.inv(),
            b2.inv(),
            !a.holds(file.label),
            0 <= file.size <= a.capacity(),
            b1.capacity() == a.capacity(),
            b2.capacity() == a.capacity(),
            b1.events() == a.events() + 1,
            b2.events() == a.events() + 1,
            usage_admitted(a.entries(), a.sizes(), b1.entries(), b1.sizes(), file, b1.events(), a.capacity()),
            usage_admitted(a.entries(), a.sizes(), b2.entries(), b2.sizes(), file, b2.events(), a.capacity()),
        ensures
            b1.entries() == b2.entries(),
            b1.sizes() == b2.sizes(),
            b1.used() == b2.used(),
    {
        a.lemma_state();
        b1.lemma_state();
        b2.lemma_state();
        lemma_admission_unique(
            a.entries(),
            a.sizes(),
            a.used(),
            a.capacity(),
            file,
            a.events() + 1,
            b1.entries(),
            b1.sizes(),
            b2.entries(),
            b2.sizes(),
        );
    }

    /// Whether `label` is resident.
    pub fn contains(&self, label: i32) -> (r: bool)
        requires
            self.inv(),
        ensures
            r == self.holds(label),
            r == self.entries().contains_key(label),
    {
        usage_queue_get(&self.heap, label).is_some()
    }

    /// The (frequency, last use) pair of `label`, if it is resident.
    pub fn usage(&self, label: i32) -> (r: Option<(u64, u64)>)
        requires
            self.inv(),
        ensures
            self.entries().contains_key(label) ==> r == Some(self.entries()[label]),
            !self.entries().contains_key(label) ==> r is None,
    {
        usage_queue_get(&self.heap, label)
    }
}

impl CacheAlgorithm for LFU {
    closed spec fn inv(&self) -> bool {
        &&& usage_inv(
            usage_entries(self.heap),
            self.sizes@,
            self.current_used as int,
            self.size as int,
            self.event_count as int,
        )
        &&& 0 <= self.hit_count <= self.event_count <= i32::MAX
    }

    closed spec fn capacity(&self) -> int {
        self.size as int
    }

    closed spec fn used(&self) -> int {
        self.current_used as int
    }

    closed spec fn events(&self) -> int {
        self.event_count as int
    }

    closed spec fn hits(&self) -> int {
        self.hit_count as int
    }

    closed spec fn holds(&self, label: i32) -> bool {
        usage_entries(self.heap).contains_key(label)
    }

    fn new(size: i64) -> (r: Self)
        ensures
            r.entries().dom().len() == 0,
    {
        let heap = usage_queue_new();
        let sizes: HashMap<i32, i64> = HashMap::new();
        proof {
            assert(sizes@.dom() =~= usage_entries(heap).dom());
            lemma_map_total_empty(sizes@);
        }
        LFU { heap, sizes, current_used: 0, size, event_count: 0, hit_count: 0 }
    }

    fn simulate(&mut self, file: FileRecord) -> (r: Result<(), SimError>)
        ensures
            r is Err ==> final(self).entries() == old(self).entries() && final(self).sizes()
                == old(self).sizes(),
            r is Ok && old(self).holds(file.label) ==> {
                &&& final(self).sizes() == old(self).sizes()
                &&& final(self).entries() == old(self).entries().insert(
                    file.label,
                    ((old(self).entries()[file.label].0 + 1) as u64, final(self).events() as u64),
                )
            },
            r is Ok && !old(self).holds(file.label) ==> usage_admitted(
                old(self).entries(),
                old(self).sizes(),
                final(self).entries(),
                final(self).sizes(),
                file,
                final(self).events(),
                old(self).capacity(),
            ),
            !(r matches Err(SimError::EvictedJustInserted)),
    {
        if file.size > self.size {
            return Err(SimError::OversizedRecord);
        }
        self.event_count = self.event_count + 1;
        let id = file.label;
        match usage_queue_get(&self.heap, id) {
            Some(usage) => {
                self.hit_count = self.hit_count + 1;
                usage_queue_push(&mut self.heap, id, (usage.0 + 1, self.event_count));
                proof {
                    let e = usage_entries(self.heap);
                    assert(self.sizes@.dom() =~= e.dom());
                }
                return Ok(());
            },
            None => {},
        }
        let used = evict_and_insert(
            &mut self.heap,
            &mut self.sizes,
            self.current_used,
            self.size,
            file,
            self.event_count,
        )?;
        self.current_used = used;
        Ok(())
    }

    fn stats(&self) -> (r: (i32, i32)) {
        (self.event_count as i32, self.hit_count)
    }
}

} // verus!

use vstd::prelude::*;

verus! {

/// One access of a trace: which object, and how many bytes it occupies.
#[derive(Clone, Copy, PartialEq, Eq, Structural, Debug, Hash)]
pub struct FileRecord {
    pub label: i32,
    pub size: i64,
}

impl FileRecord {
    pub fn new(label: i32, size: i64) -> (r: FileRecord)
        ensures
            r.label == label,
            r.size == size,
    {
        FileRecord { label, size }
    }
}

/// Why a policy refused a record.
#[derive(Clone, Copy, PartialEq, Eq, Structural, Debug)]
pub enum SimError {
    /// The record is larger than the whole cache: it can never be admitted.
    OversizedRecord,
    /// Eviction reached the record that was being admitted: the size
    /// bookkeeping is inconsistent.
    EvictedJustInserted,
}

/// Sum of the sizes of the records of `q`.
pub open spec fn total_size(q: Seq<FileRecord>) -> int
    decreases q.len(),
{
    if q.len() == 0 {
        0
    } else {
        total_size(q.drop_last()) + q.last().size
    }
}

/// The labels that occur in `q`.
pub open spec fn labels_of(q: Seq<FileRecord>) -> Set<i32> {
    Set::new(|l: i32| exists|i: int| 0 <= i < q.len() && q[i].label == l)
}

/// No label occurs twice in `q`.
pub open spec fn distinct_labels(q: Seq<FileRecord>) -> bool {
    forall|i: int, j: int| 0 <= i < j < q.len() ==> q[i].label != q[j].label
}

/// Every record of `q` has a size in `0..=capacity`.
pub open spec fn sizes_fit(q: Seq<FileRecord>, capacity: int) -> bool {
    forall|i: int| 0 <= i < q.len() ==> 0 <= #[trigger] q[i].size <= capacity
}

pub proof fn lemma_total_size_nonneg(q: Seq<FileRecord>, capacity: int)
    requires
        sizes_fit(q, capacity),
    ensures
        total_size(q) >= 0,
    decreases q.len(),
{
    if q.len() > 0 {
        assert(sizes_fit(q.drop_last(), capacity)) by {
            assert forall|i: int| 0 <= i < q.drop_last().len() implies 0
                <= #[trigger] q.drop_last()[i].size <= capacity by {
                assert(q.drop_last()[i] == q[i]);
            }
        }
        lemma_total_size_nonneg(q.drop_last(), capacity);
        assert(q.last() == q[q.len() - 1]);
    }
}

pub proof fn lemma_total_size_prepend(r: FileRecord, q: Seq<FileRecord>)
    ensures
        total_size(seq![r] + q) == r.size + total_size(q),
    decreases q.len(),
{
    let s = seq![r] + q;
    if q.len() > 0 {
        assert(s.drop_last() =~= seq![r] + q.drop_last());
        assert(s.last() == q.last());
        lemma_total_size_prepend(r, q.drop_last());
    } else {
        assert(s.drop_last() =~= Seq::<FileRecord>::empty());
        assert(s.last() == r);
        assert(q =~= Seq::<FileRecord>::empty());
    }
}

/// Sum of the values of a finite map of sizes.
pub open spec fn map_total(m: Map<i32, i64>) -> int
    decreases m.dom().len(),
{
    if m.dom().finite() && exists|k: i32| m.contains_key(k) {
        let k = choose|k: i32| m.contains_key(k);
        m[k] + map_total(m.remove(k))
    } else {
        0
    }
}

pub proof fn lemma_map_total_remove(m: Map<i32, i64>, k: i32)
    requires
        m.dom().finite(),
        m.contains_key(k),
    ensures
        map_total(m) == m[k] + map_total(m.remove(k)),
    decreases m.dom().len(),
{
    let c = choose|c: i32| m.contains_key(c);
    if c != k {
        lemma_map_total_remove(m.remove(c), k);
        lemma_map_total_remove(m.remove(k), c);
        assert(m.remove(c).remove(k) =~= m.remove(k).remove(c));
    }
}

pub proof fn lemma_map_total_insert(m: Map<i32, i64>, k: i32, v: i64)
    requires
        m.dom().finite(),
        !m.contains_key(k),
    ensures
        map_total(m.insert(k, v)) == v + map_total(m),
{
    lemma_map_total_remove(m.insert(k, v), k);
    assert(m.insert(k, v).remove(k) =~= m);
}

pub proof fn lemma_map_total_empty(m: Map<i32, i64>)
    requires
        m.dom().finite(),
        m.dom().len() == 0,
    ensures
        map_total(m) == 0,
{
    if exists|k: i32| m.contains_key(k) {
        let k = choose|k: i32| m.contains_key(k);
        assert(m.dom().contains(k));
    }
}

pub proof fn lemma_map_total_nonneg(m: Map<i32, i64>)
    requires
        m.dom().finite(),
        forall|k: i32| #[trigger] m.contains_key(k) ==> m[k] >= 0,
    ensures
        map_total(m) >= 0,
    decreases m.dom().len(),
{
    if exists|k: i32| m.contains_key(k) {
        let k = choose|k: i32| m.contains_key(k);
        lemma_map_total_nonneg(m.remove(k));
    }
}

/// A map of non-negative sizes adds up to at least any part of it.
pub proof fn lemma_map_total_submap(a: Map<i32, i64>, b: Map<i32, i64>)
    requires
        b.dom().finite(),
        a.dom().subset_of(b.dom()),
        forall|k: i32| #[trigger] a.contains_key(k) ==> a[k] == b[k],
        forall|k: i32| #[trigger] b.contains_key(k) ==> b[k] >= 0,
    ensures
        map_total(a) <= map_total(b),
    decreases b.dom().len(),
{
    if exists|k: i32| b.contains_key(k) && !a.contains_key(k) {
        let k = choose|k: i32| b.contains_key(k) && !a.contains_key(k);
        lemma_map_total_remove(b, k);
        lemma_map_total_submap(a, b.remove(k));
    } else {
        assert(a =~= b);
    }
}

} // verus!

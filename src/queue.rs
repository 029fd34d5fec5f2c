use vstd::prelude::*;
use std::cmp::Reverse;
use std::hash::Hash;
use priority_queue::PriorityQueue;

verus! {

#[verifier::external_type_specification]
#[verifier::external_body]
#[verifier::reject_recursive_types(T)]
pub struct ExReverse<T>(Reverse<T>);

#[verifier::external_type_specification]
#[verifier::external_body]
#[verifier::reject_recursive_types(I)]
#[verifier::reject_recursive_types(P)]
#[verifier::reject_recursive_types(H)]
pub struct ExPriorityQueue<I: Hash + Eq, P: Ord, H>(PriorityQueue<I, P, H>);

/// The queue of resident labels; the label popped first is one with the
/// smallest (frequency, last use) pair.
pub type UsageQueue = PriorityQueue<i32, Reverse<(u64, u64)>>;

/// What a usage queue holds: each label with its (frequency, last use) pair.
pub uninterp spec fn usage_entries(q: UsageQueue) -> Map<i32, (u64, u64)>;

/// `a` comes before `b` in the lexicographic order of pairs.
pub open spec fn usage_le(a: (u64, u64), b: (u64, u64)) -> bool {
    a.0 < b.0 || (a.0 == b.0 && a.1 <= b.1)
}

/// Relies on `PriorityQueue::new`: a new queue is empty.
#[verifier::external_body]
pub(crate) fn usage_queue_new() -> (r: UsageQueue)
    ensures
        usage_entries(r).dom().len() == 0,
        usage_entries(r).dom().finite(),
{
    PriorityQueue::new()
}

/// Relies on `PriorityQueue::get_priority`: the priority stored for the
/// item, if it is in the queue.
#[verifier::external_body]
pub(crate) fn usage_queue_get(q: &UsageQueue, label: i32) -> (r: Option<(u64, u64)>)
    ensures
        usage_entries(*q).contains_key(label) ==> r == Some(usage_entries(*q)[label]),
        !usage_entries(*q).contains_key(label) ==> r is None,
{
    q.get_priority(&label).map(|p| p.0)
}

/// Relies on `PriorityQueue::push`: the item is added, or its priority
/// replaced if it was already there.
#[verifier::external_body]
pub(crate) fn usage_queue_push(q: &mut UsageQueue, label: i32, usage: (u64, u64))
    ensures
        usage_entries(*final(q)) == usage_entries(*old(q)).insert(label, usage),
{
    q.push(label, Reverse(usage));
}

/// Relies on `PriorityQueue::pop`: removes and returns an item of greatest
/// priority, which under `Reverse` is one of smallest pair; `None` when
/// the queue is empty.
#[verifier::external_body]
pub(crate) fn usage_queue_pop(q: &mut UsageQueue) -> (r: Option<(i32, (u64, u64))>)
    ensures
        match r {
            Some((label, usage)) => {
                &&& usage_entries(*old(q)).contains_key(label)
                &&& usage_entries(*old(q))[label] == usage
                &&& forall|k: i32| #[trigger]
                    usage_entries(*old(q)).contains_key(k) ==> usage_le(
                        usage,
                        usage_entries(*old(q))[k],
                    )
                &&& usage_entries(*final(q)) == usage_entries(*old(q)).remove(label)
            },
            None => {
                &&& usage_entries(*old(q)).dom().len() == 0
                &&& usage_entries(*final(q)) == usage_entries(*old(q))
            },
        },
{
    q.pop().map(|(label, usage)| (label, usage.0))
}

} // verus!

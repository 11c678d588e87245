//! The pending index: job identifier to dispatch key, popped highest key first.
use vstd::prelude::*;
use priority_queue::PriorityQueue;
use std::hash::Hash;

verus! {

#[verifier::external_type_specification]
#[verifier::external_body]
#[verifier::reject_recursive_types(I)]
#[verifier::reject_recursive_types(P)]
#[verifier::reject_recursive_types(H)]
pub struct ExPriorityQueue<I: Hash + Eq, P: Ord, H>(PriorityQueue<I, P, H>);

/// The entries of a pending index: each identifier with its key.
pub uninterp spec fn entries(q: PriorityQueue<u128, i64>) -> Map<u128, i64>;

/// An index with no entries.
pub open spec fn empty_index() -> Map<u128, i64> {
    Map::empty()
}

/// Relies on `PriorityQueue::new`: an empty queue.
#[verifier::external_body]
pub(crate) fn queue_new() -> (r: PriorityQueue<u128, i64>)
    ensures
        entries(r) == empty_index(),
{
    PriorityQueue::new()
}

/// Relies on `PriorityQueue::len`: the number of items held.
#[verifier::external_body]
pub(crate) fn queue_len(q: &PriorityQueue<u128, i64>) -> (r: usize)
    ensures
        r == entries(*q).len(),
{
    q.len()
}

/// Relies on `PriorityQueue::push`: adds the item, or sets the priority of
/// an item already held.
#[verifier::external_body]
pub(crate) fn queue_push(q: &mut PriorityQueue<u128, i64>, id: u128, key: i64)
    ensures
        entries(*final(q)) == entries(*old(q)).insert(id, key),
{
    q.push(id, key);
}

/// Relies on `PriorityQueue::pop`: removes and returns an item of greatest
/// priority, or `None` when the queue is empty.
#[verifier::external_body]
pub(crate) fn queue_pop(q: &mut PriorityQueue<u128, i64>) -> (r: Option<(u128, i64)>)
    ensures
        match r {
            None => entries(*old(q)).dom() == empty_index().dom() && entries(*final(q)) == entries(*old(q)),
            Some((id, key)) => {
                &&& entries(*old(q)).contains_key(id)
                &&& entries(*old(q))[id] == key
                &&& forall|j: u128| #[trigger]
                    entries(*old(q)).contains_key(j) ==> entries(*old(q))[j] <= key
                &&& entries(*final(q)) == entries(*old(q)).remove(id)
            },
        },
{
    q.pop()
}

/// Relies on `PriorityQueue::clear`: drops every item.
#[verifier::external_body]
pub(crate) fn queue_clear(q: &mut PriorityQueue<u128, i64>)
    ensures
        entries(*final(q)) == empty_index(),
{
    q.clear()
}

} // verus!

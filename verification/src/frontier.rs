//! The frontier of the A* search: a priority queue of the `priority_queue`
//! crate that holds the numbers of configurations with their priorities.
//!
//! The queue itself is not verified. What this module states of it is taken
//! from the crate's documentation and believed.

use priority_queue::PriorityQueue;
use vstd::prelude::*;

verus! {

/// The queue of the `priority_queue` crate. Nothing is known of what is
/// inside one but what the functions below say.
#[verifier::external_type_specification]
#[verifier::external_body]
#[verifier::reject_recursive_types(I)]
#[verifier::reject_recursive_types(P)]
#[verifier::reject_recursive_types(H)]
pub struct ExPriorityQueue<I, P, H>(PriorityQueue<I, P, H>);

/// The items of a queue with their priorities.
pub uninterp spec fn queue_entries(queue: PriorityQueue<u64, i128>) -> Map<u64, i128>;

/// `PriorityQueue::new`: the new queue holds nothing.
#[verifier::external_body]
pub(crate) fn queue_new() -> (fresh: PriorityQueue<u64, i128>)
    ensures
        queue_entries(fresh) =~= Map::empty(),
{
    PriorityQueue::new()
}

/// `PriorityQueue::len`: the number of items in the queue.
#[verifier::external_body]
pub(crate) fn queue_len(queue: &PriorityQueue<u64, i128>) -> (n: usize)
    ensures
        n == queue_entries(*queue).dom().len(),
{
    queue.len()
}

/// `PriorityQueue::push`: the item is in the queue with the given priority
/// afterwards, whether it was in it before or not, and nothing else
/// changes. The result is the priority that the item had before, if it was
/// in the queue.
#[verifier::external_body]
pub(crate) fn queue_push(queue: &mut PriorityQueue<u64, i128>, item: u64, priority: i128) -> (before:
    Option<i128>)
    ensures
        queue_entries(*final(queue)) == queue_entries(*old(queue)).insert(item, priority),
        before == if queue_entries(*old(queue)).contains_key(item) {
            Some(queue_entries(*old(queue))[item])
        } else {
            None
        },
{
    queue.push(item, priority)
}

/// `PriorityQueue::pop`: takes an item of the greatest priority out of the
/// queue and gives it with its priority; which one, if several have the
/// greatest priority, is open. An empty queue gives nothing and stays
/// empty.
#[verifier::external_body]
pub(crate) fn queue_pop(queue: &mut PriorityQueue<u64, i128>) -> (top: Option<(u64, i128)>)
    ensures
        match top {
            Some((item, priority)) => {
                &&& queue_entries(*old(queue)).contains_key(item)
                &&& queue_entries(*old(queue))[item] == priority
                &&& forall|other: u64|
                    queue_entries(*old(queue)).contains_key(other) ==> #[trigger] queue_entries(
                        *old(queue),
                    )[other] <= priority
                &&& queue_entries(*final(queue)) == queue_entries(*old(queue)).remove(item)
            },
            None => {
                &&& queue_entries(*old(queue)) == Map::<u64, i128>::empty()
                &&& queue_entries(*final(queue)) == queue_entries(*old(queue))
            },
        },
{
    queue.pop()
}

/// `PriorityQueue::get`: the priority of an item, if it is in the queue.
#[verifier::external_body]
pub(crate) fn queue_get(queue: &PriorityQueue<u64, i128>, item: u64) -> (priority: Option<i128>)
    ensures
        priority == if queue_entries(*queue).contains_key(item) {
            Some(queue_entries(*queue)[item])
        } else {
            None
        },
{
    queue.get(&item).map(|(_, priority)| *priority)
}

} // verus!

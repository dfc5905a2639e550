//! The bounded first-in-first-out queue that the executor and the timers
//! keep their handles in.

use vstd::prelude::*;
use crossbeam_queue::ArrayQueue;

verus! {

/// `crossbeam_queue::ArrayQueue`, a bounded queue that hands its items out
/// in the order in which they came in. Nothing of its inside is known
/// here.
#[verifier::external_type_specification]
#[verifier::external_body]
#[verifier::reject_recursive_types(T)]
pub struct ExArrayQueue<T>(ArrayQueue<T>);

/// What a queue holds, oldest first.
pub uninterp spec fn queue_items(q: ArrayQueue<usize>) -> Seq<usize>;

/// The number of items that a queue was made for.
pub uninterp spec fn queue_capacity(q: ArrayQueue<usize>) -> nat;

/// `ArrayQueue::new`: an empty queue for `cap` items. The queue panics
/// on a capacity of 0; it rounds the capacity plus one up to a power of
/// two, which must fit in a `usize`; and it makes a vector of as many
/// slots, which must fit in an allocation. What does not is left out.
#[verifier::external_body]
pub(crate) fn queue_new(cap: usize) -> (q: ArrayQueue<usize>)
    requires
        0 < cap <= 0x100_0000,
    ensures
        queue_items(q) == Seq::<usize>::empty(),
        queue_capacity(q) == cap,
{
    ArrayQueue::new(cap)
}

/// `ArrayQueue::push`: the item goes to the tail unless the queue holds
/// as many items as it was made for; then the queue stays as it is and the
/// result is `false`.
#[verifier::external_body]
pub(crate) fn queue_push(q: &mut ArrayQueue<usize>, value: usize) -> (pushed: bool)
    ensures
        queue_capacity(*final(q)) == queue_capacity(*old(q)),
        pushed == (queue_items(*old(q)).len() < queue_capacity(*old(q))),
        queue_items(*final(q)) == (if pushed {
            queue_items(*old(q)).push(value)
        } else {
            queue_items(*old(q))
        }),
{
    q.push(value).is_ok()
}

/// `ArrayQueue::pop`: the item at the head leaves the queue; there is none
/// where the queue is empty.
#[verifier::external_body]
pub(crate) fn queue_pop(q: &mut ArrayQueue<usize>) -> (value: Option<usize>)
    ensures
        queue_capacity(*final(q)) == queue_capacity(*old(q)),
        match value {
            Some(v) => queue_items(*old(q)).len() > 0 && v == queue_items(*old(q))[0] && queue_items(*final(q))
                == queue_items(*old(q)).subrange(1, queue_items(*old(q)).len() as int),
            None => queue_items(*old(q)).len() == 0 && queue_items(*final(q)) == queue_items(*old(q)),
        },
{
    q.pop().ok()
}

/// `ArrayQueue::len`: the number of items in the queue.
#[verifier::external_body]
pub(crate) fn queue_len(q: &ArrayQueue<usize>) -> (n: usize)
    ensures
        n == queue_items(*q).len(),
{
    q.len()
}

} // verus!

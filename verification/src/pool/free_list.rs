//! Queue of free slot indices, on the unbounded queue of crossbeam.
use vstd::prelude::*;

use crossbeam_queue::SegQueue;

verus! {

/// The unbounded queue of crossbeam.
#[verifier::external_type_specification]
#[verifier::external_body]
#[verifier::reject_recursive_types(T)]
pub struct ExSegQueue<T>(SegQueue<T>);

/// The elements of a queue, the next one to leave first.
pub uninterp spec fn queued(q: SegQueue<u32>) -> Seq<u32>;

/// `SegQueue::new`: an empty queue.
#[verifier::external_body]
pub(crate) fn queue_new() -> (q: SegQueue<u32>)
    ensures
        queued(q) == Seq::<u32>::empty(),
{
    SegQueue::new()
}

/// `SegQueue::push`, on a queue that nobody else is using: the element
/// joins at the tail.
#[verifier::external_body]
pub(crate) fn queue_push(q: &mut SegQueue<u32>, v: u32)
    ensures
        queued(*final(q)) == queued(*old(q)).push(v),
{
    q.push(v);
}

/// `SegQueue::pop`, on a queue that nobody else is using: the head leaves,
/// and `None` comes back from an empty queue alone.
#[verifier::external_body]
pub(crate) fn queue_pop(q: &mut SegQueue<u32>) -> (r: Option<u32>)
    ensures
        match r {
            Some(v) => queued(*old(q)).len() > 0 && v == queued(*old(q))[0] && queued(*final(q))
                == queued(*old(q)).drop_first(),
            None => queued(*old(q)).len() == 0 && queued(*final(q)) == queued(*old(q)),
        },
{
    q.pop()
}

} // verus!

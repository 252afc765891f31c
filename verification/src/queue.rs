//! The work queue of the absorbing-boundary solver: an unbounded FIFO queue
//! of coordinate/distance triples from an outside crate, taken on trust
//! through thin wrappers.
//!
//! `crossbeam_queue::SegQueue` pushes to the tail and pops from the head, so
//! its contents are modeled as a sequence with the head first.

use crossbeam_queue::SegQueue;
use vstd::prelude::*;

verus! {

#[verifier::external_type_specification]
#[verifier::external_body]
#[verifier::reject_recursive_types(T)]
pub struct ExSegQueue<T>(SegQueue<T>);

/// What the queue holds, head first: each item is an `(x, y, distance)`
/// triple.
pub uninterp spec fn queue_items(q: SegQueue<(i32, i32, i32)>) -> Seq<(i32, i32, i32)>;

/// Relies on crossbeam_queue::SegQueue::new: a newly created queue is empty.
#[verifier::external_body]
pub(crate) fn queue_new() -> (q: SegQueue<(i32, i32, i32)>)
    ensures
        queue_items(q) == Seq::<(i32, i32, i32)>::empty(),
{
    SegQueue::new()
}

/// Relies on crossbeam_queue::SegQueue::push: appends the value at the tail.
#[verifier::external_body]
pub(crate) fn queue_push(q: &mut SegQueue<(i32, i32, i32)>, item: (i32, i32, i32))
    ensures
        queue_items(*final(q)) == queue_items(*old(q)).push(item),
{
    q.push(item)
}

/// Relies on crossbeam_queue::SegQueue::pop: removes and returns the head
/// element, or returns nothing when the queue is empty.
#[verifier::external_body]
pub(crate) fn queue_pop(q: &mut SegQueue<(i32, i32, i32)>) -> (r: Option<(i32, i32, i32)>)
    ensures
        queue_items(*old(q)).len() == 0 ==> r is None && queue_items(*final(q)) == queue_items(
            *old(q),
        ),
        queue_items(*old(q)).len() > 0 ==> r == Some(queue_items(*old(q))[0]) && queue_items(
            *final(q),
        ) == queue_items(*old(q)).drop_first(),
{
    q.pop()
}

/// Relies on crossbeam_queue::SegQueue::is_empty.
#[verifier::external_body]
pub(crate) fn queue_is_empty(q: &SegQueue<(i32, i32, i32)>) -> (r: bool)
    ensures
        r == (queue_items(*q).len() == 0),
{
    q.is_empty()
}

} // verus!

//! The queue of wakes that come from other threads.

use crossbeam_queue::SegQueue;
use vstd::prelude::*;

verus! {

/// `crossbeam_queue::SegQueue`, an unbounded queue.
#[verifier::external_type_specification]
#[verifier::external_body]
#[verifier::reject_recursive_types(T)]
pub struct ExSegQueue<T>(crossbeam_queue::SegQueue<T>);

/// The items of a queue of task ids, the oldest first.
pub uninterp spec fn queue_items(q: SegQueue<u32>) -> Seq<u32>;

/// `SegQueue::new`: an empty queue.
#[verifier::external_body]
fn queue_new() -> (q: SegQueue<u32>)
    ensures
        queue_items(q) == Seq::<u32>::empty(),
{
    SegQueue::new()
}

/// `SegQueue::push`: the item goes behind all others. The caller is the only one that uses the
/// queue meanwhile.
#[verifier::external_body]
fn queue_push(q: &mut SegQueue<u32>, value: u32)
    ensures
        queue_items(*final(q)) == queue_items(*old(q)).push(value),
{
    q.push(value)
}

/// `SegQueue::pop`: the oldest item leaves; `None`, and no change, if there is none. The caller
/// is the only one that uses the queue meanwhile.
#[verifier::external_body]
fn queue_pop(q: &mut SegQueue<u32>) -> (r: Option<u32>)
    ensures
        queue_items(*old(q)).len() == 0 ==> r is None && queue_items(*final(q)) == queue_items(
            *old(q),
        ),
        queue_items(*old(q)).len() > 0 ==> r == Some(queue_items(*old(q))[0]) && queue_items(*final(q))
            == queue_items(*old(q)).drop_first(),
{
    q.pop()
}

/// `SegQueue::is_empty`: is there no item?
#[verifier::external_body]
fn queue_is_empty(q: &SegQueue<u32>) -> (r: bool)
    ensures
        r == (queue_items(*q).len() == 0),
{
    q.is_empty()
}

/// First-in first-out queue of the tasks that other threads have woken.
pub struct RemoteQueue {
    queue: SegQueue<u32>,
}

impl View for RemoteQueue {
    type V = Seq<u32>;

    closed spec fn view(&self) -> Seq<u32> {
        queue_items(self.queue)
    }
}

impl RemoteQueue {
    pub fn new() -> (r: RemoteQueue)
        ensures
            r@ == Seq::<u32>::empty(),
    {
        RemoteQueue { queue: queue_new() }
    }

    /// Adds an id behind all others.
    pub fn push(&mut self, value: u32)
        ensures
            final(self)@ == old(self)@.push(value),
    {
        queue_push(&mut self.queue, value)
    }

    /// Takes the oldest id out.
    pub fn pop(&mut self) -> (r: Option<u32>)
        ensures
            old(self)@.len() == 0 ==> r is None && final(self)@ == old(self)@,
            old(self)@.len() > 0 ==> r == Some(old(self)@[0]) && final(self)@ == old(self)@.drop_first(),
    {
        queue_pop(&mut self.queue)
    }

    pub fn is_empty(&self) -> (r: bool)
        ensures
            r == (self@.len() == 0),
    {
        queue_is_empty(&self.queue)
    }
}

/// One use of a queue.
pub enum QueueOp {
    Push(u32),
    Pop,
}

/// What a queue holds after some uses of it, what was pushed meanwhile, and what came out.
pub open spec fn used(q: Seq<u32>, ops: Seq<QueueOp>) -> (Seq<u32>, Seq<u32>, Seq<u32>)
    decreases ops.len(),
{
    if ops.len() == 0 {
        (q, Seq::empty(), Seq::empty())
    } else {
        let (held, pushed, popped) = used(q, ops.drop_last());
        match ops.last() {
            QueueOp::Push(value) => (held.push(value), pushed.push(value), popped),
            QueueOp::Pop => if held.len() == 0 {
                (held, pushed, popped)
            } else {
                (held.drop_first(), pushed, popped.push(held[0]))
            },
        }
    }
}

/// What was pushed comes out in the order in which it went in, however pushing and popping take
/// turns: nothing is lost, added or reordered.
pub proof fn pops_in_push_order(q: Seq<u32>, ops: Seq<QueueOp>)
    ensures
        ({
            let (held, pushed, popped) = used(q, ops);
            q + pushed == popped + held
        }),
    decreases ops.len(),
{
    let (held, pushed, popped) = used(q, ops);
    if ops.len() == 0 {
        assert(q + pushed =~= popped + held);
    } else {
        pops_in_push_order(q, ops.drop_last());
        let (held0, pushed0, popped0) = used(q, ops.drop_last());
        match ops.last() {
            QueueOp::Push(value) => {
                assert(q + pushed =~= (q + pushed0).push(value));
                assert(popped + held =~= (popped0 + held0).push(value));
            },
            QueueOp::Pop => {
                assert(popped + held =~= popped0 + held0);
            },
        }
    }
}

} // verus!

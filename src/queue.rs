//! A fixed-capacity FIFO of tickets, held in crossbeam's `ArrayQueue`.
use vstd::prelude::*;

use crossbeam::queue::ArrayQueue;

verus! {

/// The largest capacity a queue of tickets can be created with.
///
/// `ArrayQueue::new` allocates one slot of 16 bytes per unit of capacity up front, and an
/// allocation must stay below `isize::MAX` bytes.
pub const MAX_QUEUE_CAPACITY: usize = usize::MAX / 32;

/// crossbeam's `ArrayQueue`, declared so that a queue can be held in a field; what it holds
/// is known only through `queued` and `queue_bound`.
#[verifier::external_type_specification]
#[verifier::external_body]
#[verifier::reject_recursive_types(T)]
pub struct ExArrayQueue<T>(ArrayQueue<T>);

/// The tickets an `ArrayQueue` holds, oldest first.
pub uninterp spec fn queued(q: ArrayQueue<u64>) -> Seq<u64>;

/// The capacity an `ArrayQueue` was created with.
pub uninterp spec fn queue_bound(q: ArrayQueue<u64>) -> nat;

/// Relies on `ArrayQueue::new`: an empty queue with `cap` slots (it panics on a zero capacity).
#[verifier::external_body]
fn array_queue_new(cap: usize) -> (q: ArrayQueue<u64>)
    requires
        0 < cap <= MAX_QUEUE_CAPACITY,
    ensures
        queued(q) == Seq::<u64>::empty(),
        queue_bound(q) == cap,
{
    ArrayQueue::new(cap)
}

/// Relies on `ArrayQueue::push_mut`: with exclusive access the value goes to the back,
/// unless the queue is full, in which case it comes back as the error.
#[verifier::external_body]
fn array_queue_push(q: &mut ArrayQueue<u64>, v: u64) -> (r: Result<(), u64>)
    ensures
        queue_bound(*final(q)) == queue_bound(*old(q)),
        queued(*old(q)).len() < queue_bound(*old(q)) ==> r is Ok && queued(*final(q))
            == queued(*old(q)).push(v),
        queued(*old(q)).len() >= queue_bound(*old(q)) ==> (r matches Err(back) && back == v
            && queued(*final(q)) == queued(*old(q))),
{
    q.push_mut(v)
}

/// Relies on `ArrayQueue::pop_mut`: with exclusive access the oldest value leaves the front,
/// or `None` comes back from an empty queue.
#[verifier::external_body]
fn array_queue_pop(q: &mut ArrayQueue<u64>) -> (r: Option<u64>)
    ensures
        queue_bound(*final(q)) == queue_bound(*old(q)),
        queued(*old(q)).len() == 0 ==> r is None && queued(*final(q)) == queued(*old(q)),
        queued(*old(q)).len() > 0 ==> r == Some(queued(*old(q))[0]) && queued(*final(q))
            == queued(*old(q)).drop_first(),
{
    q.pop_mut()
}

/// Relies on `ArrayQueue::len`: the number of values held.
#[verifier::external_body]
fn array_queue_len(q: &ArrayQueue<u64>) -> (r: usize)
    ensures
        r == queued(*q).len(),
{
    q.len()
}

/// Relies on `ArrayQueue::capacity`: the capacity the queue was created with.
#[verifier::external_body]
fn array_queue_capacity(q: &ArrayQueue<u64>) -> (r: usize)
    ensures
        r == queue_bound(*q),
{
    q.capacity()
}

/// A bounded queue of tickets: pushing into a full queue hands the ticket back.
pub struct BoundedQueue {
    inner: ArrayQueue<u64>,
}

impl View for BoundedQueue {
    type V = Seq<u64>;

    closed spec fn view(&self) -> Seq<u64> {
        queued(self.inner)
    }
}

impl BoundedQueue {
    /// The number of tickets the queue can hold.
    pub closed spec fn capacity_spec(&self) -> nat {
        queue_bound(self.inner)
    }

    /// The queue never holds more tickets than its capacity, and the capacity is positive.
    pub open spec fn wf(&self) -> bool {
        &&& 0 < self.capacity_spec() <= MAX_QUEUE_CAPACITY
        &&& self@.len() <= self.capacity_spec()
    }

    pub open spec fn is_full_spec(&self) -> bool {
        self@.len() >= self.capacity_spec()
    }

    pub fn new(capacity: usize) -> (q: Self)
        requires
            0 < capacity <= MAX_QUEUE_CAPACITY,
        ensures
            q.wf(),
            q@ == Seq::<u64>::empty(),
            q.capacity_spec() == capacity,
    {
        BoundedQueue { inner: array_queue_new(capacity) }
    }

    /// Non-blocking push: `Err(ticket)` when the queue is full, nothing is ever dropped.
    pub fn push(&mut self, ticket: u64) -> (r: Result<(), u64>)
        requires
            old(self).wf(),
        ensures
            final(self).wf(),
            final(self).capacity_spec() == old(self).capacity_spec(),
            !old(self).is_full_spec() ==> r is Ok && final(self)@ == old(self)@.push(ticket),
            old(self).is_full_spec() ==> (r matches Err(back) && back == ticket && final(self)@ == old(
                self,
            )@),
    {
        array_queue_push(&mut self.inner, ticket)
    }

    /// Non-blocking pop: the oldest ticket, or `None` when the queue is empty.
    pub fn pop(&mut self) -> (r: Option<u64>)
        requires
            old(self).wf(),
        ensures
            final(self).wf(),
            final(self).capacity_spec() == old(self).capacity_spec(),
            old(self)@.len() == 0 ==> r is None && final(self)@ == old(self)@,
            old(self)@.len() > 0 ==> r == Some(old(self)@[0]) && final(self)@ == old(
                self,
            )@.drop_first(),
    {
        array_queue_pop(&mut self.inner)
    }

    pub fn len(&self) -> (r: usize)
        ensures
            r == self@.len(),
    {
        array_queue_len(&self.inner)
    }

    pub fn capacity(&self) -> (r: usize)
        ensures
            r == self.capacity_spec(),
    {
        array_queue_capacity(&self.inner)
    }

    pub fn is_full(&self) -> (r: bool)
        ensures
            r == self.is_full_spec(),
    {
        array_queue_len(&self.inner) >= array_queue_capacity(&self.inner)
    }

    pub fn is_empty(&self) -> (r: bool)
        ensures
            r == (self@.len() == 0),
    {
        array_queue_len(&self.inner) == 0
    }
}

} // verus!

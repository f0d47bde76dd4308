//! Keyboard scancode deferral.  The interrupt handler must never allocate,
//! so it only pushes the raw scancode onto a fixed-capacity lock-free queue
//! and returns; ordinary execution context drains the queue later and does
//! the decoding.  The queue is crossbeam's bounded `ArrayQueue`, trusted at
//! its boundary below.

use crossbeam_queue::ArrayQueue;
use vstd::prelude::*;

use crate::util::Flag;

verus! {

/// Capacity of the scancode queue.
pub const SCANCODE_QUEUE_SIZE: usize = 100;

/// Declares crossbeam's bounded lock-free queue so its values can stand in
/// the stream's field and in the trusted wrappers below.
#[verifier::external_type_specification]
#[verifier::external_body]
#[verifier::reject_recursive_types(T)]
pub struct ExArrayQueue<T>(ArrayQueue<T>);

/// The scancodes a queue holds, oldest first.
pub uninterp spec fn scancode_queue_contents(q: ArrayQueue<u8>) -> Seq<u8>;

/// The capacity a queue was created with.
pub uninterp spec fn scancode_queue_capacity(q: ArrayQueue<u8>) -> int;

/// Relies on crossbeam_queue::ArrayQueue::new: builds an empty queue of
/// the given fixed capacity (its source panics on a zero capacity).
#[verifier::external_body]
fn scancode_queue_new(cap: usize) -> (q: ArrayQueue<u8>)
    requires
        1 <= cap <= 0x10000000,
    ensures
        scancode_queue_contents(q) == Seq::<u8>::empty(),
        scancode_queue_capacity(q) == cap,
{
    ArrayQueue::new(cap)
}

/// Relies on crossbeam_queue::ArrayQueue::push: appends at the tail and
/// succeeds exactly when the queue is not full.
#[verifier::external_body]
fn scancode_queue_push(q: &mut ArrayQueue<u8>, v: u8) -> (r: bool)
    ensures
        scancode_queue_capacity(*final(q)) == scancode_queue_capacity(*old(q)),
        r == (scancode_queue_contents(*old(q)).len() < scancode_queue_capacity(*old(q))),
        r ==> scancode_queue_contents(*final(q)) == scancode_queue_contents(*old(q)).push(v),
        !r ==> scancode_queue_contents(*final(q)) == scancode_queue_contents(*old(q)),
{
    q.push(v).is_ok()
}

/// Relies on crossbeam_queue::ArrayQueue::pop: removes and returns the
/// oldest element, or nothing when the queue is empty.
#[verifier::external_body]
fn scancode_queue_pop(q: &mut ArrayQueue<u8>) -> (r: Option<u8>)
    ensures
        scancode_queue_capacity(*final(q)) == scancode_queue_capacity(*old(q)),
        (r is None) == (scancode_queue_contents(*old(q)).len() == 0),
        r is None ==> scancode_queue_contents(*final(q)) == scancode_queue_contents(*old(q)),
        r matches Some(v) ==> scancode_queue_contents(*old(q)).len() > 0 && v
            == scancode_queue_contents(*old(q))[0] && scancode_queue_contents(*final(q))
            == scancode_queue_contents(*old(q)).drop_first(),
{
    q.pop()
}

/// Relies on crossbeam_queue::ArrayQueue::len: the number of elements held.
#[verifier::external_body]
fn scancode_queue_len(q: &ArrayQueue<u8>) -> (r: usize)
    ensures
        r == scancode_queue_contents(*q).len(),
{
    q.len()
}

/// The stream of raw scancodes between the keyboard interrupt handler and
/// the decoding task: the bounded queue plus the started flag that guards
/// pushes before initialization.
pub struct ScancodeStream {
    queue: ArrayQueue<u8>,
    started: Flag,
}

impl ScancodeStream {
    /// The queued scancodes, oldest first.
    pub closed spec fn contents(self) -> Seq<u8> {
        scancode_queue_contents(self.queue)
    }

    /// The queue's fixed capacity.
    pub closed spec fn capacity(self) -> int {
        scancode_queue_capacity(self.queue)
    }

    /// Whether initialization has marked the stream ready.
    pub closed spec fn is_started(self) -> bool {
        self.started.get_spec()
    }

    /// A fresh, not yet started stream with an empty queue.
    pub fn new() -> (r: ScancodeStream)
        ensures
            r.contents().len() == 0,
            r.capacity() == SCANCODE_QUEUE_SIZE,
            !r.is_started(),
    {
        ScancodeStream { queue: scancode_queue_new(SCANCODE_QUEUE_SIZE), started: Flag::new() }
    }

    /// Marks the stream ready: from now on the interrupt handler's pushes
    /// are accepted.
    pub fn init(&mut self)
        ensures
            final(self).contents() == old(self).contents(),
            final(self).capacity() == old(self).capacity(),
            final(self).is_started(),
    {
        self.started.on();
    }

    /// Number of scancodes waiting.
    pub fn len(&self) -> (r: usize)
        ensures
            r == self.contents().len(),
    {
        scancode_queue_len(&self.queue)
    }

    /// Takes the oldest waiting scancode; the synchronous half of the
    /// stream's poll, with the waker handling left to the executor.
    pub fn poll(&mut self) -> (r: Option<u8>)
        ensures
            final(self).capacity() == old(self).capacity(),
            final(self).is_started() == old(self).is_started(),
            (r is None) == (old(self).contents().len() == 0),
            r is None ==> final(self).contents() == old(self).contents(),
            r matches Some(v) ==> old(self).contents().len() > 0 && v == old(self).contents()[0]
                && final(self).contents() == old(self).contents().drop_first(),
    {
        scancode_queue_pop(&mut self.queue)
    }
}

/// Queues one raw scancode from the keyboard interrupt handler: a
/// non-blocking push and nothing more.  Before initialization the scancode
/// is dropped.  A full queue means keystrokes are arriving faster than the
/// decoder drains them; the kernel treats that as fatal, so the caller must
/// not push into a full queue.
pub fn add_scancode(stream: &mut ScancodeStream, scancode: u8)
    requires
        old(stream).is_started() ==> old(stream).contents().len() < old(stream).capacity(),
    ensures
        final(stream).capacity() == old(stream).capacity(),
        final(stream).is_started() == old(stream).is_started(),
        old(stream).is_started() ==> final(stream).contents() == old(stream).contents().push(
            scancode,
        ),
        !old(stream).is_started() ==> final(stream).contents() == old(stream).contents(),
{
    if stream.started.get() {
        let ok = scancode_queue_push(&mut stream.queue, scancode);
        proof {
            assert(ok);
        }
    }
}

} // verus!

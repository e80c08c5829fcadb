//! Handle lifecycle: the registry of live producer/consumer handles, and the
//! `Sender` / `Receiver` handles client code works through.

use crate::ring::RingBuffer;
use vstd::prelude::*;

verus! {

/// The registry of live handle counts. It is not used for flow control: it
/// only guards the shutdown order, so that the buffer is disposed after the
/// last handle.
pub struct Users {
    pub senders: u32,
    pub receivers: u32,
}

impl Users {
    /// A registry with the given live counts.
    pub fn new(s: u32, r: u32) -> (u: Users)
        ensures
            u.senders == s,
            u.receivers == r,
    {
        Users { senders: s, receivers: r }
    }
}

/// A producer handle: the right to enqueue into a ring buffer.
///
/// A handle does not own the buffer: each operation names the buffer it acts
/// on. The registry inside the buffer counts the live handles of each kind,
/// and the contracts on [`Sender::clone_handle`], [`Sender::dispose`] and
/// [`crate::ring::RingBuffer::dispose`] state the lifecycle rules: cloning or
/// retiring a handle requires one to be recorded live, and the buffer may be
/// retired only after every handle has been.
pub struct Sender {}

/// A consumer handle: the right to dequeue from a ring buffer.
///
/// The lifecycle rules are those of [`Sender`], on the consumer side of the
/// registry.
pub struct Receiver {}

impl Sender {
    /// Enqueue `d` into `rb`: claim the write cursor's position and publish
    /// `d` there. Reports `false`, changing nothing, iff the buffer is full.
    pub fn send<T: Default + Copy>(&self, rb: &mut RingBuffer<T>, d: T) -> (r: bool)
        requires
            old(rb).wf(),
        ensures
            final(rb).wf(),
            final(rb).slot_count() == old(rb).slot_count(),
            final(rb).recvs() == old(rb).recvs(),
            final(rb).senders_live() == old(rb).senders_live(),
            final(rb).receivers_live() == old(rb).receivers_live(),
            final(rb).recv_log() == old(rb).recv_log(),
            r <==> old(rb)@.len() < old(rb).slot_count(),
            r ==> final(rb)@ == old(rb)@.push(d) && final(rb).sends() == old(rb).sends() + 1
                && final(rb).sent_log() == old(rb).sent_log().push(d),
            !r ==> final(rb)@ == old(rb)@ && final(rb).sends() == old(rb).sends()
                && final(rb).sent_log() == old(rb).sent_log(),
    {
        rb.send(d)
    }

    /// True iff `rb` currently holds no value.
    pub fn empty<T: Default + Copy>(&self, rb: &RingBuffer<T>) -> (r: bool)
        requires
            rb.wf(),
        ensures
            r <==> rb@.len() == 0,
    {
        rb.empty()
    }

    /// The buffer's stored index mask: its slot count minus one.
    pub fn capacity<T: Default + Copy>(&self, rb: &RingBuffer<T>) -> (r: usize)
        requires
            rb.wf(),
        ensures
            r == rb.slot_count() - 1,
    {
        rb.capacity()
    }

    /// A new producer handle for the same buffer. Cloning is a contract
    /// violation unless a producer handle is recorded live in the registry.
    pub fn clone_handle<T: Default + Copy>(&self, rb: &mut RingBuffer<T>) -> (s: Sender)
        requires
            0 < old(rb).senders_live() < u32::MAX,
        ensures
            final(rb).senders_live() == old(rb).senders_live() + 1,
            final(rb).receivers_live() == old(rb).receivers_live(),
            final(rb).wf() == old(rb).wf(),
            final(rb)@ == old(rb)@,
            final(rb).slot_count() == old(rb).slot_count(),
            final(rb).sends() == old(rb).sends(),
            final(rb).recvs() == old(rb).recvs(),
            final(rb).sent_log() == old(rb).sent_log(),
            final(rb).recv_log() == old(rb).recv_log(),
    {
        rb.register_sender();
        Sender {  }
    }

    /// Retire this producer handle. Retiring one while the registry records
    /// none live is a contract violation.
    pub fn dispose<T: Default + Copy>(self, rb: &mut RingBuffer<T>)
        requires
            old(rb).senders_live() > 0,
        ensures
            final(rb).senders_live() == old(rb).senders_live() - 1,
            final(rb).receivers_live() == old(rb).receivers_live(),
            final(rb).wf() == old(rb).wf(),
            final(rb)@ == old(rb)@,
            final(rb).slot_count() == old(rb).slot_count(),
            final(rb).sends() == old(rb).sends(),
            final(rb).recvs() == old(rb).recvs(),
            final(rb).sent_log() == old(rb).sent_log(),
            final(rb).recv_log() == old(rb).recv_log(),
    {
        rb.unregister_sender();
    }
}

impl Receiver {
    /// Dequeue from `rb`: claim the read cursor's position and take the value
    /// published there, the oldest queued value. Reports `Err(false)`,
    /// changing nothing, iff the buffer is empty.
    pub fn recv<T: Default + Copy>(&self, rb: &mut RingBuffer<T>) -> (r: Result<T, bool>)
        requires
            old(rb).wf(),
        ensures
            final(rb).wf(),
            final(rb).slot_count() == old(rb).slot_count(),
            final(rb).sends() == old(rb).sends(),
            final(rb).senders_live() == old(rb).senders_live(),
            final(rb).receivers_live() == old(rb).receivers_live(),
            final(rb).sent_log() == old(rb).sent_log(),
            old(rb)@.len() > 0 ==> r == Ok::<T, bool>(old(rb)@[0]) && final(rb)@
                == old(rb)@.skip(1) && final(rb).recvs() == old(rb).recvs() + 1
                && final(rb).recv_log() == old(rb).recv_log().push(old(rb)@[0]),
            old(rb)@.len() == 0 ==> r == Err::<T, bool>(false) && final(rb)@ == old(rb)@
                && final(rb).recvs() == old(rb).recvs() && final(rb).recv_log()
                == old(rb).recv_log(),
    {
        rb.recv()
    }

    /// True iff `rb` currently holds no value.
    pub fn empty<T: Default + Copy>(&self, rb: &RingBuffer<T>) -> (r: bool)
        requires
            rb.wf(),
        ensures
            r <==> rb@.len() == 0,
    {
        rb.empty()
    }

    /// The buffer's stored index mask: its slot count minus one.
    pub fn capacity<T: Default + Copy>(&self, rb: &RingBuffer<T>) -> (r: usize)
        requires
            rb.wf(),
        ensures
            r == rb.slot_count() - 1,
    {
        rb.capacity()
    }

    /// A new consumer handle for the same buffer. Cloning is a contract
    /// violation unless a consumer handle is recorded live in the registry.
    pub fn clone_handle<T: Default + Copy>(&self, rb: &mut RingBuffer<T>) -> (s: Receiver)
        requires
            0 < old(rb).receivers_live() < u32::MAX,
        ensures
            final(rb).receivers_live() == old(rb).receivers_live() + 1,
            final(rb).senders_live() == old(rb).senders_live(),
            final(rb).wf() == old(rb).wf(),
            final(rb)@ == old(rb)@,
            final(rb).slot_count() == old(rb).slot_count(),
            final(rb).sends() == old(rb).sends(),
            final(rb).recvs() == old(rb).recvs(),
            final(rb).sent_log() == old(rb).sent_log(),
            final(rb).recv_log() == old(rb).recv_log(),
    {
        rb.register_receiver();
        Receiver {  }
    }

    /// Retire this consumer handle. Retiring one while the registry records
    /// none live is a contract violation.
    pub fn dispose<T: Default + Copy>(self, rb: &mut RingBuffer<T>)
        requires
            old(rb).receivers_live() > 0,
        ensures
            final(rb).receivers_live() == old(rb).receivers_live() - 1,
            final(rb).senders_live() == old(rb).senders_live(),
            final(rb).wf() == old(rb).wf(),
            final(rb)@ == old(rb)@,
            final(rb).slot_count() == old(rb).slot_count(),
            final(rb).sends() == old(rb).sends(),
            final(rb).recvs() == old(rb).recvs(),
            final(rb).sent_log() == old(rb).sent_log(),
            final(rb).recv_log() == old(rb).recv_log(),
    {
        rb.unregister_receiver();
    }
}

} // verus!

//! A bounded FIFO of audio samples backed by the `ringbuf` crate's
//! lock-free single-producer/single-consumer ring.  The library keeps
//! both halves together and speaks about the ring only through the two
//! ghost functions below; the thin wrappers around the crate's calls
//! are the trusted boundary.
use vstd::prelude::*;

verus! {

/// Both halves of one `ringbuf` ring, owned together: a bounded queue
/// of samples with a fixed capacity.
#[verifier::external_body]
pub struct RingBuffer {
    producer: ringbuf::HeapProducer<i16>,
    consumer: ringbuf::HeapConsumer<i16>,
}

/// The samples queued in the ring, oldest first.
pub uninterp spec fn ring_contents(r: &RingBuffer) -> Seq<i16>;

/// The fixed capacity the ring was created with.
pub uninterp spec fn ring_capacity(r: &RingBuffer) -> nat;

/// Relies on `HeapRb::new` and `SharedRb::split`: a fresh ring is empty
/// and accepts exactly `capacity` samples.  `HeapRb::new` panics on a
/// zero capacity, so that input is excluded here.
#[verifier::external_body]
pub(crate) fn ring_new(capacity: usize) -> (r: RingBuffer)
    requires
        capacity > 0,
    ensures
        ring_contents(&r) == Seq::<i16>::empty(),
        ring_capacity(&r) == capacity,
{
    let (producer, consumer) = ringbuf::HeapRb::new(capacity).split();
    RingBuffer { producer, consumer }
}

/// Relies on `Producer::push`: the sample is appended when the ring is
/// not full, and handed back (here: dropped) when it is.
#[verifier::external_body]
pub(crate) fn ring_push(r: &mut RingBuffer, s: i16) -> (ok: bool)
    ensures
        ring_capacity(final(r)) == ring_capacity(old(r)),
        ok == (ring_contents(old(r)).len() < ring_capacity(old(r))),
        ok ==> ring_contents(final(r)) == ring_contents(old(r)).push(s),
        !ok ==> ring_contents(final(r)) == ring_contents(old(r)),
{
    r.producer.push(s).is_ok()
}

/// Relies on `Consumer::pop`: removes and returns the oldest sample,
/// or `None` when the ring is empty.
#[verifier::external_body]
pub(crate) fn ring_pop(r: &mut RingBuffer) -> (s: Option<i16>)
    ensures
        ring_capacity(final(r)) == ring_capacity(old(r)),
        match s {
            Some(x) => ring_contents(old(r)).len() > 0 && x == ring_contents(old(r))[0]
                && ring_contents(final(r)) == ring_contents(old(r)).drop_first(),
            None => ring_contents(old(r)).len() == 0 && ring_contents(final(r)) == ring_contents(
                old(r),
            ),
        },
{
    r.consumer.pop()
}

/// Relies on `Consumer::len`: how many samples wait in the ring.
#[verifier::external_body]
pub(crate) fn ring_len(r: &RingBuffer) -> (n: usize)
    ensures
        n == ring_contents(r).len(),
{
    r.consumer.len()
}

} // verus!

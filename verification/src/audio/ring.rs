//! The queue that carries interleaved samples from the engine to the device.
//! One thread fills it and another empties it. A sample travels as the bits
//! of its single-precision number, of which all zeros are silence.

use ringbuf::traits::{Consumer, Observer, Producer, Split};
use vstd::prelude::*;

verus! {

/// How many samples the queue holds.
pub const RING_BUFFER_SAMPLES: usize = 16384;

/// The end of the queue that the engine fills: a `ringbuf::HeapProd`.
#[verifier::external_body]
pub struct SampleProducer {
    inner: ringbuf::HeapProd<u32>,
}

/// The end of the queue that the device empties: a `ringbuf::HeapCons`.
#[verifier::external_body]
pub struct SampleConsumer {
    inner: ringbuf::HeapCons<u32>,
}

/// All samples that were put into the queue at this end, in order.
pub uninterp spec fn pushed(producer: SampleProducer) -> Seq<u32>;

/// How many samples the queue holds when it is full.
pub uninterp spec fn capacity(producer: SampleProducer) -> nat;

/// How many free places this end knows of. The other end can only make more.
pub uninterp spec fn room(producer: SampleProducer) -> nat;

/// All samples that were taken out of the queue at this end, in order.
pub uninterp spec fn popped(consumer: SampleConsumer) -> Seq<u32>;

/// How many samples this end knows of that wait in the queue. The other end can
/// only add to them.
pub uninterp spec fn waiting(consumer: SampleConsumer) -> nat;

/// `ringbuf::HeapRb::new` and `ringbuf::traits::Split::split`: the two ends of
/// an empty queue for exactly `size` samples. `new` panics where `size` is
/// zero.
#[verifier::external_body]
fn new_ring(size: usize) -> (r: (SampleProducer, SampleConsumer))
    requires
        0 < size <= RING_BUFFER_SAMPLES,
    ensures
        pushed(r.0) == Seq::<u32>::empty(),
        capacity(r.0) == size,
        room(r.0) == size,
        popped(r.1) == Seq::<u32>::empty(),
        waiting(r.1) == 0,
{
    let (producer, consumer) = ringbuf::HeapRb::<u32>::new(size).split();
    (SampleProducer { inner: producer }, SampleConsumer { inner: consumer })
}

/// `ringbuf::traits::Observer::vacant_len`: how many places are free, after a
/// look at how far the other end has come. Between two looks that end can
/// only have freed more of them.
#[verifier::external_body]
fn vacant_len(producer: &mut SampleProducer) -> (r: usize)
    ensures
        r == room(*final(producer)),
        room(*old(producer)) <= r <= capacity(*old(producer)),
        pushed(*final(producer)) == pushed(*old(producer)),
        capacity(*final(producer)) == capacity(*old(producer)),
{
    producer.inner.vacant_len()
}

/// `ringbuf::traits::Producer::push_slice`: puts in as many of the samples as
/// there are free places, from the first on, and says how many. It takes all
/// of them if there are no more than the free places known before, and uses
/// up one known place for each.
#[verifier::external_body]
fn push_slice(producer: &mut SampleProducer, samples: &[u32]) -> (r: usize)
    ensures
        r <= samples@.len(),
        r <= capacity(*old(producer)),
        r < samples@.len() ==> r >= room(*old(producer)),
        pushed(*final(producer)) == pushed(*old(producer)) + samples@.take(r as int),
        room(*final(producer)) + r >= room(*old(producer)),
        room(*final(producer)) <= capacity(*old(producer)),
        capacity(*final(producer)) == capacity(*old(producer)),
{
    producer.inner.push_slice(samples)
}

/// `ringbuf::traits::Consumer::pop_slice`: takes out samples in order, to the
/// front of `out`, as many as there are and fit, after a look at how far the
/// other end has come, and says how many. The rest of `out` stays as it is.
/// It takes all that were known to wait if they fit, and where it does not
/// fill `out`, none that it knows of is left. How many more the other end has
/// put in by then, and that they are what comes out, depends on that end's
/// thread and is not stated.
#[verifier::external_body]
fn pop_slice(consumer: &mut SampleConsumer, out: &mut [u32]) -> (r: usize)
    ensures
        r <= old(out)@.len(),
        final(out)@.len() == old(out)@.len(),
        final(out)@.skip(r as int) == old(out)@.skip(r as int),
        waiting(*final(consumer)) + r >= waiting(*old(consumer)),
        r < old(out)@.len() ==> waiting(*final(consumer)) == 0,
        popped(*final(consumer)) == popped(*old(consumer)) + final(out)@.take(r as int),
{
    consumer.inner.pop_slice(out)
}

/// A queue for the output, empty.
pub fn open_ring() -> (r: (SampleProducer, SampleConsumer))
    ensures
        pushed(r.0) == Seq::<u32>::empty(),
        capacity(r.0) == RING_BUFFER_SAMPLES,
        room(r.0) == RING_BUFFER_SAMPLES,
        popped(r.1) == Seq::<u32>::empty(),
        waiting(r.1) == 0,
{
    new_ring(RING_BUFFER_SAMPLES)
}

/// How many samples can be sent without any being lost.
pub fn room_left(producer: &mut SampleProducer) -> (r: usize)
    ensures
        r == room(*final(producer)),
        room(*old(producer)) <= r <= capacity(*old(producer)),
        pushed(*final(producer)) == pushed(*old(producer)),
        capacity(*final(producer)) == capacity(*old(producer)),
{
    vacant_len(producer)
}

/// Sends samples on their way, as many as there is room for. The result is how
/// many of them were lost, from the end on, for want of room: none where there
/// was room for all.
pub fn send(producer: &mut SampleProducer, samples: &[u32]) -> (lost: usize)
    ensures
        lost <= samples@.len(),
        samples@.len() <= room(*old(producer)) ==> lost == 0,
        lost > 0 ==> samples@.len() - lost >= room(*old(producer)),
        room(*final(producer)) + (samples@.len() - lost) >= room(*old(producer)),
        pushed(*final(producer)) == pushed(*old(producer)) + samples@.take(samples@.len() - lost),
        capacity(*final(producer)) == capacity(*old(producer)),
{
    let sent: usize = push_slice(producer, samples);
    samples.len() - sent
}

/// Fills what the device asks for with samples from the queue, and with
/// silence where it has run dry. The result is how many samples came from
/// the queue.
pub fn fill_output(consumer: &mut SampleConsumer, out: &mut [u32]) -> (r: usize)
    ensures
        r <= old(out)@.len(),
        final(out)@.len() == old(out)@.len(),
        waiting(*final(consumer)) + r >= waiting(*old(consumer)),
        r < old(out)@.len() ==> waiting(*final(consumer)) == 0,
        popped(*final(consumer)) == popped(*old(consumer)) + final(out)@.take(r as int),
        forall|i: int| r <= i < old(out)@.len() ==> #[trigger] final(out)@[i] == 0,
{
    let len: usize = out.len();
    let n: usize = pop_slice(consumer, out);
    let ghost front = out@.take(n as int);
    let mut i: usize = n;
    while i < len
        invariant
            n <= i <= len,
            len == out@.len(),
            front == out@.take(n as int),
            forall|k: int| n <= k < i ==> #[trigger] out@[k] == 0,
        decreases len - i,
    {
        out[i] = 0;
        assert(out@.take(n as int) =~= front);
        i = i + 1;
    }
    n
}

} // verus!

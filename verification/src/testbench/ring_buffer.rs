//! Lock-free ring buffers that carry samples from the audio thread to the GUI
//! thread.
//!
//! The producer belongs to the audio thread and writes samples, the consumer
//! belongs to the GUI thread and reads them. The two run at the same time, so what
//! one of them says about the other is said over the ring's tape: all samples that
//! are ever written into the ring, in order. What was written and what was read so
//! far are both a beginning of it.
use ringbuf::traits::{Consumer, Observer, Producer, Split};
use ringbuf::{HeapCons, HeapProd, HeapRb};
use vstd::prelude::*;

use crate::bits::Bits;

verus! {

/// The writing end of one ring, a `ringbuf::HeapProd`.
#[verifier::external_body]
pub struct RingProducer {
    inner: HeapProd<u32>,
}

/// The reading end of one ring, a `ringbuf::HeapCons`.
#[verifier::external_body]
pub struct RingConsumer {
    inner: HeapCons<u32>,
}

/// The samples that were written through this end so far.
pub uninterp spec fn sent(p: RingProducer) -> Seq<u32>;

/// The samples that were read through this end so far.
pub uninterp spec fn received(c: RingConsumer) -> Seq<u32>;

/// All samples that are ever written into the ring of this writing end.
pub uninterp spec fn producer_tape(p: RingProducer) -> Seq<u32>;

/// All samples that are ever written into the ring of this reading end.
pub uninterp spec fn consumer_tape(c: RingConsumer) -> Seq<u32>;

/// The ring that this writing end belongs to, of which no other ring has the number.
pub uninterp spec fn producer_ring(p: RingProducer) -> nat;

/// The ring that this reading end belongs to, of which no other ring has the number.
pub uninterp spec fn consumer_ring(c: RingConsumer) -> nat;

/// How many samples this writing end sees as read by the other end when it writes
/// next.
pub uninterp spec fn taken(p: RingProducer) -> nat;

/// How many samples this reading end has seen in the ring and not read: those that are
/// left of what it saw when it last ran out of them.
pub uninterp spec fn fetched(c: RingConsumer) -> nat;

/// How many samples the ring of this writing end can hold.
pub uninterp spec fn producer_capacity(p: RingProducer) -> nat;

/// How many samples the ring of this reading end can hold.
pub uninterp spec fn consumer_capacity(c: RingConsumer) -> nat;

/// Whether the last attempt to read through this end found the ring empty.
pub uninterp spec fn found_empty(c: RingConsumer) -> bool;

/// How many samples this end gives from now on, read one after the other, before it
/// finds the ring empty. Only this end takes samples out, so those that wait are among
/// them; more may be written meanwhile.
pub uninterp spec fn readable(c: RingConsumer) -> nat;

/// `ringbuf::HeapRb::new` and `split`: the two ends of a new, empty ring.
/// `HeapRb::new` panics where the capacity is zero, or more than an allocation can
/// hold.
#[verifier::external_body]
fn ring(capacity: usize) -> (r: (RingProducer, RingConsumer))
    requires
        0 < capacity,
        capacity * 4 <= isize::MAX,
    ensures
        sent(r.0) == Seq::<u32>::empty(),
        received(r.1) == Seq::<u32>::empty(),
        producer_tape(r.0) == consumer_tape(r.1),
        producer_ring(r.0) == consumer_ring(r.1),
        producer_capacity(r.0) == capacity,
        consumer_capacity(r.1) == capacity,
        taken(r.0) == 0,
        fetched(r.1) == 0,
{
    let (producer, consumer) = HeapRb::<u32>::new(capacity).split();
    (RingProducer { inner: producer }, RingConsumer { inner: consumer })
}

/// `push_slice` of `ringbuf`'s `Producer`: writes a beginning of `samples` behind
/// what was written before, as much of it as the ring has room for, and returns
/// its length. The room is the capacity without the samples that were written and
/// that this end does not see as read. What it once saw as read stays so.
#[verifier::external_body]
fn push_slice(producer: &mut RingProducer, samples: &[u32]) -> (n: usize)
    ensures
        n == least(
            samples@.len() as int,
            producer_capacity(*old(producer)) + taken(*old(producer)) - sent(*old(producer)).len(),
        ),
        n <= producer_capacity(*old(producer)),
        sent(*final(producer)) == sent(*old(producer)) + samples@.take(n as int),
        sent(*final(producer)).is_prefix_of(producer_tape(*final(producer))),
        taken(*old(producer)) <= taken(*final(producer)) <= sent(*final(producer)).len(),
        producer_tape(*final(producer)) == producer_tape(*old(producer)),
        producer_ring(*final(producer)) == producer_ring(*old(producer)),
        producer_capacity(*final(producer)) == producer_capacity(*old(producer)),
{
    producer.inner.push_slice(samples)
}

/// `try_pop` of `ringbuf`'s `Consumer`: the oldest sample that was not read yet, or
/// nothing where the ring is empty. A sample that this end has seen already is given.
/// Where the ring's writing end is lent for the call, nothing is written meanwhile:
/// then the ring is empty exactly if all that was written is read, and if it is, the
/// writing end sees it. Where it is not lent, whether the ring is empty depends on
/// what the other end has written, which is not stated.
#[verifier::external_body]
fn try_pop(consumer: &mut RingConsumer, writer: Option<&RingProducer>) -> (r: Option<u32>)
    ensures
        received(*final(consumer)) == (match r {
            Some(sample) => received(*old(consumer)).push(sample),
            None => received(*old(consumer)),
        }),
        r is Some ==> received(*final(consumer)).is_prefix_of(consumer_tape(*final(consumer))),
        found_empty(*final(consumer)) == (r is None),
        r is None <==> readable(*old(consumer)) == 0,
        r is Some ==> readable(*final(consumer)) == readable(*old(consumer)) - 1,
        fetched(*old(consumer)) > 0 ==> r is Some && fetched(*final(consumer)) == fetched(
            *old(consumer),
        ) - 1,
        r is None ==> fetched(*final(consumer)) == 0,
        lent(writer, *old(consumer)) ==> (r is None <==> received(*old(consumer)) == sent(
            *writer->Some_0,
        )),
        lent(writer, *old(consumer)) && r is None ==> taken(*writer->Some_0) == sent(
            *writer->Some_0,
        ).len(),
        consumer_tape(*final(consumer)) == consumer_tape(*old(consumer)),
        consumer_ring(*final(consumer)) == consumer_ring(*old(consumer)),
        consumer_capacity(*final(consumer)) == consumer_capacity(*old(consumer)),
{
    consumer.inner.try_pop()
}

/// `occupied_len` of `ringbuf`'s `Observer`: how many samples wait to be read. It is
/// at most the capacity, all of them were written, they stay until this end reads
/// them, and those that this end has seen already are among them. Where the ring's
/// writing end is lent for the call, it is the number of samples written and not read,
/// and the writing end sees no more than these as unread when it writes next. Where it
/// is not lent, how many wait depends on what the other end has written, so
/// the number itself is not stated.
#[verifier::external_body]
fn occupied_len(consumer: &RingConsumer, writer: Option<&RingProducer>) -> (n: usize)
    ensures
        n <= consumer_capacity(*consumer),
        n <= readable(*consumer),
        fetched(*consumer) <= n,
        received(*consumer).is_prefix_of(consumer_tape(*consumer)) ==> received(*consumer).len() + n
            <= consumer_tape(*consumer).len(),
        lent(writer, *consumer) ==> n == waiting(*writer->Some_0, *consumer) && 0 <= sent(
            *writer->Some_0,
        ).len() - taken(*writer->Some_0) <= n,
{
    consumer.inner.occupied_len()
}

/// Whether the writing end of this reading end's ring is lent.
pub open spec fn lent(writer: Option<&RingProducer>, c: RingConsumer) -> bool {
    writer is Some && producer_ring(*writer->Some_0) == consumer_ring(c)
}

/// How many samples were written through a writing end and not read through a reading
/// end of the same ring.
pub open spec fn waiting(p: RingProducer, c: RingConsumer) -> int {
    sent(p).len() - received(c).len()
}

/// The smaller of two numbers.
pub open spec fn least(a: int, b: int) -> int {
    if a <= b {
        a
    } else {
        b
    }
}

/// Writing `samples` turned `before` into `after`: a beginning of the samples came
/// behind what was written before, as many as the ring had room for.
pub open spec fn wrote(before: RingProducer, after: RingProducer, samples: Seq<Bits>) -> bool {
    let n = sent(after).len() - sent(before).len();
    &&& n == least(
        samples.len() as int,
        producer_capacity(before) + taken(before) - sent(before).len(),
    )
    &&& 0 <= n <= producer_capacity(before)
    &&& sent(after) == sent(before) + samples.take(n)
    &&& taken(before) <= taken(after) <= sent(after).len()
    &&& sent(after).is_prefix_of(producer_tape(after))
    &&& producer_tape(after) == producer_tape(before)
    &&& producer_ring(after) == producer_ring(before)
    &&& producer_capacity(after) == producer_capacity(before)
}

/// Reading turned `before` into `after` and gave `samples`: they came behind what
/// was read before, they were all that could be read, and the ring was found empty
/// after them.
pub open spec fn read(before: RingConsumer, after: RingConsumer, samples: Seq<Bits>) -> bool {
    &&& received(after) == received(before) + samples
    &&& samples.len() == readable(before)
    &&& received(before).is_prefix_of(consumer_tape(before)) ==> received(after).is_prefix_of(
        consumer_tape(after),
    )
    &&& found_empty(after)
    &&& fetched(before) <= samples.len()
    &&& fetched(after) == 0
    &&& consumer_tape(after) == consumer_tape(before)
    &&& consumer_ring(after) == consumer_ring(before)
    &&& consumer_capacity(after) == consumer_capacity(before)
}

/// Whether what was written through an end is a beginning of the ring's tape. It
/// is for a new ring, and stays so.
pub open spec fn writes_in_order(p: RingProducer) -> bool {
    sent(p).is_prefix_of(producer_tape(p))
}

/// Whether what was read through an end is a beginning of the ring's tape. It is
/// for a new ring, and stays so.
pub open spec fn reads_in_order(c: RingConsumer) -> bool {
    received(c).is_prefix_of(consumer_tape(c))
}

/// Producer side of the ring buffer (the audio thread writes here).
pub struct AudioProducer {
    pub left: RingProducer,
    pub right: RingProducer,
}

/// Consumer side of the ring buffer (the GUI thread reads from here).
pub struct AudioConsumer {
    pub left: RingConsumer,
    pub right: RingConsumer,
}

impl AudioProducer {
    /// Whether both channels were written in order.
    pub open spec fn in_order(self) -> bool {
        writes_in_order(self.left) && writes_in_order(self.right)
    }

    /// Pushes stereo samples from the audio thread. What the rings have no room for
    /// is dropped.
    pub fn push_stereo(&mut self, left: &Vec<Bits>, right: &Vec<Bits>)
        ensures
            wrote(old(self).left, final(self).left, left@),
            wrote(old(self).right, final(self).right, right@),
    {
        push_slice(&mut self.left, left.as_slice());
        push_slice(&mut self.right, right.as_slice());
    }

    /// Pushes from a buffer of channels. Of a mono buffer the one channel goes to
    /// both sides; of a buffer without channels nothing is pushed.
    pub fn push_from_buffer(&mut self, buffer: &Vec<Vec<Bits>>)
        ensures
            buffer@.len() == 0 ==> *final(self) == *old(self),
            buffer@.len() > 0 ==> wrote(old(self).left, final(self).left, buffer@[0]@),
            buffer@.len() == 1 ==> wrote(old(self).right, final(self).right, buffer@[0]@),
            buffer@.len() > 1 ==> wrote(old(self).right, final(self).right, buffer@[1]@),
    {
        if buffer.len() > 0 {
            push_slice(&mut self.left, buffer[0].as_slice());
        }
        if buffer.len() > 1 {
            push_slice(&mut self.right, buffer[1].as_slice());
        } else if buffer.len() > 0 {
            push_slice(&mut self.right, buffer[0].as_slice());
        }
    }
}

/// Whether a reading end has read all that was written through the writing end of its
/// ring, and the writing end sees it.
pub open spec fn caught_up(p: RingProducer, c: RingConsumer) -> bool {
    received(c) == sent(p) && taken(p) == sent(p).len()
}

/// Reads all samples of one ring that are there into `out`, instead of what it
/// held. Where the writing end is lent, that is all that was written and not read.
fn drain(consumer: &mut RingConsumer, writer: Option<&RingProducer>, out: &mut Vec<Bits>)
    requires
        reads_in_order(*old(consumer)),
    ensures
        read(*old(consumer), *final(consumer), final(out)@),
        lent(writer, *old(consumer)) ==> caught_up(*writer->Some_0, *final(consumer)),
{
    out.clear();
    loop
        invariant_except_break
            readable(*consumer) + out@.len() == readable(*old(consumer)),
            fetched(*old(consumer)) <= out@.len() + fetched(*consumer),
        invariant
            received(*consumer) == received(*old(consumer)) + out@,
            reads_in_order(*consumer),
            consumer_tape(*consumer) == consumer_tape(*old(consumer)),
            consumer_ring(*consumer) == consumer_ring(*old(consumer)),
            consumer_capacity(*consumer) == consumer_capacity(*old(consumer)),
        ensures
            found_empty(*consumer),
            fetched(*old(consumer)) <= out@.len(),
            fetched(*consumer) == 0,
            out@.len() == readable(*old(consumer)),
            lent(writer, *old(consumer)) ==> caught_up(*writer->Some_0, *consumer),
        decreases consumer_tape(*consumer).len() - received(*consumer).len(),
    {
        match try_pop(consumer, writer) {
            Some(sample) => {
                out.push(sample);
            },
            None => {
                break;
            },
        }
    }
}

impl AudioConsumer {
    /// Whether both channels were read in order.
    pub open spec fn in_order(self) -> bool {
        reads_in_order(self.left) && reads_in_order(self.right)
    }

    /// Reads all available samples into the given vectors, instead of what they
    /// held.
    pub fn read_available(&mut self, left_out: &mut Vec<Bits>, right_out: &mut Vec<Bits>)
        requires
            old(self).in_order(),
        ensures
            read(old(self).left, final(self).left, final(left_out)@),
            read(old(self).right, final(self).right, final(right_out)@),
            final(self).in_order(),
    {
        drain(&mut self.left, None, left_out);
        drain(&mut self.right, None, right_out);
    }

    /// `read_available` while the producer side stands still: reads all samples that
    /// were written and not read yet.
    pub fn read_written(
        &mut self,
        producer: &AudioProducer,
        left_out: &mut Vec<Bits>,
        right_out: &mut Vec<Bits>,
    )
        requires
            old(self).in_order(),
        ensures
            read(old(self).left, final(self).left, final(left_out)@),
            read(old(self).right, final(self).right, final(right_out)@),
            final(self).in_order(),
            connected(*producer, *old(self)) ==> connected(*producer, *final(self)) && caught_up(
                producer.left,
                final(self).left,
            ) && caught_up(producer.right, final(self).right),
    {
        drain(&mut self.left, Some(&producer.left), left_out);
        drain(&mut self.right, Some(&producer.right), right_out);
    }

    /// Approximate number of samples available for reading on the left: at most the
    /// capacity, no more than reading gives from now on, and no less than were seen
    /// already.
    pub fn available(&self) -> (n: usize)
        ensures
            n <= consumer_capacity(self.left),
            n <= readable(self.left),
            fetched(self.left) <= n,
            self.in_order() ==> received(self.left).len() + n <= consumer_tape(self.left).len(),
    {
        occupied_len(&self.left, None)
    }

    /// `available` while the producer side stands still, for both sides: the numbers of
    /// samples that were written and not read yet on the left and on the right. The
    /// producer side sees no more than these as unread.
    pub fn unread(&self, producer: &AudioProducer) -> (n: (usize, usize))
        ensures
            fetched(self.left) <= n.0 <= readable(self.left),
            fetched(self.right) <= n.1 <= readable(self.right),
            n.0 <= consumer_capacity(self.left),
            n.1 <= consumer_capacity(self.right),
            connected(*producer, *self) ==> {
                &&& n.0 == waiting(producer.left, self.left)
                &&& n.1 == waiting(producer.right, self.right)
                &&& 0 <= sent(producer.left).len() - taken(producer.left) <= n.0
                &&& 0 <= sent(producer.right).len() - taken(producer.right) <= n.1
            },
    {
        let left: usize = occupied_len(&self.left, Some(&producer.left));
        let right: usize = occupied_len(&self.right, Some(&producer.right));
        (left, right)
    }
}

/// Whether the two sides belong to the same pair of rings.
pub open spec fn connected(producer: AudioProducer, consumer: AudioConsumer) -> bool {
    &&& producer_tape(producer.left) == consumer_tape(consumer.left)
    &&& producer_tape(producer.right) == consumer_tape(consumer.right)
    &&& producer_ring(producer.left) == consumer_ring(consumer.left)
    &&& producer_ring(producer.right) == consumer_ring(consumer.right)
    &&& producer_capacity(producer.left) == consumer_capacity(consumer.left)
    &&& producer_capacity(producer.right) == consumer_capacity(consumer.right)
}

/// Creates the two sides of a stereo ring buffer, one ring per channel, both empty.
pub fn create_stereo_ring_buffer(capacity: usize) -> (r: (AudioProducer, AudioConsumer))
    requires
        0 < capacity,
        capacity * 4 <= isize::MAX,
    ensures
        connected(r.0, r.1),
        r.0.in_order(),
        r.1.in_order(),
        producer_capacity(r.0.left) == capacity,
        producer_capacity(r.0.right) == capacity,
        sent(r.0.left).len() == 0,
        sent(r.0.right).len() == 0,
        caught_up(r.0.left, r.1.left),
        caught_up(r.0.right, r.1.right),
        fetched(r.1.left) == 0,
        fetched(r.1.right) == 0,
{
    let (left_prod, left_cons) = ring(capacity);
    let (right_prod, right_cons) = ring(capacity);
    (
        AudioProducer { left: left_prod, right: right_prod },
        AudioConsumer { left: left_cons, right: right_cons },
    )
}

/// Holds the consumer side for the GUI thread.
pub struct VisualizationConsumer {
    pub consumer: AudioConsumer,
    pub enabled: bool,
}

impl VisualizationConsumer {
    /// The consumer side, enabled.
    pub fn new(consumer: AudioConsumer) -> (r: Self)
        ensures
            r == (VisualizationConsumer { consumer, enabled: true }),
    {
        VisualizationConsumer { consumer, enabled: true }
    }
}

/// Samples arrive as they were sent: on either channel, the `i`-th sample that was
/// read is the `i`-th sample that was written.
pub proof fn law_samples_arrive_in_order(producer: AudioProducer, consumer: AudioConsumer, i: int)
    requires
        connected(producer, consumer),
        producer.in_order(),
        consumer.in_order(),
        0 <= i,
    ensures
        i < sent(producer.left).len() && i < received(consumer.left).len() ==> received(
            consumer.left,
        )[i] == sent(producer.left)[i],
        i < sent(producer.right).len() && i < received(consumer.right).len() ==> received(
            consumer.right,
        )[i] == sent(producer.right)[i],
{
    let left = producer_tape(producer.left);
    let right = producer_tape(producer.right);
    if i < sent(producer.left).len() && i < received(consumer.left).len() {
        assert(sent(producer.left)[i] == left.subrange(0, sent(producer.left).len() as int)[i]);
        assert(received(consumer.left)[i] == left.subrange(
            0,
            received(consumer.left).len() as int,
        )[i]);
    }
    if i < sent(producer.right).len() && i < received(consumer.right).len() {
        assert(sent(producer.right)[i] == right.subrange(0, sent(producer.right).len() as int)[i]);
        assert(received(consumer.right)[i] == right.subrange(
            0,
            received(consumer.right).len() as int,
        )[i]);
    }
}

/// What is announced can be read: reading everything gives at least as many samples as
/// were said to be available before.
pub proof fn law_available_samples_are_read(
    before: RingConsumer,
    after: RingConsumer,
    available: nat,
    samples: Seq<Bits>,
)
    requires
        available <= readable(before),
        read(before, after, samples),
    ensures
        available <= samples.len(),
        received(after).len() >= received(before).len() + available,
{
}

/// Nothing is dropped as long as the ring is not full: what fits into the ring's
/// capacity together with what was written before and is not read yet is written in
/// full.
pub proof fn law_what_fits_is_written(before: RingProducer, after: RingProducer, samples: Seq<Bits>)
    requires
        wrote(before, after, samples),
        sent(before).len() - taken(before) + samples.len() <= producer_capacity(before),
    ensures
        sent(after) == sent(before) + samples,
{
    assert(samples.take(samples.len() as int) =~= samples);
}

/// What a producer side wrote in one call after the other: `states` are its states
/// before the first call and after each one.
pub open spec fn pushes(states: Seq<AudioProducer>, blocks: Seq<(Seq<Bits>, Seq<Bits>)>) -> bool {
    &&& states.len() == blocks.len() + 1
    &&& forall|i: int|
        0 <= i < blocks.len() ==> wrote(states[i].left, states[i + 1].left, (#[trigger] blocks[i]).0)
            && wrote(states[i].right, states[i + 1].right, blocks[i].1)
}

/// The blocks of one channel, one after the other.
pub open spec fn in_a_row(blocks: Seq<(Seq<Bits>, Seq<Bits>)>, left: bool) -> Seq<Bits>
    decreases blocks.len(),
{
    if blocks.len() == 0 {
        Seq::empty()
    } else {
        in_a_row(blocks.drop_last(), left) + if left {
            blocks.last().0
        } else {
            blocks.last().1
        }
    }
}

/// From where the consumer side has caught up, blocks that fit into the rings together
/// are written in full.
proof fn lemma_blocks_are_written(
    states: Seq<AudioProducer>,
    blocks: Seq<(Seq<Bits>, Seq<Bits>)>,
)
    requires
        pushes(states, blocks),
        taken(states[0].left) == sent(states[0].left).len(),
        taken(states[0].right) == sent(states[0].right).len(),
        in_a_row(blocks, true).len() <= producer_capacity(states[0].left),
        in_a_row(blocks, false).len() <= producer_capacity(states[0].right),
    ensures
        sent(states.last().left) == sent(states[0].left) + in_a_row(blocks, true),
        sent(states.last().right) == sent(states[0].right) + in_a_row(blocks, false),
        taken(states.last().left) >= taken(states[0].left),
        taken(states.last().right) >= taken(states[0].right),
        producer_capacity(states.last().left) == producer_capacity(states[0].left),
        producer_capacity(states.last().right) == producer_capacity(states[0].right),
    decreases blocks.len(),
{
    let first = states[0];
    if blocks.len() == 0 {
        assert(sent(first.left) + in_a_row(blocks, true) =~= sent(first.left));
        assert(sent(first.right) + in_a_row(blocks, false) =~= sent(first.right));
    } else {
        let rest = blocks.drop_last();
        let earlier = states.drop_last();
        let n = rest.len() as int;
        assert forall|i: int| 0 <= i < rest.len() implies wrote(
            earlier[i].left,
            earlier[i + 1].left,
            (#[trigger] rest[i]).0,
        ) && wrote(earlier[i].right, earlier[i + 1].right, rest[i].1) by {
            assert(blocks[i] == rest[i]);
        }
        lemma_blocks_are_written(earlier, rest);
        assert(blocks[n] == blocks.last());
        let before = states[n];
        let after = states[n + 1];
        assert(earlier.last() == before && states.last() == after);
        law_what_fits_is_written(before.left, after.left, blocks.last().0);
        law_what_fits_is_written(before.right, after.right, blocks.last().1);
        assert(sent(first.left) + in_a_row(blocks, true) =~= sent(before.left) + blocks.last().0);
        assert(sent(first.right) + in_a_row(blocks, false) =~= sent(before.right)
            + blocks.last().1);
    }
}

/// What was written and what was read are the same where as many samples were written
/// as read.
proof fn lemma_all_read(p: RingProducer, c: RingConsumer)
    requires
        producer_tape(p) == consumer_tape(c),
        writes_in_order(p),
        reads_in_order(c),
        waiting(p, c) == 0,
    ensures
        received(c) == sent(p),
{
    assert(received(c) =~= sent(p));
}

/// Pushing keeps the producer side connected and in order.
proof fn lemma_pushes_stay_connected(
    states: Seq<AudioProducer>,
    blocks: Seq<(Seq<Bits>, Seq<Bits>)>,
    consumer: AudioConsumer,
)
    requires
        pushes(states, blocks),
        connected(states[0], consumer),
        states[0].in_order(),
    ensures
        connected(states.last(), consumer),
        states.last().in_order(),
    decreases blocks.len(),
{
    if blocks.len() > 0 {
        let rest = blocks.drop_last();
        let earlier = states.drop_last();
        let n = rest.len() as int;
        assert forall|i: int| 0 <= i < rest.len() implies wrote(
            earlier[i].left,
            earlier[i + 1].left,
            (#[trigger] rest[i]).0,
        ) && wrote(earlier[i].right, earlier[i + 1].right, rest[i].1) by {
            assert(blocks[i] == rest[i]);
        }
        lemma_pushes_stay_connected(earlier, rest, consumer);
        assert(wrote(states[n].left, states[n + 1].left, blocks[n].0));
        assert(states[n] == earlier.last());
    }
}

/// Reading all that is available while nothing is written reads all that was written:
/// where at least what waited before could be read, and no more was read than was
/// written (both of which `unread` shows, before and after), nothing waits any more.
pub proof fn law_reading_while_nothing_is_written(
    p: RingProducer,
    before: RingConsumer,
    after: RingConsumer,
    samples: Seq<Bits>,
)
    requires
        producer_tape(p) == consumer_tape(before),
        writes_in_order(p),
        reads_in_order(before),
        read(before, after, samples),
        waiting(p, before) <= readable(before),
        waiting(p, after) >= 0,
    ensures
        waiting(p, after) == 0,
        samples.len() == waiting(p, before),
        received(after) == sent(p),
{
    lemma_all_read(p, after);
}

/// What was pushed since the last read is what `read_available` gives, where nothing is
/// written while it reads: from where the consumer side has caught up (a new pair of
/// rings, or where nothing was unread), any number of calls push blocks that fit into
/// the rings together; then the samples read are these blocks in the order pushed, and
/// nothing else. After it nothing is unread, and a second `read_available` gives nothing.
pub proof fn law_what_was_pushed_is_available(
    states: Seq<AudioProducer>,
    blocks: Seq<(Seq<Bits>, Seq<Bits>)>,
    before: AudioConsumer,
    after: AudioConsumer,
    left: Seq<Bits>,
    right: Seq<Bits>,
)
    requires
        pushes(states, blocks),
        connected(states[0], before),
        states[0].in_order(),
        before.in_order(),
        caught_up(states[0].left, before.left),
        caught_up(states[0].right, before.right),
        in_a_row(blocks, true).len() <= producer_capacity(states[0].left),
        in_a_row(blocks, false).len() <= producer_capacity(states[0].right),
        read(before.left, after.left, left),
        read(before.right, after.right, right),
        waiting(states.last().left, before.left) <= readable(before.left),
        waiting(states.last().right, before.right) <= readable(before.right),
        waiting(states.last().left, after.left) >= 0,
        waiting(states.last().right, after.right) >= 0,
    ensures
        left == in_a_row(blocks, true),
        right == in_a_row(blocks, false),
        waiting(states.last().left, after.left) == 0,
        waiting(states.last().right, after.right) == 0,
        forall|later: RingConsumer, more: Seq<Bits>| #[trigger]
            read(after.left, later, more) && waiting(states.last().left, later) >= 0 ==> more.len()
                == 0,
        forall|later: RingConsumer, more: Seq<Bits>| #[trigger]
            read(after.right, later, more) && waiting(states.last().right, later) >= 0
                ==> more.len() == 0,
{
    lemma_pushes_stay_connected(states, blocks, before);
    lemma_blocks_are_written(states, blocks);
    let last = states.last();
    law_reading_while_nothing_is_written(last.left, before.left, after.left, left);
    law_reading_while_nothing_is_written(last.right, before.right, after.right, right);
    let n = received(before.left).len() as int;
    let m = received(before.right).len() as int;
    assert(received(after.left).skip(n) =~= left);
    assert(sent(last.left).skip(n) =~= in_a_row(blocks, true));
    assert(received(after.right).skip(m) =~= right);
    assert(sent(last.right).skip(m) =~= in_a_row(blocks, false));
}

/// What was pushed since the last read comes back: from where the consumer side has
/// caught up (a new pair of rings, or a `read_written`), any number of calls push
/// blocks that fit into the rings together; then a `read_written` gives these blocks in
/// the order pushed and nothing else. After it nothing is unread, and a second one
/// gives nothing.
pub proof fn law_what_was_pushed_comes_back(
    states: Seq<AudioProducer>,
    blocks: Seq<(Seq<Bits>, Seq<Bits>)>,
    before: AudioConsumer,
    after: AudioConsumer,
    left: Seq<Bits>,
    right: Seq<Bits>,
)
    requires
        pushes(states, blocks),
        caught_up(states[0].left, before.left),
        caught_up(states[0].right, before.right),
        in_a_row(blocks, true).len() <= producer_capacity(states[0].left),
        in_a_row(blocks, false).len() <= producer_capacity(states[0].right),
        read(before.left, after.left, left),
        read(before.right, after.right, right),
        caught_up(states.last().left, after.left),
        caught_up(states.last().right, after.right),
    ensures
        left == in_a_row(blocks, true),
        right == in_a_row(blocks, false),
        waiting(states.last().left, after.left) == 0,
        waiting(states.last().right, after.right) == 0,
        forall|later: AudioConsumer, more_left: Seq<Bits>, more_right: Seq<Bits>|
            #![trigger read(after.left, later.left, more_left), read(
                after.right,
                later.right,
                more_right,
            )]
            read(after.left, later.left, more_left) && read(after.right, later.right, more_right)
                && caught_up(states.last().left, later.left) && caught_up(
                states.last().right,
                later.right,
            ) ==> more_left.len() == 0 && more_right.len() == 0,
{
    lemma_blocks_are_written(states, blocks);
    let n = received(before.left).len() as int;
    let m = received(before.right).len() as int;
    assert(received(after.left).skip(n) =~= left);
    assert(sent(states.last().left).skip(n) =~= in_a_row(blocks, true));
    assert(received(after.right).skip(m) =~= right);
    assert(sent(states.last().right).skip(m) =~= in_a_row(blocks, false));
}

} // verus!

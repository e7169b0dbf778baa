//! The ring between a capture callback and the thread that takes samples in.
//!
//! The writing end never waits: what does not fit is dropped and counted. The two ends live
//! on two threads, so what one end can know of the other is limited to what holds whatever
//! the other one does meanwhile.

use crate::sample::Sample;
use rtrb::{Consumer, Producer, RingBuffer};
use std::sync::atomic::{AtomicU64, Ordering};
use std::sync::Arc;
use vstd::prelude::*;

verus! {

/// `rtrb::Producer`, the writing end of a lock-free ring.
#[verifier::external_type_specification]
#[verifier::external_body]
#[verifier::reject_recursive_types(T)]
pub struct ExProducer<T>(Producer<T>);

/// `rtrb::Consumer`, the reading end of a lock-free ring.
#[verifier::external_type_specification]
#[verifier::external_body]
#[verifier::reject_recursive_types(T)]
pub struct ExConsumer<T>(Consumer<T>);

/// Everything that passes through the ring of this writing end over its whole life, in the
/// order in which it is written.
pub uninterp spec fn written_stream(p: Producer<Sample>) -> Seq<Sample>;

/// How much of that stream has been written so far.
pub uninterp spec fn written_len(p: Producer<Sample>) -> nat;

/// How many samples the ring holds.
pub uninterp spec fn ring_capacity(p: Producer<Sample>) -> nat;

/// How many places are free when the ring is next written to.
pub uninterp spec fn ring_room(p: Producer<Sample>) -> nat;

/// Everything that passes through the ring of this reading end over its whole life.
pub uninterp spec fn read_stream(c: Consumer<Sample>) -> Seq<Sample>;

/// How much of that stream has been read so far.
pub uninterp spec fn read_len(c: Consumer<Sample>) -> nat;

/// How many samples the reading end sees waiting when it next reads.
pub uninterp spec fn ring_waiting(c: Consumer<Sample>) -> nat;

/// How many samples the last read saw waiting and did not take.
pub uninterp spec fn ring_left(c: Consumer<Sample>) -> nat;

/// The smaller of two numbers.
pub open spec fn smaller(a: nat, b: nat) -> nat {
    if a <= b {
        a
    } else {
        b
    }
}

/// `rtrb::RingBuffer::new` makes an empty ring of this capacity and returns its two ends: what
/// is written at one is what is read at the other. Its storage is one allocation, which must
/// not exceed the largest size.
#[verifier::external_body]
fn new_ring(capacity: usize) -> (ends: (Producer<Sample>, Consumer<Sample>))
    requires
        0 < capacity,
        capacity * 4 <= isize::MAX,
    ensures
        ring_capacity(ends.0) == capacity,
        written_len(ends.0) == 0,
        read_len(ends.1) == 0,
        ring_left(ends.1) == 0,
        written_stream(ends.0) == read_stream(ends.1),
{
    RingBuffer::<Sample>::new(capacity)
}

/// `rtrb::Producer::push_partial_slice` writes as many samples from the front of the slice as
/// there are free places, without waiting, and all of them where there are enough. Places are
/// free that were never written to, or whose samples have been read; so no fewer are free than
/// those never written to, and no more than the ring has.
#[verifier::external_body]
fn write_some(p: &mut Producer<Sample>, samples: &[Sample]) -> (n: usize)
    ensures
        n == smaller(samples@.len(), ring_room(*old(p))),
        ring_room(*old(p)) <= ring_capacity(*old(p)),
        ring_room(*old(p)) + written_len(*old(p)) >= ring_capacity(*old(p)),
        ring_capacity(*final(p)) == ring_capacity(*old(p)),
        written_stream(*final(p)) == written_stream(*old(p)),
        written_len(*final(p)) == written_len(*old(p)) + n,
        written_len(*final(p)) <= written_stream(*final(p)).len(),
        written_stream(*final(p)).subrange(
            written_len(*old(p)) as int,
            written_len(*final(p)) as int,
        ) == samples@.take(n as int),
{
    p.push_partial_slice(samples).0.len()
}

/// `rtrb::Consumer::pop_partial_slice` reads as many samples as are there and fit into the
/// slice, the oldest first, and leaves the rest of the slice as it was. What it does not take
/// stays in the ring until the next read.
#[verifier::external_body]
fn read_some(c: &mut Consumer<Sample>, dst: &mut [Sample]) -> (n: usize)
    ensures
        n == smaller(old(dst)@.len(), ring_waiting(*old(c))),
        read_stream(*final(c)) == read_stream(*old(c)),
        read_len(*final(c)) == read_len(*old(c)) + n,
        read_len(*old(c)) + ring_waiting(*old(c)) <= read_stream(*old(c)).len(),
        ring_left(*final(c)) == ring_waiting(*old(c)) - n,
        ring_left(*final(c)) <= ring_waiting(*final(c)),
        final(dst)@ == read_stream(*old(c)).subrange(
            read_len(*old(c)) as int,
            read_len(*final(c)) as int,
        ) + old(dst)@.skip(n as int),
{
    c.pop_partial_slice(dst).0.len()
}

/// `rtrb::Consumer::pop` reads the oldest sample, if there is one. The others stay in the ring
/// until the next read.
#[verifier::external_body]
fn read_one(c: &mut Consumer<Sample>) -> (r: Option<Sample>)
    ensures
        r is Some <==> ring_waiting(*old(c)) > 0,
        read_stream(*final(c)) == read_stream(*old(c)),
        read_len(*old(c)) + ring_waiting(*old(c)) <= read_stream(*old(c)).len(),
        ring_left(*final(c)) <= ring_waiting(*final(c)),
        match r {
            Some(s) => {
                &&& read_len(*final(c)) == read_len(*old(c)) + 1
                &&& ring_left(*final(c)) == ring_waiting(*old(c)) - 1
                &&& s == read_stream(*old(c))[read_len(*old(c)) as int]
            },
            None => read_len(*final(c)) == read_len(*old(c)) && ring_left(*final(c)) == 0,
        },
{
    c.pop().ok()
}

/// `rtrb::Consumer::slots` is the number of samples that are there to be read: those that the
/// last read left, and those that have come since. None of them leaves before the next read,
/// and more may come until then.
#[verifier::external_body]
fn readable(c: &Consumer<Sample>) -> (n: usize)
    ensures
        ring_left(*c) <= n <= ring_waiting(*c),
{
    c.slots()
}

/// The writing end, for the capture callback.
pub struct RawProducer {
    inner: Producer<Sample>,
    overflow: Arc<AtomicU64>,
    dropped: u64,
}

/// The reading end, for the thread that takes samples in.
pub struct RawConsumer {
    inner: Consumer<Sample>,
    overflow: Arc<AtomicU64>,
}

impl RawProducer {
    /// Everything that passes through the ring over its whole life.
    pub closed spec fn stream(self) -> Seq<Sample> {
        written_stream(self.inner)
    }

    /// How much of that has been written so far.
    pub closed spec fn written(self) -> int {
        written_len(self.inner) as int
    }

    /// How many samples the ring holds.
    pub closed spec fn capacity(self) -> int {
        ring_capacity(self.inner) as int
    }

    /// How many places are free at the next write, which depends on how much the other end
    /// has read by then: no fewer than were never written to, and no more than there are.
    pub closed spec fn room(self) -> int {
        ring_room(self.inner) as int
    }

    /// Samples dropped so far, as a 64-bit count that wraps around.
    pub closed spec fn dropped(self) -> u64 {
        self.dropped
    }

    /// Writes what there is room for without waiting and drops the rest. Returns how much was
    /// written.
    pub fn push_slice(&mut self, samples: &[Sample]) -> (n: usize)
        ensures
            n == (if samples@.len() <= old(self).room() {
                samples@.len() as int
            } else {
                old(self).room()
            }),
            old(self).capacity() - old(self).written() <= old(self).room() <= old(
                self,
            ).capacity(),
            final(self).capacity() == old(self).capacity(),
            final(self).stream() == old(self).stream(),
            final(self).written() == old(self).written() + n,
            final(self).written() <= final(self).stream().len(),
            final(self).stream().subrange(old(self).written(), final(self).written())
                == samples@.take(n as int),
            final(self).dropped() as int == (old(self).dropped() + (samples@.len() - n))
                % 0x1_0000_0000_0000_0000,
    {
        let n: usize = write_some(&mut self.inner, samples);
        let lost: u64 = (samples.len() - n) as u64;
        if lost > 0 {
            self.dropped = self.dropped.wrapping_add(lost);
            self.publish();
        }
        n
    }

    /// Shows the count of dropped samples to the other end.
    fn publish(&self) {
        self.overflow.store(self.dropped, Ordering::Relaxed);
    }

    /// Samples dropped so far.
    pub fn overflow_count(&self) -> (n: u64)
        ensures
            n == self.dropped(),
    {
        self.dropped
    }
}

impl RawConsumer {
    /// Everything that passes through the ring over its whole life.
    pub closed spec fn stream(self) -> Seq<Sample> {
        read_stream(self.inner)
    }

    /// How much of that has been read so far.
    pub closed spec fn read(self) -> int {
        read_len(self.inner) as int
    }

    /// How many samples wait at the next read, which depends on how much the other end has
    /// written by then.
    pub closed spec fn waiting(self) -> int {
        ring_waiting(self.inner) as int
    }

    /// How many samples the last read saw waiting and did not take.
    pub closed spec fn left(self) -> int {
        ring_left(self.inner) as int
    }

    /// Reads as many samples as wait and fit into `dst`, the oldest first. Returns how many;
    /// the rest of `dst` stays as it was.
    pub fn pop_slice(&mut self, dst: &mut [Sample]) -> (n: usize)
        ensures
            n == (if old(dst)@.len() <= old(self).waiting() {
                old(dst)@.len() as int
            } else {
                old(self).waiting()
            }),
            final(self).stream() == old(self).stream(),
            final(self).read() == old(self).read() + n,
            old(self).read() + old(self).waiting() <= old(self).stream().len(),
            final(self).left() == old(self).waiting() - n,
            final(self).left() <= final(self).waiting(),
            final(dst)@ == old(self).stream().subrange(old(self).read(), final(self).read())
                + old(dst)@.skip(n as int),
    {
        read_some(&mut self.inner, dst)
    }

    /// Reads the oldest sample, if one waits.
    pub fn pop(&mut self) -> (r: Option<Sample>)
        ensures
            r is Some <==> old(self).waiting() > 0,
            final(self).stream() == old(self).stream(),
            old(self).read() + old(self).waiting() <= old(self).stream().len(),
            final(self).left() <= final(self).waiting(),
            match r {
                Some(s) => {
                    &&& final(self).read() == old(self).read() + 1
                    &&& final(self).left() == old(self).waiting() - 1
                    &&& s == old(self).stream()[old(self).read()]
                },
                None => final(self).read() == old(self).read() && final(self).left() == 0,
            },
    {
        read_one(&mut self.inner)
    }

    /// Samples that are there to be read: no fewer than the last read left. More may wait by
    /// the next read, but not fewer.
    pub fn available(&self) -> (n: usize)
        ensures
            self.left() <= n <= self.waiting(),
    {
        readable(&self.inner)
    }

    /// Samples that the other end has dropped so far. The other end counts while this one
    /// looks, so nothing is stated of the number.
    pub fn overflow_count(&self) -> u64 {
        self.overflow.load(Ordering::Relaxed)
    }
}

/// A ring that holds `capacity_samples` samples, but at least one.
pub fn raw_ring(capacity_samples: usize) -> (ends: (RawProducer, RawConsumer))
    requires
        capacity_samples * 4 <= isize::MAX,
    ensures
        ends.0.capacity() == (if capacity_samples == 0 {
            1
        } else {
            capacity_samples as int
        }),
        ends.0.written() == 0,
        ends.0.dropped() == 0,
        ends.1.read() == 0,
        ends.1.left() == 0,
        ends.0.stream() == ends.1.stream(),
{
    let capacity: usize = if capacity_samples == 0 {
        1
    } else {
        capacity_samples
    };
    let (producer, consumer) = new_ring(capacity);
    let overflow: Arc<AtomicU64> = Arc::new(AtomicU64::new(0));
    (
        RawProducer { inner: producer, overflow: overflow.clone(), dropped: 0 },
        RawConsumer { inner: consumer, overflow },
    )
}

/// What is read is what was written, in the same order: a sample that is the `k`-th to be
/// read was the `k`-th to be written.
pub proof fn lemma_first_in_first_out(p: RawProducer, c: RawConsumer, k: int)
    requires
        p.stream() == c.stream(),
        0 <= k < p.written() <= p.stream().len(),
        k < c.read() <= c.stream().len(),
    ensures
        p.stream().take(p.written())[k] == c.stream().take(c.read())[k],
{
}

impl RawProducer {
    /// Whether writing the first `n` of `samples` took this end to `after`, as
    /// [`RawProducer::push_slice`] does.
    pub open spec fn wrote(self, samples: Seq<Sample>, n: int, after: RawProducer) -> bool {
        &&& 0 <= n <= samples.len()
        &&& after.stream() == self.stream()
        &&& after.written() == self.written() + n
        &&& after.written() <= after.stream().len()
        &&& after.stream().subrange(self.written(), after.written()) == samples.take(n)
    }
}

impl RawConsumer {
    /// Whether reading `taken` took this end to `after`, as [`RawConsumer::pop_slice`] and
    /// [`RawConsumer::pop`] do.
    pub open spec fn took(self, taken: Seq<Sample>, after: RawConsumer) -> bool {
        &&& after.stream() == self.stream()
        &&& after.read() == self.read() + taken.len()
        &&& after.read() <= after.stream().len()
        &&& after.stream().subrange(self.read(), after.read()) == taken
    }
}

/// Pieces one after the other.
pub open spec fn all_of(pieces: Seq<Seq<Sample>>) -> Seq<Sample>
    decreases pieces.len(),
{
    if pieces.len() == 0 {
        seq![]
    } else {
        all_of(pieces.drop_last()) + pieces.last()
    }
}

/// Nothing is lost, doubled or put out of order, whatever the two ends do in turn. What was
/// written of each slice, one after the other, is the front of the stream; and so is what was
/// read, one piece after the other. So what was read is the front of what was written, as far
/// as that goes, and the rest of it is still to be read.
///
/// `ps` are the states of the writing end, from the first one on, with the slices and how much
/// of each was written in between; `cs` those of the reading end with the pieces read.
pub proof fn lemma_everything_arrives_in_order(
    ps: Seq<RawProducer>,
    slices: Seq<Seq<Sample>>,
    counts: Seq<int>,
    cs: Seq<RawConsumer>,
    taken: Seq<Seq<Sample>>,
)
    requires
        ps.len() == slices.len() + 1,
        counts.len() == slices.len(),
        ps[0].written() == 0,
        forall|k: int|
            0 <= k < slices.len() ==> ps[k].wrote(#[trigger] slices[k], counts[k], ps[k + 1]),
        cs.len() == taken.len() + 1,
        cs[0].read() == 0,
        forall|k: int| 0 <= k < taken.len() ==> cs[k].took(#[trigger] taken[k], cs[k + 1]),
        ps[0].stream() == cs[0].stream(),
    ensures
        ({
            let stream = ps[0].stream();
            let written = ps.last().written();
            let read = cs.last().read();
            let sent = all_of(Seq::new(slices.len(), |k: int| slices[k].take(counts[k])));
            &&& sent.len() == written && sent.is_prefix_of(stream)
            &&& all_of(taken).len() == read && all_of(taken).is_prefix_of(stream)
            &&& read <= written ==> all_of(taken) == sent.take(read) && sent.skip(read)
                == stream.subrange(read, written)
        }),
{
    let stream = ps[0].stream();
    let pieces = Seq::new(slices.len(), |k: int| slices[k].take(counts[k]));
    let ends = Seq::new(ps.len(), |k: int| ps[k].written());
    assert forall|k: int| 0 <= k < pieces.len() implies #[trigger] fits_in(
        stream,
        pieces,
        ends,
        k,
    ) by {
        lemma_one_written_stream(ps, slices, counts, k);
        assert(ps[k].wrote(slices[k], counts[k], ps[k + 1]));
    }
    lemma_pieces_make_a_prefix(stream, pieces, ends);
    let marks = Seq::new(cs.len(), |k: int| cs[k].read());
    assert forall|k: int| 0 <= k < taken.len() implies #[trigger] fits_in(
        stream,
        taken,
        marks,
        k,
    ) by {
        lemma_one_read_stream(cs, taken, k);
        assert(cs[k].took(taken[k], cs[k + 1]));
    }
    lemma_pieces_make_a_prefix(stream, taken, marks);
    let written = ps.last().written();
    let read = cs.last().read();
    if read <= written {
        assert(all_of(taken) =~= all_of(pieces).take(read));
        assert(all_of(pieces).skip(read) =~= stream.subrange(read, written));
    }
}

proof fn lemma_one_written_stream(
    ps: Seq<RawProducer>,
    slices: Seq<Seq<Sample>>,
    counts: Seq<int>,
    k: int,
)
    requires
        ps.len() == slices.len() + 1,
        ps[0].written() == 0,
        forall|j: int|
            0 <= j < slices.len() ==> ps[j].wrote(#[trigger] slices[j], counts[j], ps[j + 1]),
        0 <= k < slices.len(),
    ensures
        ps[k].stream() == ps[0].stream(),
        ps[k + 1].stream() == ps[0].stream(),
        0 <= ps[k].written() <= ps[k + 1].written(),
    decreases k,
{
    assert(ps[k].wrote(slices[k], counts[k], ps[k + 1]));
    if k > 0 {
        lemma_one_written_stream(ps, slices, counts, k - 1);
    }
}

proof fn lemma_one_read_stream(cs: Seq<RawConsumer>, taken: Seq<Seq<Sample>>, k: int)
    requires
        cs.len() == taken.len() + 1,
        cs[0].read() == 0,
        forall|j: int| 0 <= j < taken.len() ==> cs[j].took(#[trigger] taken[j], cs[j + 1]),
        0 <= k < taken.len(),
    ensures
        cs[k].stream() == cs[0].stream(),
        cs[k + 1].stream() == cs[0].stream(),
        0 <= cs[k].read() <= cs[k + 1].read(),
    decreases k,
{
    assert(cs[k].took(taken[k], cs[k + 1]));
    if k > 0 {
        lemma_one_read_stream(cs, taken, k - 1);
    }
}

/// Whether piece `k` stands in the stream between the ends of the piece before and of itself.
spec fn fits_in(stream: Seq<Sample>, pieces: Seq<Seq<Sample>>, ends: Seq<int>, k: int) -> bool {
    &&& 0 <= ends[k] <= ends[k + 1] <= stream.len()
    &&& pieces[k] == stream.subrange(ends[k], ends[k + 1])
}

/// Pieces of a sequence that follow one another from its start on make up its front.
proof fn lemma_pieces_make_a_prefix(
    stream: Seq<Sample>,
    pieces: Seq<Seq<Sample>>,
    ends: Seq<int>,
)
    requires
        ends.len() == pieces.len() + 1,
        ends[0] == 0,
        forall|k: int| 0 <= k < pieces.len() ==> #[trigger] fits_in(stream, pieces, ends, k),
    ensures
        all_of(pieces) == stream.take(ends.last()),
        0 <= ends.last() <= stream.len(),
        all_of(pieces).is_prefix_of(stream),
        all_of(pieces).len() == ends.last(),
    decreases pieces.len(),
{
    if pieces.len() == 0 {
        assert(all_of(pieces) =~= stream.take(0));
    } else {
        let n = pieces.len() as int;
        let before = pieces.drop_last();
        let ends_before = ends.drop_last();
        assert forall|k: int| 0 <= k < before.len() implies #[trigger] fits_in(
            stream,
            before,
            ends_before,
            k,
        ) by {
            assert(fits_in(stream, pieces, ends, k));
        }
        lemma_pieces_make_a_prefix(stream, before, ends_before);
        assert(fits_in(stream, pieces, ends, n - 1));
        assert(all_of(pieces) =~= stream.take(ends[n]));
    }
}

/// A push writes as much from the front as there is room for, behind what was written before, and
/// counts the rest.
pub proof fn lemma_a_push_writes_what_fits(p: &mut RawProducer, samples: &[Sample], n: usize)
    requires
        call_ensures(RawProducer::push_slice, (p, samples), n),
    ensures
        samples@.len() <= old(p).room() ==> n == samples@.len() && final(p).dropped() == old(
            p).dropped() && final(p).stream().subrange(
            old(p).written(),
            old(p).written() + samples@.len(),
        ) == samples@,
        samples@.len() > old(p).room() ==> n == old(p).room(),
        final(p).written() == old(p).written() + n,
        old(p).dropped() + (samples@.len() - n) <= u64::MAX ==> final(p).dropped() == old(
            p).dropped() + (samples@.len() - n),
        old(p).written() == 0 && samples@.len() <= old(p).capacity() ==> n == samples@.len(),
{
    assert(samples@.take(samples@.len() as int) =~= samples@);
}

/// A read takes the oldest sample that waits, and nothing where none does.
pub proof fn lemma_a_read_takes_the_oldest(c: &mut RawConsumer, r: Option<Sample>)
    requires
        call_ensures(RawConsumer::pop, (c,), r),
    ensures
        old(c).waiting() > 0 ==> r is Some && r->0 == old(c).stream()[old(c).read()] && final(
            c).read() == old(c).read() + 1,
        old(c).waiting() == 0 ==> r is None && final(c).read() == old(c).read(),
        final(c).stream() == old(c).stream(),
{
}

/// A new ring is empty, has room for what was asked for, though for one sample at least, and what
/// is read from it is what is written to it.
pub proof fn lemma_a_new_ring_is_empty(capacity_samples: usize, ends: (RawProducer, RawConsumer))
    requires
        call_ensures(raw_ring, (capacity_samples,), ends),
    ensures
        capacity_samples > 0 ==> ends.0.capacity() == capacity_samples,
        capacity_samples == 0 ==> ends.0.capacity() == 1,
        ends.0.written() == 0 && ends.1.read() == 0 && ends.0.dropped() == 0,
        ends.0.stream() == ends.1.stream(),
{
}

} // verus!

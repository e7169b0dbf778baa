//! The ring of finished chunks between the thread that makes them and the one that polls.
//!
//! A full ring gives up its oldest chunk for a new one. Every chunk carries how many chunks
//! had been given up when it entered, itself included. [`ChunkQueue`] is the ring as one
//! owner sees it; [`ChunkProducer`] and [`ChunkConsumer`] share its chunks behind a lock, so
//! each of them finds them as the other one has left them. The count belongs to the producer,
//! which alone gives chunks up; it leaves every new count with the chunks for the consumer.

use crate::types::AudioChunk;
use ringbuf::traits::{Consumer, Observer, RingBuffer};
use ringbuf::HeapRb;
use std::sync::Arc;
use vstd::prelude::*;
use vstd::rwlock::{RwLock, RwLockPredicate};

verus! {

/// A `ringbuf::HeapRb` of chunks.
#[verifier::external_body]
pub struct ChunkStore {
    rb: HeapRb<AudioChunk>,
}

/// The chunks in the store, the oldest first.
pub uninterp spec fn stored(store: ChunkStore) -> Seq<AudioChunk>;

/// How many chunks the store was made for.
pub uninterp spec fn store_capacity(store: ChunkStore) -> nat;

/// Every chunk that enters the store over its whole life, in the order of entering.
pub uninterp spec fn store_stream(store: ChunkStore) -> Seq<AudioChunk>;

/// How many of them have entered so far.
pub uninterp spec fn store_entered(store: ChunkStore) -> nat;

/// `HeapRb::new` makes an empty ring of this capacity, which must not be zero. Its storage is
/// one allocation, which must not exceed the largest size; a chunk takes up less than 128
/// bytes of it.
#[verifier::external_body]
fn new_store(capacity: usize) -> (store: ChunkStore)
    requires
        0 < capacity,
        capacity * 128 <= isize::MAX,
    ensures
        stored(store) == Seq::<AudioChunk>::empty(),
        store_capacity(store) == capacity,
        store_entered(store) == 0,
{
    ChunkStore { rb: HeapRb::<AudioChunk>::new(capacity) }
}

/// `Observer::is_full` says whether the ring holds as many chunks as it was made for.
#[verifier::external_body]
fn store_is_full(store: &ChunkStore) -> (r: bool)
    ensures
        r == (stored(*store).len() == store_capacity(*store)),
{
    store.rb.is_full()
}

/// `RingBuffer::push_overwrite` appends a chunk; where the ring is full it first takes out
/// the oldest one and returns it. The chunk is the next one to enter.
#[verifier::external_body]
fn store_push_overwrite(store: &mut ChunkStore, chunk: AudioChunk) -> (evicted: Option<AudioChunk>)
    ensures
        store_capacity(*final(store)) == store_capacity(*old(store)),
        store_stream(*final(store)) == store_stream(*old(store)),
        store_entered(*final(store)) == store_entered(*old(store)) + 1,
        store_entered(*final(store)) <= store_stream(*final(store)).len(),
        store_stream(*final(store))[store_entered(*old(store)) as int] == chunk,
        stored(*old(store)).len() == store_capacity(*old(store)) ==> {
            &&& evicted == Some(stored(*old(store))[0])
            &&& stored(*final(store)) == stored(*old(store)).skip(1).push(chunk)
        },
        stored(*old(store)).len() != store_capacity(*old(store)) ==> {
            &&& evicted is None
            &&& stored(*final(store)) == stored(*old(store)).push(chunk)
        },
{
    store.rb.push_overwrite(chunk)
}

/// `Consumer::try_pop` takes out the oldest chunk, if there is one. None enters.
#[verifier::external_body]
fn store_try_pop(store: &mut ChunkStore) -> (chunk: Option<AudioChunk>)
    ensures
        store_capacity(*final(store)) == store_capacity(*old(store)),
        store_stream(*final(store)) == store_stream(*old(store)),
        store_entered(*final(store)) == store_entered(*old(store)),
        stored(*old(store)).len() == 0 ==> chunk is None && stored(*final(store)) == stored(
            *old(store),
        ),
        stored(*old(store)).len() > 0 ==> {
            &&& chunk == Some(stored(*old(store))[0])
            &&& stored(*final(store)) == stored(*old(store)).skip(1)
        },
{
    store.rb.try_pop()
}

/// `Observer::occupied_len` is the number of chunks in the ring.
#[verifier::external_body]
fn store_len(store: &ChunkStore) -> (n: usize)
    ensures
        n == stored(*store).len(),
{
    store.rb.occupied_len()
}

/// The queue as a mathematical value.
pub ghost struct QueueView {
    /// The chunks, the oldest first.
    pub chunks: Seq<AudioChunk>,
    /// Most chunks that it holds.
    pub capacity: nat,
    /// Chunks given up so far, as a 64-bit count that wraps around.
    pub dropped: u64,
}

/// The count of chunks given up as a chunk carries it: at most the largest 32-bit number.
pub open spec fn saturated(count: u64) -> u32 {
    if count > u32::MAX {
        u32::MAX
    } else {
        count as u32
    }
}

impl QueueView {
    /// What holds of every queue.
    pub open spec fn wf(self) -> bool {
        0 < self.capacity && self.chunks.len() <= self.capacity
    }

    /// Whether a new chunk costs the oldest one.
    pub open spec fn full(self) -> bool {
        self.chunks.len() == self.capacity
    }

    /// Chunks given up once a new one has entered.
    pub open spec fn dropped_by_push(self) -> u64 {
        if self.full() {
            ((self.dropped + 1) % 0x1_0000_0000_0000_0000) as u64
        } else {
            self.dropped
        }
    }

    /// A chunk enters: the oldest one goes where there is no room, and the new one carries
    /// the count. The count is returned where it grew.
    pub open spec fn pushed(self, chunk: AudioChunk) -> (QueueView, Option<u64>) {
        let total = self.dropped_by_push();
        let entered = AudioChunk { dropped_before: saturated(total), ..chunk };
        (
            QueueView {
                chunks: if self.full() {
                    self.chunks.skip(1).push(entered)
                } else {
                    self.chunks.push(entered)
                },
                capacity: self.capacity,
                dropped: total,
            },
            if self.full() {
                Some(total)
            } else {
                None
            },
        )
    }

    /// The oldest chunk leaves, if there is one.
    pub open spec fn popped(self) -> (QueueView, Option<AudioChunk>) {
        if self.chunks.len() == 0 {
            (self, None)
        } else {
            (QueueView { chunks: self.chunks.skip(1), ..self }, Some(self.chunks[0]))
        }
    }

    /// A queue into which nothing was pushed yet.
    pub open spec fn fresh(capacity: nat) -> QueueView {
        QueueView { chunks: Seq::empty(), capacity, dropped: 0 }
    }

    /// The queue once these chunks have been pushed, one after the other.
    pub open spec fn after_pushes(self, chunks: Seq<AudioChunk>) -> QueueView
        decreases chunks.len(),
    {
        if chunks.len() == 0 {
            self
        } else {
            self.after_pushes(chunks.drop_last()).pushed(chunks.last()).0
        }
    }

    /// The queue once `n` chunks have been asked for, one after the other.
    pub open spec fn after_pops(self, n: nat) -> QueueView
        decreases n,
    {
        if n == 0 {
            self
        } else {
            self.after_pops((n - 1) as nat).popped().0
        }
    }
}

/// The smaller of two numbers.
pub open spec fn at_most(n: nat, max: nat) -> nat {
    if n <= max {
        n
    } else {
        max
    }
}

/// How many chunks are given up when `n` are pushed into a fresh queue, as a 64-bit count that
/// wraps around.
pub open spec fn given_up(n: nat, capacity: nat) -> u64 {
    ((n - at_most(n, capacity)) % 0x1_0000_0000_0000_0000) as u64
}

/// Whether `chunks` are the last ones of the first `entered` chunks of `stream`.
pub open spec fn newest(chunks: Seq<AudioChunk>, stream: Seq<AudioChunk>, entered: nat) -> bool {
    &&& chunks.len() <= entered <= stream.len()
    &&& chunks == stream.subrange(entered - chunks.len(), entered as int)
}

/// A bounded queue of chunks that gives up the oldest.
pub struct ChunkQueue {
    store: ChunkStore,
    dropped: u64,
}

impl View for ChunkQueue {
    type V = QueueView;

    closed spec fn view(&self) -> QueueView {
        QueueView {
            chunks: stored(self.store),
            capacity: store_capacity(self.store),
            dropped: self.dropped,
        }
    }
}

impl ChunkQueue {
    /// Every chunk that enters the queue over its whole life, in the order of entering, each
    /// with the count that it carries.
    pub closed spec fn stream(self) -> Seq<AudioChunk> {
        store_stream(self.store)
    }

    /// How many of them have entered so far.
    pub closed spec fn entered(self) -> nat {
        store_entered(self.store)
    }

    /// An empty queue of `capacity_chunks` chunks, but at least one.
    pub fn new(capacity_chunks: usize) -> (queue: ChunkQueue)
        requires
            capacity_chunks * 128 <= isize::MAX,
        ensures
            queue@ == QueueView::fresh(
                if capacity_chunks == 0 {
                    1
                } else {
                    capacity_chunks as nat
                },
            ),
            queue@.wf(),
            queue.entered() == 0,
    {
        let capacity: usize = if capacity_chunks == 0 {
            1
        } else {
            capacity_chunks
        };
        ChunkQueue { store: new_store(capacity), dropped: 0 }
    }

    /// Appends a chunk, at the cost of the oldest one where the queue is full. Returns the
    /// count of chunks given up where that was the case.
    pub fn push(&mut self, chunk: AudioChunk) -> (total: Option<u64>)
        requires
            old(self)@.wf(),
        ensures
            final(self)@ == old(self)@.pushed(chunk).0,
            total == old(self)@.pushed(chunk).1,
            final(self)@.wf(),
            final(self).stream() == old(self).stream(),
            final(self).entered() == old(self).entered() + 1,
            final(self).entered() <= final(self).stream().len(),
            final(self).stream()[old(self).entered() as int] == (AudioChunk {
                dropped_before: saturated(final(self)@.dropped),
                ..chunk
            }),
            newest(old(self)@.chunks, old(self).stream(), old(self).entered()) ==> newest(
                final(self)@.chunks,
                final(self).stream(),
                final(self).entered(),
            ),
    {
        let will_evict: bool = store_is_full(&self.store);
        if will_evict {
            self.dropped = self.dropped.wrapping_add(1);
        }
        let total: u64 = self.dropped;
        let mut entered: AudioChunk = chunk;
        entered.dropped_before = if total > 0xffff_ffff {
            0xffff_ffff
        } else {
            total as u32
        };
        let _ = store_push_overwrite(&mut self.store, entered);
        proof {
            let held = self@.chunks;
            let n = self.entered() as int;
            if newest(old(self)@.chunks, old(self).stream(), old(self).entered()) {
                assert(held =~= self.stream().subrange(n - held.len(), n));
            }
        }
        if will_evict {
            Some(total)
        } else {
            None
        }
    }

    /// Takes out the oldest chunk, if there is one.
    pub fn try_pop(&mut self) -> (chunk: Option<AudioChunk>)
        requires
            old(self)@.wf(),
        ensures
            final(self)@ == old(self)@.popped().0,
            chunk == old(self)@.popped().1,
            final(self)@.wf(),
            final(self).stream() == old(self).stream(),
            final(self).entered() == old(self).entered(),
            newest(old(self)@.chunks, old(self).stream(), old(self).entered()) ==> newest(
                final(self)@.chunks,
                final(self).stream(),
                final(self).entered(),
            ),
    {
        let chunk: Option<AudioChunk> = store_try_pop(&mut self.store);
        proof {
            let held = self@.chunks;
            let n = self.entered() as int;
            if newest(old(self)@.chunks, old(self).stream(), old(self).entered()) {
                assert(held =~= self.stream().subrange(n - held.len(), n));
            }
        }
        chunk
    }

    /// Chunks in the queue.
    pub fn len(&self) -> (n: usize)
        ensures
            n == self@.chunks.len(),
    {
        store_len(&self.store)
    }

    /// Chunks given up so far.
    pub fn dropped_count(&self) -> (n: u64)
        ensures
            n == self@.dropped,
    {
        self.dropped
    }
}

/// What the lock guards: the chunks, and the count for the other end. What became of every
/// chunk that has entered is kept track of: it is still there, was taken, or was given up.
pub struct Guarded {
    store: ChunkStore,
    shown: u64,
    taken: Ghost<nat>,
    given_up: Ghost<nat>,
}

/// The count that the last of the first `entered` chunks of a stream carries; 0 where there is
/// none.
pub open spec fn carried(stream: Seq<AudioChunk>, entered: int) -> u32 {
    if entered <= 0 {
        0
    } else {
        stream[entered - 1].dropped_before
    }
}

/// What holds of the guarded value: the chunks are those of a well-formed queue of a given
/// capacity, and the newest of those that have entered, out of all that ever do. None is
/// unaccounted for, and the count is the one that the newest of all carries.
pub ghost struct QueueOf {
    pub capacity: nat,
    pub stream: Seq<AudioChunk>,
}

impl RwLockPredicate<Guarded> for QueueOf {
    closed spec fn inv(self, v: Guarded) -> bool {
        &&& 0 < self.capacity
        &&& store_capacity(v.store) == self.capacity
        &&& stored(v.store).len() <= self.capacity
        &&& store_stream(v.store) == self.stream
        &&& newest(stored(v.store), self.stream, store_entered(v.store))
        &&& store_entered(v.store) == stored(v.store).len() + v.taken@ + v.given_up@
        &&& saturated(v.shown) == carried(self.stream, store_entered(v.store) as int)
    }
}

/// Whether `q` is a state in which a queue of this capacity may be, if `stream` is all that
/// ever enters it.
pub open spec fn possible(capacity: nat, stream: Seq<AudioChunk>, q: QueueView) -> bool {
    &&& q.wf()
    &&& q.capacity == capacity
    &&& exists|from: int|
        0 <= from <= from + q.chunks.len() <= stream.len() && q.chunks == #[trigger] stream.subrange(
            from,
            from + q.chunks.len(),
        )
}

/// The end for the thread that makes chunks.
pub struct ChunkProducer {
    shared: Arc<RwLock<Guarded, QueueOf>>,
    dropped: u64,
}

/// The end for the thread that polls.
pub struct ChunkConsumer {
    shared: Arc<RwLock<Guarded, QueueOf>>,
}

impl ChunkProducer {
    /// Most chunks that the ring holds.
    pub closed spec fn capacity(self) -> nat {
        self.shared.pred().capacity
    }

    /// Every chunk that enters the ring over its whole life, in the order of entering, each
    /// with the count that it carries.
    pub closed spec fn stream(self) -> Seq<AudioChunk> {
        self.shared.pred().stream
    }

    /// Chunks given up so far, as a 64-bit count that wraps around.
    pub closed spec fn dropped(self) -> u64 {
        self.dropped
    }

    /// Appends a chunk as [`ChunkQueue::push`] does, to the chunks as they are found, with the
    /// count of this end.
    pub fn push(&mut self, chunk: AudioChunk) -> (total: Option<u64>)
        ensures
            final(self).capacity() == old(self).capacity(),
            final(self).stream() == old(self).stream(),
            final(self).stream().contains(
                (AudioChunk { dropped_before: saturated(final(self).dropped()), ..chunk }),
            ),
            exists|q: QueueView|
                possible(old(self).capacity(), old(self).stream(), q) && q.dropped == old(
                    self,
                ).dropped() && total == (#[trigger] q.pushed(chunk)).1 && final(self).dropped()
                    == q.pushed(chunk).0.dropped && possible(
                    old(self).capacity(),
                    old(self).stream(),
                    q.pushed(chunk).0,
                ),
    {
        let (guarded, handle) = self.shared.acquire_write();
        let Guarded { store, shown: _, taken, given_up } = guarded;
        let mut queue: ChunkQueue = ChunkQueue { store, dropped: self.dropped };
        let ghost found = queue@;
        let ghost place = queue.entered();
        let total: Option<u64> = queue.push(chunk);
        proof {
            let stream = self.stream();
            let from = place - found.chunks.len();
            assert(found.chunks =~= stream.subrange(from, from + found.chunks.len()));
            let held = queue@.chunks;
            let start = queue.entered() - held.len();
            assert(held =~= stream.subrange(start, start + held.len()));
            assert(stream[place as int] == (AudioChunk {
                dropped_before: saturated(queue@.dropped),
                ..chunk
            }));
        }
        let ChunkQueue { store, dropped } = queue;
        self.dropped = dropped;
        let ghost lost: nat = if found.full() {
            1
        } else {
            0
        };
        handle.release_write(
            Guarded { store, shown: dropped, taken, given_up: Ghost(given_up@ + lost) },
        );
        assert(possible(old(self).capacity(), old(self).stream(), found) && total == found.pushed(
            chunk,
        ).1);
        total
    }

    /// Chunks given up so far.
    pub fn dropped_count(&self) -> (n: u64)
        ensures
            n == self.dropped(),
    {
        self.dropped
    }
}

impl ChunkConsumer {
    /// Most chunks that the ring holds.
    pub closed spec fn capacity(self) -> nat {
        self.shared.pred().capacity
    }

    /// Every chunk that enters the ring over its whole life, in the order of entering, each
    /// with the count that it carries.
    pub closed spec fn stream(self) -> Seq<AudioChunk> {
        self.shared.pred().stream
    }

    /// Takes out the oldest chunk as [`ChunkQueue::try_pop`] does, from the chunks as they are
    /// found.
    pub fn try_pop(&mut self) -> (chunk: Option<AudioChunk>)
        ensures
            final(self).capacity() == old(self).capacity(),
            final(self).stream() == old(self).stream(),
            chunk matches Some(c) ==> final(self).stream().contains(c),
            exists|q: QueueView|
                possible(old(self).capacity(), old(self).stream(), q) && chunk == (
                #[trigger] q.popped()).1 && possible(
                    old(self).capacity(),
                    old(self).stream(),
                    q.popped().0,
                ),
    {
        let (guarded, handle) = self.shared.acquire_write();
        let Guarded { store, shown, taken, given_up } = guarded;
        // The count stays with the other end; taking out does not look at it.
        let mut queue: ChunkQueue = ChunkQueue { store, dropped: 0 };
        let ghost found = queue@;
        let ghost place = queue.entered();
        let chunk: Option<AudioChunk> = queue.try_pop();
        proof {
            let stream = self.stream();
            let from = place - found.chunks.len();
            assert(found.chunks =~= stream.subrange(from, from + found.chunks.len()));
            let held = queue@.chunks;
            let start = place - held.len();
            assert(held =~= stream.subrange(start, start + held.len()));
            if found.chunks.len() > 0 {
                assert(stream[from] == found.chunks[0]);
            }
        }
        let ghost left: nat = if found.chunks.len() > 0 {
            1
        } else {
            0
        };
        handle.release_write(
            Guarded { store: queue.store, shown, taken: Ghost(taken@ + left), given_up },
        );
        assert(possible(self.capacity(), self.stream(), found) && chunk == found.popped().1);
        chunk
    }

    /// Chunks in the ring. The other end may add one at any moment, so of the number is stated
    /// that the ring can hold as many, and that as many enter it.
    pub fn len(&self) -> (n: usize)
        ensures
            n <= self.capacity(),
            n <= self.stream().len(),
    {
        let handle = self.shared.acquire_read();
        let n: usize = store_len(&handle.borrow().store);
        handle.release_read();
        n
    }

    /// Whether the ring is empty. The other end may fill it at any moment, so it is only stated
    /// that one into which nothing ever enters is.
    pub fn is_empty(&self) -> (r: bool)
        ensures
            !r ==> self.stream().len() > 0,
    {
        self.len() == 0
    }

    /// Chunks that the other end has given up so far: the count that some chunk carried when it
    /// entered, or none. Which chunk was the last to enter depends on the other end.
    pub fn dropped_count(&self) -> (n: u64)
        ensures
            exists|k: int|
                0 <= k <= self.stream().len() && saturated(n) == #[trigger] carried(
                    self.stream(),
                    k,
                ),
    {
        let handle = self.shared.acquire_read();
        let n: u64 = handle.borrow().shown;
        assert(saturated(n) == carried(
            self.stream(),
            store_entered(handle.view().store) as int,
        ));
        handle.release_read();
        n
    }
}

/// A ring of `capacity_chunks` chunks, but at least one, and its two ends.
pub fn chunk_ring(capacity_chunks: usize) -> (ends: (ChunkProducer, ChunkConsumer))
    requires
        capacity_chunks * 128 <= isize::MAX,
    ensures
        ends.0.capacity() == (if capacity_chunks == 0 {
            1
        } else {
            capacity_chunks as nat
        }),
        ends.0.dropped() == 0,
        ends.1.capacity() == ends.0.capacity(),
        ends.1.stream() == ends.0.stream(),
{
    let queue: ChunkQueue = ChunkQueue::new(capacity_chunks);
    let ghost capacity = queue@.capacity;
    let ghost stream = queue.stream();
    assert(newest(queue@.chunks, stream, 0)) by {
        assert(queue@.chunks =~= stream.subrange(0, 0));
    }
    let guarded: Guarded = Guarded {
        store: queue.store,
        shown: 0,
        taken: Ghost(0),
        given_up: Ghost(0),
    };
    let shared: Arc<RwLock<Guarded, QueueOf>> = Arc::new(
        RwLock::new(guarded, Ghost(QueueOf { capacity, stream })),
    );
    (ChunkProducer { shared: shared.clone(), dropped: 0 }, ChunkConsumer { shared })
}

/// No chunk is lost without being counted: each push adds one to the chunks held and given
/// up together.
pub proof fn lemma_every_chunk_is_accounted_for(q: QueueView, chunk: AudioChunk)
    requires
        q.wf(),
        q.dropped < u64::MAX,
    ensures
        ({
            let after = q.pushed(chunk).0;
            after.wf() && after.chunks.len() + after.dropped == q.chunks.len() + q.dropped + 1
        }),
        q.pushed(chunk).1 is Some <==> q.pushed(chunk).0.dropped == q.dropped + 1,
{
}

/// A new chunk is always taken in, at the end, with everything but its count unchanged; what
/// was there before keeps its order, and only the oldest can be missing.
pub proof fn lemma_newest_is_kept(q: QueueView, chunk: AudioChunk)
    requires
        q.wf(),
    ensures
        ({
            let after = q.pushed(chunk).0;
            &&& after.chunks.last() == (AudioChunk {
                dropped_before: saturated(after.dropped),
                ..chunk
            })
            &&& after.chunks.drop_last() == (if q.full() {
                q.chunks.skip(1)
            } else {
                q.chunks
            })
        }),
{
    assert(q.pushed(chunk).0.chunks.drop_last() =~= (if q.full() {
        q.chunks.skip(1)
    } else {
        q.chunks
    }));
}

/// Where there is room, chunks leave in the order in which they entered.
pub proof fn lemma_chunks_leave_in_order(q: QueueView, a: AudioChunk, b: AudioChunk)
    requires
        q.wf(),
        q.chunks.len() == 0,
        q.capacity >= 2,
    ensures
        ({
            let count = saturated(q.dropped);
            let full = q.pushed(a).0.pushed(b).0;
            &&& full.popped().1 == Some(AudioChunk { dropped_before: count, ..a })
            &&& full.popped().0.popped().1 == Some(AudioChunk { dropped_before: count, ..b })
            &&& full.popped().0.popped().0.popped().1 is None
        }),
{
}

/// Whether the counts that the chunks carry never decrease, and none exceeds the count of the
/// queue.
pub open spec fn counts_in_order(q: QueueView) -> bool {
    &&& forall|i: int, j: int|
        0 <= i < j < q.chunks.len() ==> (#[trigger] q.chunks[i]).dropped_before <= (
        #[trigger] q.chunks[j]).dropped_before
    &&& forall|i: int|
        0 <= i < q.chunks.len() ==> (#[trigger] q.chunks[i]).dropped_before <= saturated(q.dropped)
}

/// The counts that chunks carry are cumulative: they never decrease from one chunk to the
/// next, whatever is pushed and popped.
pub proof fn lemma_counts_are_cumulative(q: QueueView, chunk: AudioChunk)
    requires
        q.wf(),
        counts_in_order(q),
        q.dropped < u64::MAX,
    ensures
        counts_in_order(q.pushed(chunk).0),
        counts_in_order(q.popped().0),
{
    let after = q.pushed(chunk).0;
    let shift: int = if q.full() {
        1
    } else {
        0
    };
    assert forall|i: int| 0 <= i < after.chunks.len() - 1 implies after.chunks[i] == q.chunks[i
        + shift] by {}
    assert forall|i: int, j: int| 0 <= i < j < after.chunks.len() implies (
    #[trigger] after.chunks[i]).dropped_before <= (#[trigger] after.chunks[j]).dropped_before by {
        assert(after.chunks[i] == q.chunks[i + shift]);
        if j < after.chunks.len() - 1 {
            assert(after.chunks[j] == q.chunks[j + shift]);
        }
    }
    assert forall|i: int| 0 <= i < after.chunks.len() implies (
    #[trigger] after.chunks[i]).dropped_before <= saturated(after.dropped) by {
        if i < after.chunks.len() - 1 {
            assert(after.chunks[i] == q.chunks[i + shift]);
        }
    }
    let rest = q.popped().0;
    if q.chunks.len() > 0 {
        assert forall|i: int, j: int| 0 <= i < j < rest.chunks.len() implies (
        #[trigger] rest.chunks[i]).dropped_before <= (
        #[trigger] rest.chunks[j]).dropped_before by {
            assert(rest.chunks[i] == q.chunks[i + 1]);
            assert(rest.chunks[j] == q.chunks[j + 1]);
        }
        assert forall|i: int| 0 <= i < rest.chunks.len() implies (
        #[trigger] rest.chunks[i]).dropped_before <= saturated(rest.dropped) by {
            assert(rest.chunks[i] == q.chunks[i + 1]);
        }
    }
}

/// What a fresh queue holds after any number of pushes: the last ones, as many as fit, in the
/// order in which they were pushed. Each carries how many had been given up when it entered,
/// and nothing else of it has changed.
proof fn lemma_after_pushes(chunks: Seq<AudioChunk>, capacity: nat)
    requires
        0 < capacity,
    ensures
        ({
            let q = QueueView::fresh(capacity).after_pushes(chunks);
            let first = chunks.len() - at_most(chunks.len(), capacity);
            &&& q.wf()
            &&& q.capacity == capacity
            &&& q.dropped == given_up(chunks.len(), capacity)
            &&& q.chunks.len() == at_most(chunks.len(), capacity)
            &&& forall|k: int|
                0 <= k < q.chunks.len() ==> #[trigger] q.chunks[k] == (AudioChunk {
                    dropped_before: saturated(given_up((first + k + 1) as nat, capacity)),
                    ..chunks[first + k]
                })
        }),
    decreases chunks.len(),
{
    if chunks.len() > 0 {
        let before = chunks.drop_last();
        lemma_after_pushes(before, capacity);
        let q = QueueView::fresh(capacity).after_pushes(before);
        let after = QueueView::fresh(capacity).after_pushes(chunks);
        let first = chunks.len() - at_most(chunks.len(), capacity);
        assert(after == q.pushed(chunks.last()).0);
        assert forall|k: int| 0 <= k < after.chunks.len() implies #[trigger] after.chunks[k] == (
        AudioChunk {
            dropped_before: saturated(given_up((first + k + 1) as nat, capacity)),
            ..chunks[first + k]
        }) by {
            if k < after.chunks.len() - 1 {
                if q.full() {
                    assert(after.chunks[k] == q.chunks[k + 1]);
                } else {
                    assert(after.chunks[k] == q.chunks[k]);
                }
            }
        }
    }
}

/// The last chunks pushed come out, in order: after any pushes into a fresh queue, the `k`-th
/// pop gives the `k`-th of the last ones that fit, changed in its count alone, as long as there
/// is one, and then nothing. Pops do not change the count of chunks given up.
pub proof fn lemma_last_pushed_come_out(chunks: Seq<AudioChunk>, capacity: nat, k: nat)
    requires
        0 < capacity,
        k <= at_most(chunks.len(), capacity),
    ensures
        ({
            let held = at_most(chunks.len(), capacity);
            let first = chunks.len() - held;
            let q = QueueView::fresh(capacity).after_pushes(chunks).after_pops(k);
            &&& q.chunks.len() == held - k
            &&& q.dropped == given_up(chunks.len(), capacity)
            &&& q.popped().1 == (if k < held {
                Some(
                    AudioChunk {
                        dropped_before: saturated(given_up((first + k + 1) as nat, capacity)),
                        ..chunks[first + k]
                    },
                )
            } else {
                None
            })
        }),
{
    lemma_after_pushes(chunks, capacity);
    lemma_after_pops(QueueView::fresh(capacity).after_pushes(chunks), k);
}

/// Pops take chunks from the front and leave all else as it is.
proof fn lemma_after_pops(q: QueueView, n: nat)
    requires
        n <= q.chunks.len(),
    ensures
        q.after_pops(n) == (QueueView { chunks: q.chunks.skip(n as int), ..q }),
    decreases n,
{
    if n == 0 {
        assert(q.chunks.skip(0) =~= q.chunks);
    } else {
        lemma_after_pops(q, (n - 1) as nat);
        assert(q.chunks.skip(n - 1).skip(1) =~= q.chunks.skip(n as int));
    }
}

/// A queue is full at its capacity; only then a push costs a chunk, the oldest one, which is
/// counted and reported. The new chunk is last, with its samples, time and number as they were
/// and with the count, held within 32 bits.
pub proof fn lemma_a_full_queue_gives_up_the_oldest(q: QueueView, chunk: AudioChunk)
    requires
        q.wf(),
    ensures
        ({
            let (after, told) = q.pushed(chunk);
            let entered = after.chunks.last();
            let full = q.chunks.len() == q.capacity;
            &&& after.capacity == q.capacity
            &&& full && q.dropped < u64::MAX ==> after.dropped == q.dropped + 1 && told == Some(
                (q.dropped + 1) as u64,
            )
            &&& full ==> after.chunks.drop_last() == q.chunks.skip(1)
            &&& !full ==> after.dropped == q.dropped && told is None && after.chunks.drop_last()
                == q.chunks
            &&& entered.data == chunk.data && entered.frames == chunk.frames && entered.pts_ns
                == chunk.pts_ns && entered.seq == chunk.seq && entered.flags == chunk.flags
                && entered.peak == chunk.peak && entered.rms == chunk.rms
            &&& after.dropped <= u32::MAX ==> entered.dropped_before == after.dropped
            &&& after.dropped > u32::MAX ==> entered.dropped_before == u32::MAX
        }),
{
    lemma_newest_is_kept(q, chunk);
}

/// The oldest chunk leaves first, as it is; from an empty queue nothing leaves.
pub proof fn lemma_the_oldest_leaves_first(q: QueueView)
    ensures
        q.chunks.len() > 0 ==> q.popped().1 == Some(q.chunks[0]) && q.popped().0.chunks
            == q.chunks.skip(1),
        q.chunks.len() == 0 ==> q.popped() == (q, None::<AudioChunk>),
        q.popped().0.capacity == q.capacity,
        q.popped().0.dropped == q.dropped,
{
}

} // verus!

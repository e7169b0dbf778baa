//! What a capture backend is, and the sink it delivers samples to.

use crate::raw_ring::RawProducer;
use crate::sample::Sample;
use crate::types::Error;
use vstd::prelude::*;

verus! {

/// Where a backend delivers interleaved samples. Its capture callback is the only one to push.
pub struct RawSink {
    producer: RawProducer,
    native_rate: u32,
    native_channels: u16,
}

impl RawSink {
    /// The writing end behind the sink.
    pub closed spec fn ring(self) -> RawProducer {
        self.producer
    }

    /// Rate and channels of the backend.
    pub closed spec fn format(self) -> (u32, u16) {
        (self.native_rate, self.native_channels)
    }

    /// Whether pushing `samples` took this sink to `after`, with `n` samples written: as many
    /// from the front as there is room for, and the others are dropped and counted.
    pub open spec fn push_relation(self, samples: Seq<Sample>, after: RawSink, n: int) -> bool {
        &&& n == (if samples.len() <= self.ring().room() {
            samples.len() as int
        } else {
            self.ring().room()
        })
        &&& self.ring().capacity() - self.ring().written() <= self.ring().room()
            <= self.ring().capacity()
        &&& after.format() == self.format()
        &&& after.ring().capacity() == self.ring().capacity()
        &&& after.ring().stream() == self.ring().stream()
        &&& after.ring().written() == self.ring().written() + n
        &&& after.ring().written() <= after.ring().stream().len()
        &&& after.ring().stream().subrange(self.ring().written(), after.ring().written())
            == samples.take(n)
        &&& after.ring().dropped() as int == (self.ring().dropped() + (samples.len() - n))
            % 0x1_0000_0000_0000_0000
    }

    /// A sink of a backend with this format.
    pub fn new(producer: RawProducer, native_rate: u32, native_channels: u16) -> (sink: RawSink)
        ensures
            sink.ring() == producer,
            sink.format() == (native_rate, native_channels),
    {
        RawSink { producer, native_rate, native_channels }
    }

    /// Delivers samples without waiting. What does not fit is dropped and counted. Returns how
    /// many were written. The ring carries samples only: their time is not looked at.
    pub fn push(&mut self, interleaved: &[Sample], pts_ns: i64) -> (n: usize)
        ensures
            old(self).push_relation(interleaved@, *final(self), n as int),
    {
        let _ = pts_ns;
        self.producer.push_slice(interleaved)
    }

    /// Rate of the backend in Hz.
    pub fn native_rate(&self) -> (rate: u32)
        ensures
            rate == self.format().0,
    {
        self.native_rate
    }

    /// Channels of the backend.
    pub fn native_channels(&self) -> (channels: u16)
        ensures
            channels == self.format().1,
    {
        self.native_channels
    }

    /// Samples dropped so far.
    pub fn overflow_count(&self) -> (n: u64)
        ensures
            n == self.ring().dropped(),
    {
        self.producer.overflow_count()
    }
}

/// A source of samples. Anyone may bring one of their own.
///
/// Starting a running backend and stopping one that does not run should change nothing, and a
/// capture callback should neither panic nor wait.
pub trait CaptureBackend: Send {
    /// Rate and channels in which it delivers.
    fn native_format(&self) -> (u32, u16);

    /// Begins to deliver to the sink.
    fn start(&mut self, sink: RawSink) -> Result<(), Error>;

    /// Ends the capture.
    fn stop(&mut self);
}

/// What is pushed arrives: from the front as much as there is room for, all of it where there is
/// room for all, behind what was written before; the rest is counted as dropped, and nothing
/// else changes.
pub proof fn lemma_what_fits_arrives(before: RawSink, samples: Seq<Sample>, after: RawSink, n: int)
    requires
        before.push_relation(samples, after, n),
    ensures
        0 <= n <= samples.len() || before.ring().room() < 0,
        samples.len() <= before.ring().room() ==> n == samples.len() && after.ring().stream()
            .subrange(before.ring().written(), before.ring().written() + samples.len()) == samples
            && after.ring().dropped() == before.ring().dropped(),
        samples.len() > before.ring().room() ==> n == before.ring().room(),
        after.ring().written() - before.ring().written() == n,
        before.ring().dropped() + (samples.len() - n) <= u64::MAX && n <= samples.len()
            ==> after.ring().dropped() == before.ring().dropped() + (samples.len() - n),
        after.format() == before.format(),
{
    assert(samples.take(samples.len() as int) =~= samples);
}

} // verus!

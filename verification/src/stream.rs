//! What a stream keeps while its sources come and go: the numbers of its chunks, its gain, its
//! output format, and whether the next chunk follows on from the last one.

use crate::sample::{below, finite, Sample, ZERO};
use crate::text::{joined, owned};
use crate::types::{ChunkFlags, Error, OutputFormat};
use vstd::prelude::*;

verus! {

/// Whether a stream accepts a gain: finite and not negative.
pub open spec fn is_gain(gain: Sample) -> bool {
    crate::sample::is_finite(gain) && !crate::sample::lt_value(gain, ZERO)
}

/// What a stream keeps, as a mathematical value.
pub ghost struct StreamView {
    /// The output format, fixed for good.
    pub output: OutputFormat,
    /// The gain.
    pub gain: Sample,
    /// Number of the next chunk, which wraps around after 64 bits.
    pub seq: u64,
    /// Whether something is missing before the next chunk.
    pub broken: bool,
    /// Whether what comes is left out.
    pub paused: bool,
}

impl StreamView {
    /// A chunk leaves with the next number.
    pub open spec fn numbered(self) -> StreamView {
        StreamView {
            seq: ((self.seq + 1) % 0x1_0000_0000_0000_0000) as u64,
            broken: false,
            ..self
        }
    }

    /// The bits of the flags of the next chunk.
    pub open spec fn flag_bits(self) -> u32 {
        if self.broken {
            1
        } else {
            0
        }
    }

    /// Another source takes over.
    pub open spec fn switched(self) -> StreamView {
        StreamView { broken: true, ..self }
    }

    /// What comes is left out from now on.
    pub open spec fn held(self) -> StreamView {
        StreamView { paused: true, ..self }
    }

    /// What comes is taken again; something is missing where it was not before.
    pub open spec fn released(self) -> StreamView {
        StreamView { paused: false, broken: self.broken || self.paused, ..self }
    }
}

/// What a stream keeps.
#[derive(Debug)]
pub struct StreamState {
    output: OutputFormat,
    gain: Sample,
    seq: u64,
    broken: bool,
    paused: bool,
}

impl View for StreamState {
    type V = StreamView;

    closed spec fn view(&self) -> StreamView {
        StreamView {
            output: self.output,
            gain: self.gain,
            seq: self.seq,
            broken: self.broken,
            paused: self.paused,
        }
    }
}

impl StreamState {
    /// A new stream. The gain is checked; `shown` is the gain as text.
    pub fn new(output: OutputFormat, gain: Sample, shown: &str) -> (r: Result<StreamState, Error>)
        ensures
            match r {
                Ok(s) => is_gain(gain) && s@ == (StreamView {
                    output,
                    gain,
                    seq: 0,
                    broken: false,
                    paused: false,
                }),
                Err(e) => {
                    &&& !is_gain(gain)
                    &&& e matches Error::InvalidArg(m) && m@
                        == "gain must be finite and >= 0.0, got "@ + shown@
                },
            },
    {
        let mut state: StreamState = StreamState {
            output,
            gain: ZERO,
            seq: 0,
            broken: false,
            paused: false,
        };
        match state.set_gain(gain, shown) {
            Ok(_) => Ok(state),
            Err(e) => Err(e),
        }
    }

    /// Changes the gain, where it is one; `shown` is the gain as text.
    pub fn set_gain(&mut self, gain: Sample, shown: &str) -> (r: Result<(), Error>)
        ensures
            match r {
                Ok(_) => is_gain(gain) && final(self)@ == (StreamView { gain, ..old(self)@ }),
                Err(e) => {
                    &&& !is_gain(gain)
                    &&& final(self)@ == old(self)@
                    &&& e matches Error::InvalidArg(m) && m@
                        == "gain must be finite and >= 0.0, got "@ + shown@
                },
            },
    {
        if finite(gain) && !below(gain, ZERO) {
            self.gain = gain;
            Ok(())
        } else {
            Err(Error::InvalidArg(joined("gain must be finite and >= 0.0, got ", shown)))
        }
    }

    /// The gain.
    pub fn gain(&self) -> (gain: Sample)
        ensures
            gain == self@.gain,
    {
        self.gain
    }

    /// Whether settings with this output format can be switched to: chunks cannot change their
    /// format in the middle of a stream.
    pub fn accept_switch(&self, output: OutputFormat) -> (r: Result<(), Error>)
        ensures
            match r {
                Ok(_) => output == self@.output,
                Err(e) => {
                    &&& output != self@.output
                    &&& e matches Error::InvalidArg(m) && m@
                        == "output format cannot change on switch"@
                },
            },
    {
        if output == self.output {
            Ok(())
        } else {
            Err(Error::InvalidArg(owned("output format cannot change on switch")))
        }
    }

    /// Another source has taken over. Numbers and gain go on.
    pub fn switched(&mut self)
        ensures
            final(self)@ == old(self)@.switched(),
    {
        self.broken = true;
    }

    /// Leaves out what comes.
    pub fn pause(&mut self)
        ensures
            final(self)@ == old(self)@.held(),
    {
        self.paused = true;
    }

    /// Takes what comes again.
    pub fn resume(&mut self)
        ensures
            final(self)@ == old(self)@.released(),
    {
        self.broken = self.broken || self.paused;
        self.paused = false;
    }

    /// Whether what comes is left out.
    pub fn is_paused(&self) -> (r: bool)
        ensures
            r == self@.paused,
    {
        self.paused
    }

    /// Number and flags of the chunk that leaves next.
    pub fn next_chunk(&mut self) -> (r: (u64, ChunkFlags))
        ensures
            r.0 == old(self)@.seq,
            r.1.spec_bits() == old(self)@.flag_bits(),
            final(self)@ == old(self)@.numbered(),
    {
        let seq: u64 = self.seq;
        let flags: ChunkFlags = if self.broken {
            ChunkFlags::discontinuity()
        } else {
            ChunkFlags::empty()
        };
        self.seq = seq.wrapping_add(1);
        self.broken = false;
        (seq, flags)
    }
}

/// Across a switch the numbers of the chunks go on, the first chunk after it says that something
/// is missing, the next one does not, and gain and output format are as before.
pub proof fn lemma_a_switch_goes_on_counting(s: StreamView)
    ensures
        ({
            let before = s.numbered();
            let after = before.switched();
            &&& after.seq == (s.seq + 1) % 0x1_0000_0000_0000_0000
            &&& after.flag_bits() == 1
            &&& after.numbered().flag_bits() == 0
            &&& after.gain == s.gain
            &&& after.output == s.output
            &&& after.paused == s.paused
        }),
{
}

/// After a pause the numbers go on too, and the first chunk says that something is missing.
pub proof fn lemma_a_pause_shows(s: StreamView)
    ensures
        s.held().released().seq == s.seq,
        s.held().released().flag_bits() == 1,
        s.held().released().gain == s.gain,
        !s.held().released().paused,
        !s.paused ==> s.released() == s,
{
}

/// A gain is accepted exactly where it is finite and not negative; a negative zero is none.
pub proof fn lemma_what_gains_are_accepted(gain: Sample)
    ensures
        is_gain(gain) <==> gain <= 0x7f7f_ffff || gain == 0x8000_0000,
{
}

/// A stream starts with the number 0, unbroken and not paused, with the format and the gain that
/// it was given, and it starts exactly where the gain is one.
pub proof fn lemma_streams_start_at_zero(
    output: OutputFormat,
    gain: Sample,
    shown: &str,
    r: Result<StreamState, Error>,
)
    requires
        call_ensures(StreamState::new, (output, gain, shown), r),
    ensures
        r is Ok <==> gain <= 0x7f7f_ffff || gain == 0x8000_0000,
        r matches Ok(s) ==> s@.seq == 0 && !s@.broken && !s@.paused && s@.gain == gain && s@.output
            == output,
        r matches Err(e) ==> e is InvalidArg,
{
}

/// Only settings with the same output format can be switched to.
pub proof fn lemma_formats_cannot_change(
    s: &StreamState,
    output: OutputFormat,
    r: Result<(), Error>,
)
    requires
        call_ensures(StreamState::accept_switch, (s, output), r),
    ensures
        r is Ok <==> output.sample_rate == s@.output.sample_rate && output.channels
            == s@.output.channels,
        r matches Err(e) ==> e is InvalidArg,
{
}

/// Each chunk has the number after the one before; a chunk that follows on has no flag, and a
/// pause alone, or another source alone, changes neither numbers nor gain nor format.
pub proof fn lemma_numbers_go_up_by_one(s: StreamView)
    ensures
        s.seq < u64::MAX ==> s.numbered().seq == s.seq + 1,
        s.seq == u64::MAX ==> s.numbered().seq == 0,
        !s.numbered().broken,
        s.broken ==> s.flag_bits() == 1,
        !s.broken ==> s.flag_bits() == 0,
        s.numbered().gain == s.gain && s.numbered().output == s.output && s.numbered().paused
            == s.paused,
        s.held() == (StreamView { paused: true, ..s }),
        s.switched() == (StreamView { broken: true, ..s }),
        s.paused ==> s.released() == (StreamView { paused: false, broken: true, ..s }),
{
}

/// Changing the gain changes the gain alone, and only to a gain.
pub proof fn lemma_only_the_gain_changes(
    s: &mut StreamState,
    gain: Sample,
    shown: &str,
    r: Result<(), Error>,
)
    requires
        call_ensures(StreamState::set_gain, (s, gain, shown), r),
    ensures
        r is Ok <==> gain <= 0x7f7f_ffff || gain == 0x8000_0000,
        r is Ok ==> final(s)@.gain == gain,
        r is Err ==> final(s)@.gain == old(s)@.gain && r->Err_0 is InvalidArg,
        final(s)@.seq == old(s)@.seq,
        final(s)@.broken == old(s)@.broken,
        final(s)@.paused == old(s)@.paused,
        final(s)@.output == old(s)@.output,
{
}

/// A chunk gets the number and the flag that were due, and the next one is due after it.
pub proof fn lemma_chunks_get_the_number_that_is_due(s: &mut StreamState, r: (u64, ChunkFlags))
    requires
        call_ensures(StreamState::next_chunk, (s,), r),
    ensures
        r.0 == old(s)@.seq,
        old(s)@.broken ==> r.1.spec_bits() == 1,
        !old(s)@.broken ==> r.1.spec_bits() == 0,
        old(s)@.seq < u64::MAX ==> final(s)@.seq == old(s)@.seq + 1,
        !final(s)@.broken,
        final(s)@.gain == old(s)@.gain,
{
}

} // verus!

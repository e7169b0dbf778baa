//! Segmentation of per-frame speech probabilities.
//!
//! Frames are fed one by one. A frame at or above the threshold is speech; one below the
//! negative threshold is silence; anything between changes nothing. Speech ends where the
//! silence that has lasted long enough began, segments that are too short are thrown away,
//! speech that lasts too long is cut, and what remains is padded on both sides without
//! reaching into the segment before it. Positions are absolute sample positions.

use crate::sample::{at_least, below, Sample};
use crate::vad::config::VadConfig;
use vstd::prelude::*;

verus! {

/// One padded speech segment.
#[derive(Debug, Clone, Copy, PartialEq, Eq, Structural)]
pub struct Segment {
    /// First sample.
    pub start_sample: u64,
    /// One past the last sample.
    pub end_sample: u64,
}

impl Segment {
    /// The start in ms at `sample_rate`, rounded down; a rate of 0 counts as 1.
    pub fn start_ms(&self, sample_rate: u32) -> (ms: u64)
        requires
            self.start_sample * 1000 <= u64::MAX,
        ensures
            ms == self.start_sample * 1000 / (if sample_rate == 0 {
                1
            } else {
                sample_rate as int
            }),
    {
        (self.start_sample * 1000) / at_least_one(sample_rate)
    }

    /// The end in ms at `sample_rate`, rounded down; a rate of 0 counts as 1.
    pub fn end_ms(&self, sample_rate: u32) -> (ms: u64)
        requires
            self.end_sample * 1000 <= u64::MAX,
        ensures
            ms == self.end_sample * 1000 / (if sample_rate == 0 {
                1
            } else {
                sample_rate as int
            }),
    {
        (self.end_sample * 1000) / at_least_one(sample_rate)
    }

    /// Samples in the segment; 0 where the end is not after the start.
    pub fn len_samples(&self) -> (n: u64)
        ensures
            n == (if self.end_sample >= self.start_sample {
                self.end_sample - self.start_sample
            } else {
                0
            }),
    {
        self.end_sample.saturating_sub(self.start_sample)
    }
}

fn at_least_one(rate: u32) -> (r: u64)
    ensures
        r == (if rate == 0 {
            1
        } else {
            rate as int
        }),
{
    if rate == 0 {
        1
    } else {
        rate as u64
    }
}

/// The segmenter as a mathematical value.
pub ghost struct SegmenterView {
    /// Speech from here on.
    pub threshold: Sample,
    /// Silence below this.
    pub neg_threshold: Sample,
    /// Shortest speech that is kept.
    pub min_speech: int,
    /// Silence that ends speech.
    pub min_silence: int,
    /// Padding on each side.
    pub pad: int,
    /// Longest speech before it is cut; 0 for no limit.
    pub max_speech: int,
    /// Samples per frame.
    pub frame: int,
    /// Whether speech is going on.
    pub triggered: bool,
    /// Where the present speech began.
    pub start: int,
    /// Where the present silence began; 0 for none.
    pub silence: int,
    /// Samples fed so far.
    pub pos: int,
    /// End of the segment before; 0 for none.
    pub prev_end: int,
}

/// The larger of two numbers.
pub open spec fn larger(a: int, b: int) -> int {
    if a >= b {
        a
    } else {
        b
    }
}

impl SegmenterView {
    /// What holds of every segmenter.
    pub open spec fn wf(self) -> bool {
        &&& self.frame > 0
        &&& self.min_speech >= 0
        &&& self.min_silence >= 0
        &&& self.pad >= 0
        &&& self.max_speech >= 0
        &&& 0 <= self.start <= self.pos
        &&& 0 <= self.prev_end <= self.earliest() + self.pad
        &&& self.triggered ==> self.pos >= self.frame
        &&& !self.triggered ==> self.silence == 0
        &&& self.silence != 0 ==> self.start <= self.silence < self.pos
        &&& (self.triggered && self.max_speech > 0) ==> self.pos - self.start <= self.max_speech
            + self.frame
        &&& (self.triggered && self.max_speech > 0 && self.pos - self.start > self.max_speech)
            ==> self.silence == 0
    }

    /// The earliest position at which speech that is still to come can begin.
    pub open spec fn earliest(self) -> int {
        if self.triggered {
            self.start
        } else {
            self.pos
        }
    }

    /// The segment that speech from `from` to `to` becomes: padded on both sides, not before
    /// the stream and not into the segment before it.
    pub open spec fn padded(self, from: int, to: int) -> Segment {
        Segment {
            start_sample: larger(larger(from - self.pad, 0), self.prev_end) as u64,
            end_sample: (to + self.pad) as u64,
        }
    }

    /// Speech from `from` to `to` is over: it is kept where it is long enough.
    pub open spec fn finished(self, from: int, to: int) -> (SegmenterView, Seq<Segment>) {
        if to - from < self.min_speech {
            (self, Seq::empty())
        } else {
            (
                SegmenterView { prev_end: to + self.pad, ..self },
                seq![self.padded(from, to)],
            )
        }
    }

    /// Where the present speech is over: it is reported and nothing goes on.
    pub open spec fn ended(self, to: int) -> (SegmenterView, Seq<Segment>) {
        let (next, out) = self.finished(self.start, to);
        (SegmenterView { triggered: false, silence: 0, ..next }, out)
    }

    /// Speech that has become too long is cut where its last silence began, or else here,
    /// and goes on from the cut.
    pub open spec fn cut(self) -> (SegmenterView, Seq<Segment>) {
        if !self.triggered || self.max_speech == 0 || self.pos - self.start <= self.max_speech {
            (self, Seq::empty())
        } else {
            let at: int = if self.silence != 0 {
                self.silence
            } else {
                self.pos
            };
            let (next, out) = self.finished(self.start, at);
            (SegmenterView { start: at, silence: 0, ..next }, out)
        }
    }

    /// One frame with the given probability.
    pub open spec fn fed(self, prob: Sample) -> (SegmenterView, Seq<Segment>) {
        let here: int = self.pos;
        let moved = SegmenterView { pos: self.pos + self.frame, ..self };
        if crate::sample::ge_value(prob, self.threshold) {
            SegmenterView {
                silence: 0,
                triggered: true,
                start: if self.triggered {
                    self.start
                } else {
                    here
                },
                ..moved
            }.cut()
        } else if crate::sample::lt_value(prob, self.neg_threshold) && self.triggered {
            let since: int = if self.silence == 0 {
                here
            } else {
                self.silence
            };
            let quiet = SegmenterView { silence: since, ..moved };
            if here - since >= self.min_silence {
                quiet.ended(since)
            } else {
                quiet.cut()
            }
        } else {
            moved.cut()
        }
    }

    /// The input is over: speech that is going on ends here.
    pub open spec fn flushed(self) -> (SegmenterView, Seq<Segment>) {
        if self.triggered {
            self.ended(self.pos)
        } else {
            (self, Seq::empty())
        }
    }

    /// The segmenter as it was made.
    pub open spec fn cleared(self) -> SegmenterView {
        SegmenterView { triggered: false, start: 0, silence: 0, pos: 0, prev_end: 0, ..self }
    }

    /// All frames of `probs`, one after the other.
    pub open spec fn run(self, probs: Seq<Sample>) -> (SegmenterView, Seq<Segment>)
        decreases probs.len(),
    {
        if probs.len() == 0 {
            (self, Seq::empty())
        } else {
            let (before, out) = self.run(probs.drop_last());
            let (after, more) = before.fed(probs.last());
            (after, out + more)
        }
    }

    /// Whether the next `frames` frames keep every position within 64 bits.
    pub open spec fn room_for(self, frames: int) -> bool {
        self.pos + self.frame * frames + self.pad <= u64::MAX
    }
}

/// Turns per-frame probabilities into speech segments.
#[derive(Debug, Clone)]
pub struct Segmenter {
    threshold: Sample,
    neg_threshold: Sample,
    min_speech_samples: u64,
    min_silence_samples: u64,
    speech_pad_samples: u64,
    max_speech_samples: u64,
    frame_size: u64,
    triggered: bool,
    current_start: u64,
    temp_end: u64,
    next_pos: u64,
    prev_end: u64,
}

impl View for Segmenter {
    type V = SegmenterView;

    closed spec fn view(&self) -> SegmenterView {
        SegmenterView {
            threshold: self.threshold,
            neg_threshold: self.neg_threshold,
            min_speech: self.min_speech_samples as int,
            min_silence: self.min_silence_samples as int,
            pad: self.speech_pad_samples as int,
            max_speech: self.max_speech_samples as int,
            frame: self.frame_size as int,
            triggered: self.triggered,
            start: self.current_start as int,
            silence: self.temp_end as int,
            pos: self.next_pos as int,
            prev_end: self.prev_end as int,
        }
    }
}

impl Segmenter {
    /// A segmenter with the settings of `config`, at position 0.
    pub fn new(config: &VadConfig) -> (s: Segmenter)
        ensures
            s@ == config.segmenter(),
            s@.wf(),
            s@.room_for(0),
    {
        Segmenter {
            threshold: config.threshold,
            neg_threshold: config.resolved_neg_threshold(),
            min_speech_samples: config.ms_to_samples(config.min_speech_ms),
            min_silence_samples: config.ms_to_samples(config.min_silence_ms),
            speech_pad_samples: config.ms_to_samples(config.speech_pad_ms),
            max_speech_samples: config.ms_to_samples(config.max_speech_ms),
            frame_size: config.frame_size() as u64,
            triggered: false,
            current_start: 0,
            temp_end: 0,
            next_pos: 0,
            prev_end: 0,
        }
    }

    /// Back to position 0 with the same settings.
    pub fn reset(&mut self)
        requires
            old(self)@.wf(),
        ensures
            final(self)@ == old(self)@.cleared(),
            final(self)@.wf(),
    {
        self.triggered = false;
        self.current_start = 0;
        self.temp_end = 0;
        self.next_pos = 0;
        self.prev_end = 0;
    }

    /// Feeds the probability of one frame and appends the segment that it completes, if any.
    pub fn feed(&mut self, prob: Sample, out: &mut Vec<Segment>)
        requires
            old(self)@.wf(),
            old(self)@.room_for(1),
        ensures
            final(self)@ == old(self)@.fed(prob).0,
            final(out)@ == old(out)@ + old(self)@.fed(prob).1,
            final(self)@.wf(),
    {
        let frame_start: u64 = self.next_pos;
        let frame_end: u64 = frame_start + self.frame_size;
        self.next_pos = frame_end;

        if at_least(prob, self.threshold) {
            if self.temp_end != 0 {
                self.temp_end = 0;
            }
            if !self.triggered {
                self.triggered = true;
                self.current_start = frame_start;
            }
            self.check_max_speech(frame_end, out);
            return;
        }
        if below(prob, self.neg_threshold) && self.triggered {
            if self.temp_end == 0 {
                self.temp_end = frame_start;
            }
            if frame_start.saturating_sub(self.temp_end) >= self.min_silence_samples {
                self.finalize_segment(self.current_start, self.temp_end, out);
                self.triggered = false;
                self.temp_end = 0;
                return;
            }
        }
        self.check_max_speech(frame_end, out);
    }

    /// Cuts speech that has become too long.
    fn check_max_speech(&mut self, frame_end: u64, out: &mut Vec<Segment>)
        requires
            frame_end == old(self)@.pos,
            0 <= old(self)@.start <= old(self)@.pos,
            old(self)@.silence != 0 ==> old(self)@.start <= old(self)@.silence < old(self)@.pos,
            old(self)@.pos + old(self)@.pad <= u64::MAX,
        ensures
            final(self)@ == old(self)@.cut().0,
            final(out)@ == old(out)@ + old(self)@.cut().1,
    {
        if !self.triggered || self.max_speech_samples == 0 {
            return;
        }
        let speech_len: u64 = frame_end.saturating_sub(self.current_start);
        if speech_len <= self.max_speech_samples {
            return;
        }
        if self.temp_end != 0 {
            let split: u64 = self.temp_end;
            self.finalize_segment(self.current_start, split, out);
            self.current_start = split;
            self.temp_end = 0;
        } else {
            self.finalize_segment(self.current_start, frame_end, out);
            self.current_start = frame_end;
        }
    }

    /// The input is over: appends the speech that is going on, if it is long enough.
    pub fn flush(&mut self, out: &mut Vec<Segment>)
        requires
            old(self)@.wf(),
            old(self)@.room_for(0),
        ensures
            final(self)@ == old(self)@.flushed().0,
            final(out)@ == old(out)@ + old(self)@.flushed().1,
            final(self)@.wf(),
    {
        if self.triggered {
            self.finalize_segment(self.current_start, self.next_pos, out);
            self.triggered = false;
            self.temp_end = 0;
        }
    }

    /// Keeps speech that is long enough, padded.
    fn finalize_segment(&mut self, raw_start: u64, raw_end: u64, out: &mut Vec<Segment>)
        requires
            raw_start <= raw_end,
            raw_end + old(self)@.pad <= u64::MAX,
        ensures
            final(self)@ == old(self)@.finished(raw_start as int, raw_end as int).0,
            final(out)@ == old(out)@ + old(self)@.finished(raw_start as int, raw_end as int).1,
    {
        if raw_end.saturating_sub(raw_start) < self.min_speech_samples {
            return;
        }
        let mut start: u64 = raw_start.saturating_sub(self.speech_pad_samples);
        let end: u64 = raw_end + self.speech_pad_samples;
        if self.prev_end != 0 && start < self.prev_end {
            start = self.prev_end;
        }
        self.prev_end = end;
        out.push(Segment { start_sample: start, end_sample: end });
    }
}

/// A segmenter keeps its invariant, its settings and its pace.
pub proof fn lemma_feed_keeps_invariant(s: SegmenterView, prob: Sample)
    requires
        s.wf(),
    ensures
        s.fed(prob).0.wf(),
        s.fed(prob).0.pos == s.pos + s.frame,
        s.fed(prob).0.cleared() == s.cleared(),
        s.fed(prob).1.len() <= 1,
{
}

/// What a frame completes starts no earlier than the segment before it ended, is no shorter
/// than the shortest speech that is kept, and becomes the segment before the next one.
pub proof fn lemma_feed_emits_in_order(s: SegmenterView, prob: Sample)
    requires
        s.wf(),
        s.room_for(1),
    ensures
        s.fed(prob).1.len() == 1 ==> ({
            let seg = s.fed(prob).1[0];
            &&& s.prev_end <= seg.start_sample
            &&& seg.start_sample <= seg.end_sample
            &&& seg.end_sample - seg.start_sample >= s.min_speech
            &&& seg.end_sample == s.fed(prob).0.prev_end
            &&& s.max_speech > 0 ==> seg.end_sample - seg.start_sample <= s.max_speech + 2
                * s.frame + 2 * s.pad
        }),
        s.fed(prob).1.len() == 0 ==> s.fed(prob).0.prev_end == s.prev_end,
{
}

/// The end of the input completes a segment under the same conditions.
pub proof fn lemma_flush_emits_in_order(s: SegmenterView)
    requires
        s.wf(),
        s.room_for(0),
    ensures
        s.flushed().0.wf(),
        s.flushed().1.len() <= 1,
        s.flushed().1.len() == 1 ==> ({
            let seg = s.flushed().1[0];
            &&& s.prev_end <= seg.start_sample
            &&& seg.start_sample <= seg.end_sample
            &&& seg.end_sample - seg.start_sample >= s.min_speech
            &&& seg.end_sample == s.flushed().0.prev_end
            &&& s.max_speech > 0 ==> seg.end_sample - seg.start_sample <= s.max_speech
                + s.frame + 2 * s.pad
        }),
{
}

/// Whether no segment reaches into the next one, and none ends before it starts.
pub open spec fn in_order(segments: Seq<Segment>) -> bool {
    &&& forall|i: int|
        0 <= i < segments.len() ==> (#[trigger] segments[i]).start_sample <= segments[i].end_sample
    &&& forall|i: int, j: int|
        0 <= i < j < segments.len() ==> (#[trigger] segments[i]).end_sample <= (
        #[trigger] segments[j]).start_sample
}

/// Whether every segment is at least `shortest` samples long and, where `longest` is not 0,
/// at most `longest`.
pub open spec fn lengths_within(segments: Seq<Segment>, shortest: int, longest: int) -> bool {
    forall|i: int|
        0 <= i < segments.len() ==> {
            &&& (#[trigger] segments[i]).end_sample - segments[i].start_sample >= shortest
            &&& longest > 0 ==> segments[i].end_sample - segments[i].start_sample <= longest
        }
}

/// The longest segment that a segmenter can report, or 0 where it sets no limit: two frames
/// may pass before speech that is too long is cut, and both ends are padded.
pub open spec fn longest(s: SegmenterView) -> int {
    if s.max_speech > 0 {
        s.max_speech + 2 * s.frame + 2 * s.pad
    } else {
        0
    }
}

/// Whatever probabilities a fresh segmenter is fed, its segments come in order without
/// overlapping, each long enough and none longer than the limit allows.
pub proof fn lemma_run_is_in_order(s: SegmenterView, probs: Seq<Sample>)
    requires
        s.wf(),
        s.prev_end == 0,
        s.room_for(probs.len() as int),
    ensures
        s.run(probs).0.wf(),
        s.run(probs).0.pos == s.pos + s.frame * probs.len(),
        s.run(probs).0.cleared() == s.cleared(),
        in_order(s.run(probs).1),
        lengths_within(s.run(probs).1, s.min_speech, longest(s)),
        forall|i: int|
            0 <= i < s.run(probs).1.len() ==> (#[trigger] s.run(probs).1[i]).end_sample <= s.run(
                probs,
            ).0.prev_end,
    decreases probs.len(),
{
    if probs.len() > 0 {
        let n: int = probs.len() - 1;
        assert(s.frame * (n + 1) == s.frame * n + s.frame) by (nonlinear_arith);
        assert(s.frame * n >= 0) by (nonlinear_arith)
            requires
                s.frame > 0,
                n >= 0,
        ;
        lemma_run_is_in_order(s, probs.drop_last());
        let (before, out) = s.run(probs.drop_last());
        assert(before.cleared().pad == s.pad && before.cleared().frame == s.frame);
        assert(before.cleared().min_speech == s.min_speech && before.cleared().max_speech
            == s.max_speech);
        lemma_feed_keeps_invariant(before, probs.last());
        lemma_feed_emits_in_order(before, probs.last());
        let all = s.run(probs).1;
        assert(all == out + before.fed(probs.last()).1);
        assert forall|i: int| 0 <= i < all.len() implies (#[trigger] all[i]).start_sample
            <= all[i].end_sample by {
            if i < out.len() {
                assert(all[i] == out[i]);
            }
        }
        assert forall|i: int, j: int| 0 <= i < j < all.len() implies (#[trigger] all[i]).end_sample
            <= (#[trigger] all[j]).start_sample by {
            assert(all[i] == out[i]);
            if j < out.len() {
                assert(all[j] == out[j]);
            }
        }
        assert forall|i: int| 0 <= i < all.len() implies {
            &&& (#[trigger] all[i]).end_sample - all[i].start_sample >= s.min_speech
            &&& longest(s) > 0 ==> all[i].end_sample - all[i].start_sample <= longest(s)
        } by {
            if i < out.len() {
                assert(all[i] == out[i]);
            }
        }
        assert forall|i: int| 0 <= i < all.len() implies (#[trigger] all[i]).end_sample <= s.run(
            probs,
        ).0.prev_end by {
            if i < out.len() {
                assert(all[i] == out[i]);
            }
        }
    }
}

/// The same holds of everything that a fresh segmenter reports up to the end of the input.
pub proof fn lemma_whole_input_is_in_order(s: SegmenterView, probs: Seq<Sample>)
    requires
        s.wf(),
        s.prev_end == 0,
        s.room_for(probs.len() as int),
    ensures
        in_order(s.run(probs).1 + s.run(probs).0.flushed().1),
        lengths_within(s.run(probs).1 + s.run(probs).0.flushed().1, s.min_speech, longest(s)),
{
    lemma_run_is_in_order(s, probs);
    let (after, out) = s.run(probs);
    assert(after.cleared().pad == s.pad && after.cleared().frame == s.frame);
    assert(after.cleared().min_speech == s.min_speech && after.cleared().max_speech
        == s.max_speech);
    lemma_flush_emits_in_order(after);
    let all = out + after.flushed().1;
    assert forall|i: int| 0 <= i < all.len() implies {
        &&& (#[trigger] all[i]).start_sample <= all[i].end_sample
        &&& all[i].end_sample - all[i].start_sample >= s.min_speech
        &&& longest(s) > 0 ==> all[i].end_sample - all[i].start_sample <= longest(s)
    } by {
        if i < out.len() {
            assert(all[i] == out[i]);
        }
    }
    assert forall|i: int, j: int| 0 <= i < j < all.len() implies (#[trigger] all[i]).end_sample <= (
    #[trigger] all[j]).start_sample by {
        assert(all[i] == out[i]);
        if j < out.len() {
            assert(all[j] == out[j]);
        }
    }
}

/// Probabilities between the two thresholds neither start nor end speech nor begin a
/// silence.
pub proof fn lemma_gray_zone_changes_nothing(s: SegmenterView, prob: Sample)
    requires
        s.wf(),
        s.max_speech == 0,
        !crate::sample::ge_value(prob, s.threshold),
        !crate::sample::lt_value(prob, s.neg_threshold),
    ensures
        s.fed(prob) == (SegmenterView { pos: s.pos + s.frame, ..s }, Seq::<Segment>::empty()),
{
}

/// Silence before any speech is never reported.
pub proof fn lemma_silence_alone_is_never_speech(s: SegmenterView, probs: Seq<Sample>)
    requires
        s.wf(),
        !s.triggered,
        forall|i: int|
            0 <= i < probs.len() ==> !crate::sample::ge_value(#[trigger] probs[i], s.threshold),
    ensures
        s.run(probs).1 == Seq::<Segment>::empty(),
        !s.run(probs).0.triggered,
        s.run(probs).0.flushed().1 == Seq::<Segment>::empty(),
        s.run(probs).0.threshold == s.threshold,
    decreases probs.len(),
{
    if probs.len() > 0 {
        lemma_silence_alone_is_never_speech(s, probs.drop_last());
        assert(probs.last() == probs[probs.len() - 1]);
    }
}

/// Where every frame is speech, no segment is longer than the limit plus one frame, before
/// padding.
pub proof fn lemma_unbroken_speech_is_cut(s: SegmenterView, probs: Seq<Sample>)
    requires
        s.wf(),
        s.prev_end == 0,
        s.pad == 0,
        s.silence == 0,
        s.max_speech > 0,
        s.triggered ==> s.pos - s.start <= s.max_speech,
        s.room_for(probs.len() as int),
        forall|i: int|
            0 <= i < probs.len() ==> crate::sample::ge_value(#[trigger] probs[i], s.threshold),
    ensures
        lengths_within(s.run(probs).1, 0, s.max_speech + s.frame),
        s.run(probs).0.silence == 0,
        s.run(probs).0.triggered ==> s.run(probs).0.pos - s.run(probs).0.start <= s.max_speech,
        s.run(probs).0.cleared() == s.cleared(),
    decreases probs.len(),
{
    if probs.len() > 0 {
        let n: int = probs.len() - 1;
        assert(s.frame * (n + 1) == s.frame * n + s.frame) by (nonlinear_arith);
        lemma_unbroken_speech_is_cut(s, probs.drop_last());
        lemma_run_is_in_order(s, probs.drop_last());
        let (before, out) = s.run(probs.drop_last());
        assert(before.cleared().pad == s.pad && before.cleared().frame == s.frame);
        assert(before.cleared().threshold == s.threshold && before.cleared().max_speech
            == s.max_speech);
        assert(probs.last() == probs[n]);
        lemma_feed_keeps_invariant(before, probs.last());
        lemma_feed_emits_in_order(before, probs.last());
        let all = s.run(probs).1;
        assert forall|i: int| 0 <= i < all.len() implies {
            &&& (#[trigger] all[i]).end_sample - all[i].start_sample >= 0
            &&& all[i].end_sample - all[i].start_sample <= s.max_speech + s.frame
        } by {
            if i < out.len() {
                assert(all[i] == out[i]);
            }
        }
    }
}

/// A segment that a frame completes is the speech that was going on, or that began with it,
/// with the padding on both sides and nothing more: it starts `pad` samples before that speech
/// wherever there is room, and ends `pad` samples behind it.
pub proof fn lemma_a_segment_is_its_speech_padded(s: SegmenterView, prob: Sample)
    requires
        s.wf(),
        s.room_for(1),
        s.fed(prob).1.len() == 1,
    ensures
        ({
            let seg = s.fed(prob).1[0];
            let began = if s.triggered {
                s.start
            } else {
                s.pos
            };
            let over = seg.end_sample - s.pad;
            &&& seg.start_sample >= began - s.pad
            &&& seg.start_sample >= s.prev_end
            &&& seg.start_sample == began - s.pad || seg.start_sample == 0 || seg.start_sample
                == s.prev_end
            &&& began - s.pad >= 0 && began - s.pad >= s.prev_end ==> seg.start_sample == began
                - s.pad
            &&& over - began >= s.min_speech
            &&& over == s.pos || over == s.pos + s.frame || (s.silence != 0 && over == s.silence)
            &&& began <= over
        }),
{
}

/// The same of the segment that the end of the input completes, whose speech lasts to there.
pub proof fn lemma_the_last_segment_is_its_speech_padded(s: SegmenterView)
    requires
        s.wf(),
        s.room_for(0),
    ensures
        s.triggered && s.pos - s.start >= s.min_speech <==> s.flushed().1.len() == 1,
        s.flushed().1.len() == 1 ==> ({
            let seg = s.flushed().1[0];
            &&& seg.start_sample >= s.start - s.pad
            &&& seg.start_sample >= s.prev_end
            &&& seg.start_sample == s.start - s.pad || seg.start_sample == 0 || seg.start_sample
                == s.prev_end
            &&& s.start - s.pad >= 0 && s.start - s.pad >= s.prev_end ==> seg.start_sample
                == s.start - s.pad
            &&& seg.end_sample == s.pos + s.pad
        }),
        !s.flushed().0.triggered,
{
}

/// Speech begins with the first frame at or above the threshold and at that frame's first
/// sample; another such frame lets it go on and forgets a silence.
pub proof fn lemma_speech_begins_and_goes_on(s: SegmenterView, prob: Sample)
    requires
        s.wf(),
        s.max_speech == 0,
        crate::sample::ge_value(prob, s.threshold),
    ensures
        s.fed(prob).1.len() == 0,
        s.fed(prob).0.triggered,
        s.fed(prob).0.silence == 0,
        s.triggered ==> s.fed(prob).0.start == s.start,
        !s.triggered ==> s.fed(prob).0.start == s.pos,
        s.fed(prob).0.pos == s.pos + s.frame,
{
}

/// Speech ends with a frame below the silence threshold once the silence has lasted long
/// enough, and it ends where that silence began: it is reported exactly where it is long
/// enough, up to there. Until then it goes on, and the silence is remembered from its first
/// frame.
pub proof fn lemma_speech_ends_where_silence_began(s: SegmenterView, prob: Sample)
    requires
        s.wf(),
        s.room_for(1),
        s.triggered,
        s.max_speech == 0,
        crate::sample::lt_value(prob, s.neg_threshold),
        !crate::sample::ge_value(prob, s.threshold),
    ensures
        ({
            let since = if s.silence == 0 {
                s.pos
            } else {
                s.silence
            };
            let (t, out) = s.fed(prob);
            if s.pos - since >= s.min_silence {
                &&& !t.triggered
                &&& t.silence == 0
                &&& out.len() == 1 <==> since - s.start >= s.min_speech
                &&& out.len() == 0 || out.len() == 1
                &&& out.len() == 1 ==> out[0].end_sample == since + s.pad && t.prev_end == since
                    + s.pad
                &&& out.len() == 0 ==> t.prev_end == s.prev_end
            } else {
                &&& t.triggered
                &&& t.start == s.start
                &&& t.silence == since
                &&& out.len() == 0
                &&& t.prev_end == s.prev_end
            }
        }),
{
}

/// Outside speech a frame below the threshold changes nothing but the position.
pub proof fn lemma_quiet_stays_quiet(s: SegmenterView, prob: Sample)
    requires
        s.wf(),
        !s.triggered,
        !crate::sample::ge_value(prob, s.threshold),
    ensures
        s.fed(prob) == (SegmenterView { pos: s.pos + s.frame, ..s }, Seq::<Segment>::empty()),
{
}

/// Speech that passes the limit is cut and goes on from the cut: at the start of a silence that
/// is on, or else at the end of the frame. Below the limit nothing is cut.
pub proof fn lemma_long_speech_is_cut_and_goes_on(s: SegmenterView, prob: Sample)
    requires
        s.wf(),
        s.room_for(1),
        s.triggered,
        s.max_speech > 0,
        crate::sample::ge_value(prob, s.threshold),
    ensures
        ({
            let (t, out) = s.fed(prob);
            let end = s.pos + s.frame;
            &&& t.triggered
            &&& t.silence == 0
            &&& end - s.start > s.max_speech ==> t.start == end && (out.len() == 1 <==> end
                - s.start >= s.min_speech) && (out.len() == 1 ==> out[0].end_sample == end + s.pad)
            &&& end - s.start <= s.max_speech ==> t.start == s.start && out.len() == 0
        }),
{
}

/// A silence that is on decides where speech that passes the limit is cut, while the frame is
/// between the thresholds.
pub proof fn lemma_long_speech_is_cut_at_a_silence(s: SegmenterView, prob: Sample)
    requires
        s.wf(),
        s.room_for(1),
        s.triggered,
        s.max_speech > 0,
        s.silence != 0,
        !crate::sample::ge_value(prob, s.threshold),
        !crate::sample::lt_value(prob, s.neg_threshold),
        s.pos + s.frame - s.start > s.max_speech,
    ensures
        ({
            let (t, out) = s.fed(prob);
            &&& t.triggered
            &&& t.start == s.silence
            &&& t.silence == 0
            &&& out.len() == 1 <==> s.silence - s.start >= s.min_speech
            &&& out.len() == 1 ==> out[0].end_sample == s.silence + s.pad
        }),
{
}

/// Frames are fed in order: feeding one more is feeding it to what the others left.
pub proof fn lemma_frames_are_fed_in_order(s: SegmenterView, probs: Seq<Sample>, prob: Sample)
    ensures
        s.run(probs.push(prob)).0 == s.run(probs).0.fed(prob).0,
        s.run(probs.push(prob)).1 == s.run(probs).1 + s.run(probs).0.fed(prob).1,
        s.run(seq![]) == (s, Seq::<Segment>::empty()),
{
    assert(probs.push(prob).drop_last() =~= probs);
}

/// Starting anew keeps the settings and forgets all else.
pub proof fn lemma_clearing_keeps_settings(s: SegmenterView)
    ensures
        ({
            let c = s.cleared();
            &&& c.threshold == s.threshold && c.neg_threshold == s.neg_threshold
            &&& c.min_speech == s.min_speech && c.min_silence == s.min_silence
            &&& c.pad == s.pad && c.max_speech == s.max_speech && c.frame == s.frame
            &&& !c.triggered && c.pos == 0 && c.prev_end == 0 && c.start == 0 && c.silence == 0
        }),
{
}

/// What feeding a frame appends is the speech that the frame ends, from `pad` samples before its
/// beginning, or from the end of the segment before or from the start of the stream where there
/// is no room, to `pad` samples behind its end.
pub proof fn lemma_fed_segments_are_padded(
    s: &mut Segmenter,
    prob: Sample,
    out: &mut Vec<Segment>,
)
    requires
        old(s)@.wf(),
        old(s)@.room_for(1),
        call_ensures(Segmenter::feed, (s, prob, out), ()),
    ensures
        ({
            let v = old(s)@;
            let k = old(out)@.len() as int;
            let began = if v.triggered {
                v.start
            } else {
                v.pos
            };
            &&& final(out)@.take(k) == old(out)@
            &&& k <= final(out)@.len() <= k + 1
            &&& final(out)@.len() == k + 1 ==> {
                let seg = final(out)@[k];
                let over = seg.end_sample - v.pad;
                &&& seg.start_sample >= began - v.pad
                &&& seg.start_sample >= v.prev_end
                &&& began - v.pad >= 0 && began - v.pad >= v.prev_end ==> seg.start_sample == began
                    - v.pad
                &&& began < v.pad && v.prev_end == 0 ==> seg.start_sample == 0
                &&& over == v.pos || over == v.pos + v.frame || (v.silence != 0 && over
                    == v.silence)
                &&& final(s)@.prev_end == seg.end_sample
            }
            &&& final(s)@.pos == v.pos + v.frame
        }),
{
    let v = old(s)@;
    lemma_feed_keeps_invariant(v, prob);
    lemma_feed_emits_in_order(v, prob);
    if v.fed(prob).1.len() == 1 {
        lemma_a_segment_is_its_speech_padded(v, prob);
    }
    assert(final(out)@.take(old(out)@.len() as int) =~= old(out)@);
}

/// At the end of the input, speech that is going on is appended where it is long enough, padded
/// in the same way and up to the end of the input.
pub proof fn lemma_flushed_segments_are_padded(s: &mut Segmenter, out: &mut Vec<Segment>)
    requires
        old(s)@.wf(),
        old(s)@.room_for(0),
        call_ensures(Segmenter::flush, (s, out), ()),
    ensures
        ({
            let v = old(s)@;
            let k = old(out)@.len() as int;
            let long = v.triggered && v.pos - v.start >= v.min_speech;
            &&& final(out)@.len() == (if long {
                k + 1
            } else {
                k
            })
            &&& long ==> {
                let seg = final(out)@[k];
                &&& seg.end_sample == v.pos + v.pad
                &&& seg.start_sample >= v.start - v.pad
                &&& seg.start_sample >= v.prev_end
                &&& v.start - v.pad >= 0 && v.start - v.pad >= v.prev_end ==> seg.start_sample
                    == v.start - v.pad
                &&& v.start < v.pad && v.prev_end == 0 ==> seg.start_sample == 0
            }
            &&& final(out)@.take(k) == old(out)@
            &&& !final(s)@.triggered
        }),
{
    lemma_the_last_segment_is_its_speech_padded(old(s)@);
    lemma_flush_emits_in_order(old(s)@);
    assert(final(out)@.take(old(out)@.len() as int) =~= old(out)@);
}

/// A new segmenter has the settings that it was given, and has heard nothing.
pub proof fn lemma_a_new_segmenter_has_its_settings(config: &VadConfig, s: Segmenter)
    requires
        call_ensures(Segmenter::new, (config,), s),
    ensures
        s@.threshold == config.threshold,
        s@.min_speech * 1000 <= config.min_speech_ms * config.sample_rate < s@.min_speech * 1000
            + 1000,
        s@.min_silence * 1000 <= config.min_silence_ms * config.sample_rate < s@.min_silence * 1000
            + 1000,
        s@.pad * 1000 <= config.speech_pad_ms * config.sample_rate < s@.pad * 1000 + 1000,
        s@.max_speech * 1000 <= config.max_speech_ms * config.sample_rate < s@.max_speech * 1000
            + 1000,
        config.sample_rate == 8_000 ==> s@.frame == 256,
        config.sample_rate == 16_000 ==> s@.frame == 512,
        !s@.triggered && s@.pos == 0 && s@.prev_end == 0,
{
    crate::vad::config::lemma_settings_take_effect(*config);
}

/// A segment's milliseconds are its samples at the rate, rounded down, its start from its start
/// and its end from its end; its length is what lies between.
pub proof fn lemma_segments_have_times(
    s: Segment,
    rate: u32,
    from: u64,
    to: u64,
    n: u64,
)
    requires
        rate > 0,
        call_ensures(Segment::start_ms, (&s, rate), from),
        call_ensures(Segment::end_ms, (&s, rate), to),
        call_ensures(Segment::len_samples, (&s,), n),
    ensures
        from * rate <= s.start_sample * 1000 < from * rate + rate,
        to * rate <= s.end_sample * 1000 < to * rate + rate,
        s.start_sample <= s.end_sample ==> s.start_sample + n == s.end_sample,
        s.start_sample > s.end_sample ==> n == 0,
{
    let a = s.start_sample * 1000;
    let b = s.end_sample * 1000;
    let r = rate as int;
    assert((a / r) * r <= a < (a / r) * r + r && (b / r) * r <= b < (b / r) * r + r)
        by (nonlinear_arith)
        requires
            a >= 0,
            b >= 0,
            r > 0,
    ;
}

/// What one frame does, whatever the settings and whatever came before. A frame of speech starts
/// or continues speech; a frame of silence ends speech once the silence is long enough, where
/// the silence began; and speech that is longer than the limit after the frame is cut, where a
/// silence began or else at the end of the frame, and goes on from there. Speech that ends or is
/// cut is reported exactly where it is long enough.
#[verifier::spinoff_prover]
pub proof fn lemma_what_a_frame_does(s: SegmenterView, prob: Sample)
    requires
        s.wf(),
        s.room_for(1),
    ensures
        ({
            let (t, out) = s.fed(prob);
            let speech = crate::sample::ge_value(prob, s.threshold);
            let quiet = !speech && crate::sample::lt_value(prob, s.neg_threshold) && s.triggered;
            let end = s.pos + s.frame;
            let began = if s.triggered {
                s.start
            } else {
                s.pos
            };
            let since = if speech {
                0
            } else if quiet && s.silence == 0 {
                s.pos
            } else {
                s.silence
            };
            let over = quiet && s.pos - since >= s.min_silence;
            let on = speech || s.triggered;
            let long = on && !over && s.max_speech > 0 && end - began > s.max_speech;
            let at = if over {
                since
            } else if since != 0 {
                since
            } else {
                end
            };
            &&& t.pos == end
            &&& t.triggered <==> on && !over
            &&& on && !over && !long ==> t.start == began && t.silence == since
            &&& long ==> t.start == at && t.silence == 0
            &&& over ==> t.silence == 0
            &&& !on ==> t == (SegmenterView { pos: end, ..s })
            &&& (over || long) && at - began >= s.min_speech ==> {
                &&& out.len() == 1
                &&& out[0].end_sample == at + s.pad
                &&& t.prev_end == at + s.pad
                &&& out[0].start_sample >= began - s.pad
                &&& out[0].start_sample >= s.prev_end
                &&& out[0].start_sample == began - s.pad || out[0].start_sample == s.prev_end
                    || out[0].start_sample == 0
                &&& out[0].start_sample == 0 ==> began <= s.pad && s.prev_end == 0
            }
            &&& (over || long) && at - began < s.min_speech ==> out.len() == 0 && t.prev_end
                == s.prev_end
            &&& !over && !long ==> out.len() == 0 && t.prev_end == s.prev_end
            &&& t.cleared() == s.cleared()
        }),
{
}

} // verus!

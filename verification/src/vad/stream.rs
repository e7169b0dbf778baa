//! The detector around the model: it cuts a sample stream into frames, prepares what the
//! model is given, takes back what it answers, and turns the answers into events.
//!
//! The model itself runs outside. For each frame of [`Vad::next_frame`] the caller runs it
//! on [`Vad::model_input`] and the state of [`Vad::state`], hands the outputs to
//! [`Vad::accept_output`], and concludes the frame with the probability that comes back, or
//! with 0.0 where the model failed.

use crate::sample::{Sample, ZERO};
use crate::text::{joined, owned, push_decimal};
use crate::vad::config::{ConfigIssue, VadConfig};
use crate::vad::segmenter::{Segment, Segmenter, SegmenterView};
use vstd::prelude::*;
use vstd::slice::slice_subrange;

verus! {

/// Elements of the model's state.
pub const STATE_LEN: usize = 256;

/// Where speech starts or ends, padding included.
#[derive(Debug, Clone, Copy, PartialEq, Eq, Structural)]
pub enum VadEvent {
    /// Speech starts at this sample.
    SpeechStart { at_sample: u64 },
    /// Speech ends before this sample.
    SpeechEnd { at_sample: u64 },
}

/// What can go wrong in the detector.
#[derive(Debug, Clone, PartialEq, Eq)]
pub enum VadError {
    /// The model could not be loaded.
    ModelLoad(String),
    /// The model could not be run.
    Inference(String),
    /// The settings are invalid.
    InvalidConfig(String),
}

impl VadError {
    /// The text that describes the error.
    pub open spec fn text(self) -> Seq<char> {
        match self {
            VadError::ModelLoad(m) => "model load error: "@ + m@,
            VadError::Inference(m) => "inference error: "@ + m@,
            VadError::InvalidConfig(m) => "invalid config: "@ + m@,
        }
    }

    /// The text that describes the error.
    pub fn message(&self) -> (text: String)
        ensures
            text@ == self.text(),
    {
        match self {
            VadError::ModelLoad(m) => joined("model load error: ", m.as_str()),
            VadError::Inference(m) => joined("inference error: ", m.as_str()),
            VadError::InvalidConfig(m) => joined("invalid config: ", m.as_str()),
        }
    }
}

/// What is wrong with the settings, in words; `shown` is the offending threshold as text.
pub open spec fn issue_text(issue: ConfigIssue, shown: Seq<char>) -> Seq<char> {
    match issue {
        ConfigIssue::SampleRate(rate) => "sample_rate must be 8000 or 16000, got "@
            + crate::text::decimal(rate as nat),
        ConfigIssue::Threshold(_) => "threshold must be within [0.0, 1.0], got "@ + shown,
        ConfigIssue::NegThreshold(_) => "neg_threshold must be within [0.0, 1.0], got "@ + shown,
    }
}

/// The error for settings that are wrong; `shown` is the offending threshold as text.
pub fn invalid_config(issue: ConfigIssue, shown: &str) -> (e: VadError)
    ensures
        e matches VadError::InvalidConfig(m) && m@ == issue_text(issue, shown@),
{
    let text: String = match issue {
        ConfigIssue::SampleRate(rate) => {
            let mut text: String = owned("sample_rate must be 8000 or 16000, got ");
            push_decimal(&mut text, rate as u64);
            text
        },
        ConfigIssue::Threshold(_) => joined("threshold must be within [0.0, 1.0], got ", shown),
        ConfigIssue::NegThreshold(_) => joined(
            "neg_threshold must be within [0.0, 1.0], got ",
            shown,
        ),
    };
    VadError::InvalidConfig(text)
}

/// The events of `segments`: a start and an end for each, in order.
pub open spec fn events_of(segments: Seq<Segment>) -> Seq<VadEvent>
    decreases segments.len(),
{
    if segments.len() == 0 {
        Seq::empty()
    } else {
        events_of(segments.drop_last()).push(
            VadEvent::SpeechStart { at_sample: segments.last().start_sample },
        ).push(VadEvent::SpeechEnd { at_sample: segments.last().end_sample })
    }
}

/// The events of `segments`: a start and an end for each, in order.
pub fn segment_events(segments: &[Segment]) -> (events: Vec<VadEvent>)
    ensures
        events@ == events_of(segments@),
{
    let mut events: Vec<VadEvent> = Vec::new();
    let mut i: usize = 0;
    while i < segments.len()
        invariant
            i <= segments.len(),
            events@ == events_of(segments@.take(i as int)),
        decreases segments.len() - i,
    {
        proof {
            assert(segments@.take(i + 1).drop_last() == segments@.take(i as int));
        }
        events.push(VadEvent::SpeechStart { at_sample: segments[i].start_sample });
        events.push(VadEvent::SpeechEnd { at_sample: segments[i].end_sample });
        i += 1;
    }
    proof {
        assert(segments@.take(segments@.len() as int) == segments@);
    }
    events
}

/// Starts and ends alternate, beginning with a start, and there are as many of each as there
/// are segments.
pub proof fn lemma_events_alternate(segments: Seq<Segment>)
    ensures
        events_of(segments).len() == 2 * segments.len(),
        forall|i: int|
            0 <= i < segments.len() ==> {
                &&& #[trigger] events_of(segments)[2 * i] == (VadEvent::SpeechStart {
                    at_sample: segments[i].start_sample,
                })
                &&& events_of(segments)[2 * i + 1] == (VadEvent::SpeechEnd {
                    at_sample: segments[i].end_sample,
                })
            },
    decreases segments.len(),
{
    if segments.len() > 0 {
        lemma_events_alternate(segments.drop_last());
        let before = events_of(segments.drop_last());
        assert forall|i: int| 0 <= i < segments.len() implies {
            &&& #[trigger] events_of(segments)[2 * i] == (VadEvent::SpeechStart {
                at_sample: segments[i].start_sample,
            })
            &&& events_of(segments)[2 * i + 1] == (VadEvent::SpeechEnd {
                at_sample: segments[i].end_sample,
            })
        } by {
            if i < segments.len() - 1 {
                assert(before[2 * i] == events_of(segments)[2 * i]);
                assert(segments.drop_last()[i] == segments[i]);
            }
        }
    }
}

/// The detector as a mathematical value.
pub ghost struct VadView {
    pub config: VadConfig,
    pub segmenter: SegmenterView,
    /// The model's state.
    pub state: Seq<Sample>,
    /// The end of the frame before.
    pub context: Seq<Sample>,
    /// Samples that do not fill a frame yet.
    pub pending: Seq<Sample>,
    /// Probabilities since the last call with new samples.
    pub last_probs: Seq<Sample>,
}

impl VadView {
    /// What holds of every detector.
    pub open spec fn wf(self) -> bool {
        &&& self.segmenter.wf()
        &&& self.segmenter.cleared() == self.config.segmenter()
        &&& self.state.len() == STATE_LEN
        &&& self.context.len() == self.config.spec_context_size()
    }

    /// A detector that has seen nothing.
    pub open spec fn fresh(config: VadConfig) -> VadView {
        VadView {
            config,
            segmenter: config.segmenter(),
            state: Seq::new(STATE_LEN as nat, |i: int| ZERO),
            context: Seq::new(config.spec_context_size() as nat, |i: int| ZERO),
            pending: Seq::empty(),
            last_probs: Seq::empty(),
        }
    }

    /// New samples arrive: the probabilities start anew.
    pub open spec fn given(self, samples: Seq<Sample>) -> VadView {
        VadView { pending: self.pending + samples, last_probs: Seq::empty(), ..self }
    }

    /// The next whole frame.
    pub open spec fn frame(self) -> Option<Seq<Sample>> {
        if self.pending.len() >= self.config.spec_frame_size() {
            Some(self.pending.take(self.config.spec_frame_size()))
        } else {
            None
        }
    }

    /// The next frame is done with this probability.
    pub open spec fn concluded(self, prob: Sample) -> (VadView, Seq<Segment>) {
        let (segmenter, out) = self.segmenter.fed(prob);
        (
            VadView {
                segmenter,
                pending: self.pending.skip(self.config.spec_frame_size()),
                last_probs: self.last_probs.push(prob),
                ..self
            },
            out,
        )
    }
}

/// What a model answers: from its input and its state to a probability and its next state, or
/// nothing where it fails.
pub type Model = spec_fn(Seq<Sample>, Seq<Sample>) -> Option<(Sample, Seq<Sample>)>;

impl VadView {
    /// The model judges a frame: its next state and the end of its input are kept. Where it
    /// fails, or its state has the wrong length, nothing changes and there is no probability.
    pub open spec fn judged(self, frame: Seq<Sample>, model: Model) -> (VadView, Option<Sample>) {
        match model(self.context + frame, self.state) {
            Some((prob, state)) => if state.len() == STATE_LEN {
                (
                    VadView {
                        state,
                        context: (self.context + frame).skip(frame.len() as int),
                        ..self
                    },
                    Some(prob),
                )
            } else {
                (self, None)
            },
            None => (self, None),
        }
    }

    /// The next whole frame is judged and concluded. One that cannot be judged counts as
    /// silence.
    pub open spec fn advanced(self, model: Model) -> (VadView, Seq<Segment>) {
        let (v, prob) = self.judged(self.frame()->0, model);
        match prob {
            Some(p) => v.concluded(p),
            None => v.concluded(ZERO),
        }
    }

    /// Every whole frame that waits is judged and concluded, with the segments that this
    /// completes.
    pub open spec fn caught_up(self, model: Model) -> (VadView, Seq<Segment>)
        decreases self.pending.len(),
    {
        if self.frame() is None {
            (self, Seq::empty())
        } else {
            let (v, out) = self.advanced(model);
            let (w, more) = v.caught_up(model);
            (w, out + more)
        }
    }

    /// One call with new samples: they are taken in, and every whole frame is concluded.
    pub open spec fn processed(self, samples: Seq<Sample>, model: Model) -> (
        VadView,
        Seq<Segment>,
    ) {
        self.given(samples).caught_up(model)
    }
}

/// Streaming voice activity detection around a model that runs outside.
pub struct Vad {
    config: VadConfig,
    segmenter: Segmenter,
    state: Vec<Sample>,
    context: Vec<Sample>,
    pending: Vec<Sample>,
    last_probs: Vec<Sample>,
}

impl View for Vad {
    type V = VadView;

    closed spec fn view(&self) -> VadView {
        VadView {
            config: self.config,
            segmenter: self.segmenter@,
            state: self.state@,
            context: self.context@,
            pending: self.pending@,
            last_probs: self.last_probs@,
        }
    }
}

fn silence(n: usize) -> (v: Vec<Sample>)
    ensures
        v@ == Seq::new(n as nat, |i: int| ZERO),
{
    let mut v: Vec<Sample> = Vec::new();
    let mut i: usize = 0;
    while i < n
        invariant
            i <= n,
            v@ == Seq::new(i as nat, |k: int| ZERO),
        decreases n - i,
    {
        v.push(ZERO);
        i += 1;
    }
    v
}

impl Vad {
    /// A detector with these settings, if they are valid.
    pub fn new(config: VadConfig) -> (r: Result<Vad, ConfigIssue>)
        ensures
            match r {
                Ok(vad) => config.issue() is None && vad@ == VadView::fresh(config) && vad@.wf(),
                Err(issue) => config.issue() == Some(issue),
            },
    {
        match config.validate() {
            Err(issue) => Err(issue),
            Ok(_) => {
                let segmenter: Segmenter = Segmenter::new(&config);
                let context: Vec<Sample> = silence(config.context_size());
                Ok(
                    Vad {
                        config,
                        segmenter,
                        state: silence(STATE_LEN),
                        context,
                        pending: Vec::new(),
                        last_probs: Vec::new(),
                    },
                )
            },
        }
    }

    /// Takes new samples of any number. What does not fill a frame waits for the next call.
    pub fn give(&mut self, samples: &[Sample])
        requires
            old(self)@.wf(),
        ensures
            final(self)@ == old(self)@.given(samples@),
            final(self)@.wf(),
    {
        self.last_probs.clear();
        self.pending.extend_from_slice(samples);
        assert(self.pending@ =~= old(self).pending@ + samples@);
    }

    /// The next whole frame that waits, if any.
    pub fn next_frame(&self) -> (frame: Option<Vec<Sample>>)
        ensures
            frame matches Some(f) ==> self@.frame() == Some(f@),
            frame is None ==> self@.frame() is None,
    {
        let n: usize = self.config.frame_size();
        if self.pending.len() < n {
            return None;
        }
        let mut frame: Vec<Sample> = Vec::new();
        let mut i: usize = 0;
        while i < n
            invariant
                i <= n <= self.pending.len(),
                frame@ == self.pending@.take(i as int),
            decreases n - i,
        {
            frame.push(self.pending[i]);
            i += 1;
        }
        Some(frame)
    }

    /// What the model is given for `frame`: the end of the frame before, then the frame.
    pub fn model_input(&self, frame: &[Sample]) -> (input: Vec<Sample>)
        ensures
            input@ == self@.context + frame@,
    {
        let mut input: Vec<Sample> = Vec::new();
        input.extend_from_slice(self.context.as_slice());
        input.extend_from_slice(frame);
        assert(input@ =~= self.context@ + frame@);
        input
    }

    /// The model's state for the next frame.
    pub fn state(&self) -> (state: &[Sample])
        ensures
            state@ == self@.state,
    {
        self.state.as_slice()
    }

    /// Takes the model's answer for `frame`: its probability, if the output held one, and its
    /// new state. A missing probability and a state of the wrong length are errors that
    /// change nothing; else the state is kept and the end of the model's input becomes the
    /// next context.
    pub fn accept_output(
        &mut self,
        frame: &[Sample],
        prob: Option<Sample>,
        state: Vec<Sample>,
    ) -> (r: Result<Sample, VadError>)
        requires
            old(self)@.wf(),
            frame@.len() == old(self)@.config.spec_frame_size(),
        ensures
            final(self)@.wf(),
            prob is None ==> (r matches Err(e) && e matches VadError::Inference(m) && m@
                == "empty output tensor"@),
            (prob is Some && state@.len() != STATE_LEN) ==> (r matches Err(e)
                && e matches VadError::Inference(m) && m@ == "unexpected state length "@
                + crate::text::decimal(state@.len()) + " (expected 256)"@),
            (prob is Some && state@.len() == STATE_LEN) ==> r == Ok::<Sample, VadError>(prob->0),
            r is Err ==> final(self)@ == old(self)@,
            r is Ok ==> final(self)@ == (VadView {
                state: state@,
                context: (old(self)@.context + frame@).skip(frame@.len() as int),
                ..old(self)@
            }),
    {
        let p: Sample = match prob {
            None => {
                return Err(VadError::Inference(owned("empty output tensor")));
            },
            Some(p) => p,
        };
        if state.len() != STATE_LEN {
            let mut text: String = owned("unexpected state length ");
            push_decimal(&mut text, state.len() as u64);
            text.append(" (expected 256)");
            return Err(VadError::Inference(text));
        }
        let mut input: Vec<Sample> = self.model_input(frame);
        let n: usize = self.config.context_size();
        let context: Vec<Sample> = input.split_off(input.len() - n);
        assert(context@ =~= (self.context@ + frame@).skip(frame@.len() as int));
        self.state = state;
        self.context = context;
        Ok(p)
    }

    /// Concludes the frame of [`Vad::next_frame`] with its probability and appends the
    /// segment that it completes, if any.
    pub fn conclude(&mut self, prob: Sample, out: &mut Vec<Segment>)
        requires
            old(self)@.wf(),
            old(self)@.frame() is Some,
            old(self)@.segmenter.room_for(1),
        ensures
            final(self)@ == old(self)@.concluded(prob).0,
            final(out)@ == old(out)@ + old(self)@.concluded(prob).1,
            final(self)@.wf(),
    {
        proof {
            crate::vad::segmenter::lemma_feed_keeps_invariant(self.segmenter@, prob);
        }
        let n: usize = self.config.frame_size();
        let rest: Vec<Sample> = self.pending.split_off(n);
        assert(rest@ =~= old(self).pending@.skip(n as int));
        self.pending = rest;
        self.last_probs.push(prob);
        self.segmenter.feed(prob, out);
    }

    /// The probabilities of the frames concluded since the last new samples.
    pub fn last_frame_probabilities(&self) -> (probs: &[Sample])
        ensures
            probs@ == self@.last_probs,
    {
        self.last_probs.as_slice()
    }

    /// Forgets everything but the settings.
    pub fn reset(&mut self)
        requires
            old(self)@.wf(),
        ensures
            final(self)@ == VadView::fresh(old(self)@.config),
            final(self)@.wf(),
    {
        self.state = silence(STATE_LEN);
        self.context = silence(self.config.context_size());
        self.pending.clear();
        self.last_probs.clear();
        self.segmenter.reset();
    }

    /// The settings.
    pub fn config(&self) -> (config: &VadConfig)
        ensures
            *config == self@.config,
    {
        &self.config
    }
}

/// The whole frames of an input, `n` samples each. What does not fill one is left out.
pub open spec fn frames_of(samples: Seq<Sample>, n: int) -> Seq<Seq<Sample>> {
    Seq::new((samples.len() as int / n) as nat, |i: int| samples.subrange(i * n, i * n + n))
}

/// The whole frames of an input. What does not fill one is left out.
pub fn whole_frames(samples: &[Sample], config: &VadConfig) -> (frames: Vec<Vec<Sample>>)
    ensures
        frames@.len() == samples@.len() / config.spec_frame_size() as nat,
        forall|i: int|
            0 <= i < frames@.len() ==> (#[trigger] frames@[i])@ == samples@.subrange(
                i * config.spec_frame_size(),
                i * config.spec_frame_size() + config.spec_frame_size(),
            ),
        frames@.map_values(|f: Vec<Sample>| f@) == frames_of(samples@, config.spec_frame_size()),
{
    let n: usize = config.frame_size();
    let ghost size = config.spec_frame_size();
    let mut frames: Vec<Vec<Sample>> = Vec::new();
    let mut at: usize = 0;
    while samples.len() - at >= n
        invariant
            n == size,
            size == 256 || size == 512,
            at == frames@.len() * size,
            at <= samples@.len(),
            forall|i: int|
                0 <= i < frames@.len() ==> (#[trigger] frames@[i])@ == samples@.subrange(
                    i * size,
                    i * size + size,
                ),
        decreases samples.len() - at,
    {
        let ghost k = frames@.len() as int;
        let mut frame: Vec<Sample> = Vec::new();
        frame.extend_from_slice(slice_subrange(samples, at, at + n));
        frames.push(frame);
        at += n;
        assert(k * size + size == (k + 1) * size) by (nonlinear_arith);
    }
    proof {
        let k = frames@.len() as int;
        let len = samples@.len() as int;
        assert(k == len / size) by (nonlinear_arith)
            requires
                k * size <= len < k * size + size,
                size == 256 || size == 512,
        ;
        assert(frames@.map_values(|f: Vec<Sample>| f@) =~= frames_of(samples@, size));
    }
    frames
}

/// The model's probabilities for frames, one after the other; nothing where one of them cannot
/// be judged.
pub open spec fn judgements(v: VadView, frames: Seq<Seq<Sample>>, model: Model) -> Option<
    Seq<Sample>,
>
    decreases frames.len(),
{
    if frames.len() == 0 {
        Some(Seq::empty())
    } else {
        let (after, prob) = v.judged(frames[0], model);
        match (prob, judgements(after, frames.skip(1), model)) {
            (Some(p), Some(rest)) => Some(seq![p] + rest),
            _ => None,
        }
    }
}

/// The speech in a whole input; nothing where one of its frames cannot be judged.
pub open spec fn speech_in_samples(
    config: VadConfig,
    samples: Seq<Sample>,
    model: Model,
) -> Option<Seq<Segment>> {
    match judgements(
        VadView::fresh(config),
        frames_of(samples, config.spec_frame_size()),
        model,
    ) {
        Some(probs) => Some(speech_in(config, probs)),
        None => None,
    }
}

/// The end of a whole input that does not fill a frame is ignored, and there is no speech in
/// less than a frame.
pub proof fn lemma_partial_frame_is_ignored(
    config: VadConfig,
    samples: Seq<Sample>,
    model: Model,
)
    ensures
        ({
            let n = config.spec_frame_size();
            let len = samples.len() as int;
            &&& frames_of(samples.take(len - len % n), n) == frames_of(samples, n)
            &&& speech_in_samples(config, samples.take(len - len % n), model)
                == speech_in_samples(config, samples, model)
            &&& len < n ==> speech_in_samples(config, samples, model) == Some(
                Seq::<Segment>::empty(),
            )
        }),
{
    let n = config.spec_frame_size();
    let len = samples.len() as int;
    let cut = samples.take(len - len % n);
    assert((len - len % n) / n == len / n && len - len % n == n * (len / n)) by (nonlinear_arith)
        requires
            n == 256 || n == 512,
            len >= 0,
    ;
    assert forall|i: int| 0 <= i < len / n implies #[trigger] frames_of(cut, n)[i] == frames_of(
        samples,
        n,
    )[i] by {
        assert(0 <= i * n && i * n + n <= n * (len / n)) by (nonlinear_arith)
            requires
                0 <= i < len / n,
                n == 256 || n == 512,
        ;
        assert(cut.subrange(i * n, i * n + n) =~= samples.subrange(i * n, i * n + n));
    }
    assert(frames_of(cut, n) =~= frames_of(samples, n));
    if len < n {
        assert(frames_of(samples, n) =~= Seq::empty());
        assert(speech_in(config, Seq::empty()) =~= Seq::empty());
    }
}

/// The speech in an input whose frames have these probabilities, with what is going on at its
/// end.
pub open spec fn speech_in(config: VadConfig, probs: Seq<Sample>) -> Seq<Segment> {
    let (after, out) = config.segmenter().run(probs);
    out + after.flushed().1
}

/// The speech in a whole input, given the model's probability for each of its frames.
pub fn get_speech_timestamps(config: &VadConfig, probs: &[Sample]) -> (r: Result<
    Vec<Segment>,
    ConfigIssue,
>)
    requires
        config.segmenter().room_for(probs@.len() as int),
    ensures
        match r {
            Ok(out) => config.issue() is None && out@ == speech_in(*config, probs@),
            Err(issue) => config.issue() == Some(issue),
        },
{
    if let Err(issue) = config.validate() {
        return Err(issue);
    }
    let mut segmenter: Segmenter = Segmenter::new(config);
    let ghost fresh = segmenter@;
    let mut out: Vec<Segment> = Vec::new();
    let mut i: usize = 0;
    assert(probs@.take(0) =~= seq![]);
    while i < probs.len()
        invariant
            i <= probs@.len(),
            fresh == config.segmenter(),
            fresh.wf(),
            fresh.room_for(probs@.len() as int),
            segmenter@ == fresh.run(probs@.take(i as int)).0,
            out@ == fresh.run(probs@.take(i as int)).1,
        decreases probs@.len() - i,
    {
        proof {
            lemma_room_is_left(fresh, probs@, i as int);
            assert(probs@.take(i + 1).drop_last() =~= probs@.take(i as int));
        }
        segmenter.feed(probs[i], &mut out);
        i += 1;
    }
    proof {
        lemma_room_is_left(fresh, probs@, i as int);
        assert(probs@.take(i as int) =~= probs@);
    }
    segmenter.flush(&mut out);
    Ok(out)
}

proof fn lemma_room_is_left(fresh: SegmenterView, probs: Seq<Sample>, i: int)
    requires
        fresh.wf(),
        fresh.prev_end == 0,
        fresh.room_for(probs.len() as int),
        0 <= i <= probs.len(),
    ensures
        fresh.run(probs.take(i)).0.wf(),
        fresh.run(probs.take(i)).0.room_for(0),
        i < probs.len() ==> fresh.run(probs.take(i)).0.room_for(1),
{
    let frame = fresh.frame;
    let n = probs.len() as int;
    assert(frame * i <= frame * n && (i < n ==> frame * i + frame <= frame * n))
        by (nonlinear_arith)
        requires
            frame > 0,
            0 <= i <= n,
    ;
    crate::vad::segmenter::lemma_run_is_in_order(fresh, probs.take(i));
    assert(fresh.run(probs.take(i)).0.cleared() == fresh.cleared());
    assert(fresh.run(probs.take(i)).0.cleared().frame == frame);
    assert(fresh.run(probs.take(i)).0.cleared().pad == fresh.pad);
}

/// The segments that a detector reports while frames with these probabilities are concluded.
pub open spec fn reported_by(v: VadView, probs: Seq<Sample>) -> Seq<Segment>
    decreases probs.len(),
{
    if probs.len() == 0 {
        Seq::empty()
    } else {
        reported_by(v, probs.drop_last()) + concluded_so_far(v, probs.drop_last()).concluded(
            probs.last(),
        ).1
    }
}

/// The detector after frames with these probabilities, the last of them concluded last.
pub open spec fn concluded_so_far(v: VadView, probs: Seq<Sample>) -> VadView
    decreases probs.len(),
{
    if probs.len() == 0 {
        v
    } else {
        concluded_so_far(v, probs.drop_last()).concluded(probs.last()).0
    }
}

/// A stream and a whole input agree: a fresh detector that concludes the same probabilities
/// one by one and is flushed at the end reports the same segments.
pub proof fn lemma_stream_agrees_with_whole_input(config: VadConfig, probs: Seq<Sample>)
    ensures
        reported_by(VadView::fresh(config), probs) + concluded_so_far(
            VadView::fresh(config),
            probs,
        ).segmenter.flushed().1 == speech_in(config, probs),
{
    lemma_stream_runs_the_segmenter(config, probs);
}

proof fn lemma_stream_runs_the_segmenter(config: VadConfig, probs: Seq<Sample>)
    ensures
        concluded_so_far(VadView::fresh(config), probs).segmenter == config.segmenter().run(
            probs,
        ).0,
        reported_by(VadView::fresh(config), probs) == config.segmenter().run(probs).1,
    decreases probs.len(),
{
    if probs.len() > 0 {
        lemma_stream_runs_the_segmenter(config, probs.drop_last());
    }
}

/// It does not matter how the samples are divided over calls: giving two pieces in turn
/// leaves the same samples waiting as giving them at once.
pub proof fn lemma_pieces_add_up(v: VadView, a: Seq<Sample>, b: Seq<Sample>)
    ensures
        v.given(a).given(b) == v.given(a + b),
{
    assert((v.pending + a) + b == v.pending + (a + b));
}

/// Concluding a frame before or after more samples arrive comes to the same samples waiting,
/// the same segmenter and the same segments: positions go on across calls.
pub proof fn lemma_frames_do_not_depend_on_calls(v: VadView, prob: Sample, more: Seq<Sample>)
    requires
        v.wf(),
        v.frame() is Some,
    ensures
        v.given(more).frame() == v.frame(),
        v.given(more).concluded(prob).1 == v.concluded(prob).1,
        v.given(more).concluded(prob).0.pending == v.concluded(prob).0.given(more).pending,
        v.given(more).concluded(prob).0.segmenter == v.concluded(prob).0.given(more).segmenter,
{
    let n = v.config.spec_frame_size();
    assert((v.pending + more).take(n) == v.pending.take(n));
    assert((v.pending + more).skip(n) == v.pending.skip(n) + more);
}

/// After the frames that wait are concluded one by one, less than a frame is left and one
/// probability was recorded for each whole frame.
pub proof fn lemma_whole_frames_are_used_up(v: VadView, probs: Seq<Sample>)
    requires
        v.wf(),
        probs.len() == v.pending.len() / v.config.spec_frame_size() as nat,
    ensures
        concluded_so_far(v, probs).pending.len() < v.config.spec_frame_size(),
        concluded_so_far(v, probs).last_probs == v.last_probs + probs,
{
    let n = v.config.spec_frame_size();
    let k = probs.len() as int;
    let waiting = v.pending.len() as int;
    assert(n * k <= waiting < n * k + n) by (nonlinear_arith)
        requires
            k == waiting / n,
            n == 256 || n == 512,
    ;
    lemma_each_frame_is_used_once(v, probs);
}

proof fn lemma_each_frame_is_used_once(v: VadView, probs: Seq<Sample>)
    requires
        v.config.spec_frame_size() * probs.len() <= v.pending.len(),
    ensures
        concluded_so_far(v, probs).config == v.config,
        concluded_so_far(v, probs).pending.len() == v.pending.len() - v.config.spec_frame_size()
            * probs.len(),
        concluded_so_far(v, probs).last_probs == v.last_probs + probs,
    decreases probs.len(),
{
    if probs.len() > 0 {
        let n = v.config.spec_frame_size();
        let k = probs.len() as int;
        assert(n * k == n * (k - 1) + n) by (nonlinear_arith);
        lemma_each_frame_is_used_once(v, probs.drop_last());
        assert((v.last_probs + probs.drop_last()).push(probs.last()) =~= v.last_probs + probs);
    } else {
        assert(v.last_probs + probs =~= v.last_probs);
    }
}

/// How the samples are divided over calls does not change what is reported: two calls report
/// the events of one call with both inputs, leave the same detector behind, and judge as many
/// frames in all. Of a fresh detector that is one for each whole frame.
pub proof fn lemma_two_calls_are_one(
    v: VadView,
    a: Seq<Sample>,
    b: Seq<Sample>,
    model: Model,
)
    requires
        v.wf(),
    ensures
        ({
            let (first, heard) = v.processed(a, model);
            let (second, heard_then) = first.processed(b, model);
            let (once, heard_at_once) = v.processed(a + b, model);
            &&& events_of(heard) + events_of(heard_then) == events_of(heard_at_once)
            &&& once == (VadView { last_probs: first.last_probs + second.last_probs, ..second })
            &&& first.last_probs.len() + second.last_probs.len() == (v.pending.len() + a.len()
                + b.len()) / v.config.spec_frame_size() as nat
        }),
{
    let start = v.given(a);
    let (first, heard) = start.caught_up(model);
    let (second, heard_then) = first.processed(b, model);
    let (once, heard_at_once) = v.processed(a + b, model);
    lemma_samples_can_wait(start, b, model);
    assert(start.pending + b =~= v.given(a + b).pending);
    assert(v.given(a + b) == start.with_more(b));
    lemma_old_probabilities_stay(first.with_more(b), model);
    assert(first.given(b) == (VadView { last_probs: Seq::empty(), ..first.with_more(b) }));
    assert(heard_at_once == heard + heard_then);
    lemma_events_join(heard, heard_then);
    lemma_one_probability_each(v.given(a + b), model);
    assert(once.last_probs.len() == first.last_probs.len() + second.last_probs.len());
}

impl VadView {
    /// More samples wait.
    spec fn with_more(self, samples: Seq<Sample>) -> VadView {
        VadView { pending: self.pending + samples, ..self }
    }
}

/// Samples that come after the whole frames are concluded might as well have waited before.
proof fn lemma_samples_can_wait(v: VadView, more: Seq<Sample>, model: Model)
    ensures
        ({
            let (first, heard) = v.caught_up(model);
            let (second, heard_then) = first.with_more(more).caught_up(model);
            v.with_more(more).caught_up(model) == (second, heard + heard_then)
        }),
    decreases v.pending.len(),
{
    let n = v.config.spec_frame_size();
    if v.frame() is None {
        let (second, heard_then) = v.with_more(more).caught_up(model);
        assert(Seq::<Segment>::empty() + heard_then =~= heard_then);
    } else {
        let (w, out) = v.advanced(model);
        assert((v.pending + more).take(n) =~= v.pending.take(n));
        assert((v.pending + more).skip(n) =~= v.pending.skip(n) + more);
        assert(v.with_more(more).frame() == v.frame());
        assert(v.with_more(more).advanced(model) == (w.with_more(more), out));
        lemma_samples_can_wait(w, more, model);
        let (first, heard) = w.caught_up(model);
        let (second, heard_then) = first.with_more(more).caught_up(model);
        assert(out + (heard + heard_then) =~= (out + heard) + heard_then);
    }
}

/// Probabilities that are there already stay in front and change nothing else.
proof fn lemma_old_probabilities_stay(v: VadView, model: Model)
    ensures
        ({
            let (w, out) = (VadView { last_probs: Seq::empty(), ..v }).caught_up(model);
            v.caught_up(model) == (VadView { last_probs: v.last_probs + w.last_probs, ..w }, out)
        }),
    decreases v.pending.len(),
{
    let bare = VadView { last_probs: Seq::empty(), ..v };
    if v.frame() is None {
        assert(v.last_probs + Seq::<Sample>::empty() =~= v.last_probs);
    } else {
        let (next, out) = v.advanced(model);
        let (bare_next, bare_out) = bare.advanced(model);
        let p = next.last_probs.last();
        assert(bare_next.last_probs =~= seq![p]);
        assert(next.last_probs =~= v.last_probs + seq![p]);
        assert(out == bare_out);
        lemma_old_probabilities_stay(next, model);
        lemma_old_probabilities_stay(bare_next, model);
        let clear = VadView { last_probs: Seq::empty(), ..next };
        assert(clear == (VadView { last_probs: Seq::empty(), ..bare_next }));
        let (w, more) = clear.caught_up(model);
        assert(next.last_probs + w.last_probs =~= v.last_probs + (bare_next.last_probs
            + w.last_probs));
    }
}

/// One probability is recorded for each whole frame.
proof fn lemma_one_probability_each(v: VadView, model: Model)
    ensures
        v.caught_up(model).0.last_probs.len() == v.last_probs.len() + v.pending.len()
            / v.config.spec_frame_size() as nat,
    decreases v.pending.len(),
{
    let n = v.config.spec_frame_size();
    let len = v.pending.len() as int;
    if v.frame() is Some {
        lemma_one_probability_each(v.advanced(model).0, model);
        assert(len / n == (len - n) / n + 1) by (nonlinear_arith)
            requires
                n == 256 || n == 512,
        ;
    } else {
        assert(len / n == 0) by (nonlinear_arith)
            requires
                0 <= len < n,
        ;
    }
}

/// The events of segments in a row are the events of the first and of the others.
proof fn lemma_events_join(a: Seq<Segment>, b: Seq<Segment>)
    ensures
        events_of(a + b) == events_of(a) + events_of(b),
    decreases b.len(),
{
    if b.len() == 0 {
        assert(a + b =~= a);
        assert(events_of(a) + events_of(b) =~= events_of(a));
    } else {
        lemma_events_join(a, b.drop_last());
        assert((a + b).drop_last() =~= a + b.drop_last());
        assert((a + b).last() == b.last());
        assert(events_of(a + b) =~= events_of(a) + events_of(b));
    }
}

/// A detector that has seen nothing holds nothing but zeros: 256 of state, and a context of 32
/// samples at 8 kHz and of 64 otherwise.
pub proof fn lemma_a_detector_starts_with_zeros(config: VadConfig, i: int)
    ensures
        ({
            let v = VadView::fresh(config);
            &&& v.config == config
            &&& v.state.len() == 256
            &&& 0 <= i < 256 ==> v.state[i] == 0
            &&& config.sample_rate == 8_000 ==> v.context.len() == 32
            &&& config.sample_rate != 8_000 ==> v.context.len() == 64
            &&& 0 <= i < v.context.len() ==> v.context[i] == 0
            &&& v.pending.len() == 0 && v.last_probs.len() == 0
            &&& v.segmenter.pos == 0 && !v.segmenter.triggered
        }),
{
}

/// New samples wait behind those that wait already, and frames of 256 samples at 8 kHz and of 512
/// otherwise are taken from the front, in order and without a gap.
pub proof fn lemma_frames_come_from_the_front(v: VadView, samples: Seq<Sample>, prob: Sample)
    ensures
        ({
            let n = if v.config.sample_rate == 8_000 {
                256int
            } else {
                512int
            };
            &&& v.given(samples).pending == v.pending + samples
            &&& v.given(samples).last_probs.len() == 0
            &&& v.given(samples).state == v.state && v.given(samples).context == v.context
            &&& v.frame() is Some <==> v.pending.len() >= n
            &&& v.pending.len() >= n ==> v.frame() == Some(v.pending.take(n)) && v.concluded(
                prob,
            ).0.pending == v.pending.skip(n)
            &&& v.concluded(prob).0.last_probs == v.last_probs.push(prob)
            &&& v.concluded(prob).0.state == v.state && v.concluded(prob).0.context == v.context
            &&& v.concluded(prob).1 == v.segmenter.fed(prob).1
            &&& v.concluded(prob).0.segmenter == v.segmenter.fed(prob).0
        }),
{
}

/// The model is shown the context and the frame behind it; the end of that is the next context.
/// An answer with a state of the right length counts, and any other changes nothing.
pub proof fn lemma_the_model_sees_the_context(
    v: VadView,
    frame: Seq<Sample>,
    model: Model,
    prob: Sample,
    state: Seq<Sample>,
)
    requires
        frame.len() >= v.context.len(),
    ensures
        model(v.context + frame, v.state) == Some((prob, state)) && state.len() == 256 ==> {
            let (w, p) = v.judged(frame, model);
            &&& p == Some(prob)
            &&& w.state == state
            &&& w.context == frame.skip(frame.len() - v.context.len())
            &&& w.pending == v.pending && w.segmenter == v.segmenter && w.last_probs
                == v.last_probs
        },
        model(v.context + frame, v.state) == Some((prob, state)) && state.len() != 256 ==> v.judged(
            frame,
            model,
        ) == (v, None::<Sample>),
        model(v.context + frame, v.state) is None ==> v.judged(frame, model) == (
            v,
            None::<Sample>,
        ),
{
    assert((v.context + frame).skip(frame.len() as int) =~= frame.skip(
        frame.len() - v.context.len(),
    ));
}

/// A frame that cannot be judged counts as silence of probability 0.
pub proof fn lemma_frames_without_judgement_are_silent(v: VadView, model: Model)
    requires
        v.frame() is Some,
    ensures
        ({
            let (w, p) = v.judged(v.frame()->0, model);
            &&& p is None ==> v.advanced(model) == v.concluded(0)
            &&& p matches Some(prob) ==> v.advanced(model) == w.concluded(prob)
        }),
{
}

/// The speech in a whole input is what its frames complete, and then what its end completes.
pub proof fn lemma_speech_is_found_in_order(config: VadConfig, probs: Seq<Sample>, prob: Sample)
    ensures
        ({
            let (s, out) = config.segmenter().run(probs);
            &&& speech_in(config, probs) == out + s.flushed().1
            &&& config.segmenter().run(probs.push(prob)).0 == s.fed(prob).0
            &&& config.segmenter().run(probs.push(prob)).1 == out + s.fed(prob).1
        }),
        speech_in(config, seq![]) == Seq::<Segment>::empty(),
{
    crate::vad::segmenter::lemma_frames_are_fed_in_order(config.segmenter(), probs, prob);
    assert(speech_in(config, seq![]) =~= Seq::<Segment>::empty());
}

/// Every error says what it is, and every wrong setting which one it is.
pub proof fn lemma_errors_say_what_is_wrong(m: String, rate: u32, t: Sample, shown: Seq<char>)
    ensures
        VadError::ModelLoad(m).text() == "model load error: "@ + m@,
        VadError::Inference(m).text() == "inference error: "@ + m@,
        VadError::InvalidConfig(m).text() == "invalid config: "@ + m@,
        issue_text(ConfigIssue::SampleRate(rate), shown)
            == "sample_rate must be 8000 or 16000, got "@ + crate::text::decimal(rate as nat),
        issue_text(ConfigIssue::Threshold(t), shown)
            == "threshold must be within [0.0, 1.0], got "@ + shown,
        issue_text(ConfigIssue::NegThreshold(t), shown)
            == "neg_threshold must be within [0.0, 1.0], got "@ + shown,
{
}

/// The frames of an input lie one behind the other, each as long as the others, and only what
/// does not fill one is left out.
pub proof fn lemma_frames_lie_one_behind_the_other(samples: Seq<Sample>, n: int, i: int, k: int)
    requires
        n > 0,
        0 <= i < frames_of(samples, n).len(),
        0 <= k < n,
    ensures
        frames_of(samples, n)[i].len() == n,
        frames_of(samples, n)[i][k] == samples[i * n + k],
        n * frames_of(samples, n).len() <= samples.len() < n * frames_of(samples, n).len() + n,
{
    let len = samples.len() as int;
    let q = len / n;
    assert(0 <= n * q <= len < n * q + n && 0 <= i * n && i * n + n <= n * q) by (nonlinear_arith)
        requires
            q == len / n,
            len >= 0,
            n > 0,
            0 <= i < q,
    ;
}

/// An answer of the model counts where it has a probability and a state of 256 samples; the
/// state is kept, and the end of the frame is the next context. Any other answer is an error that
/// changes nothing.
pub proof fn lemma_answers_of_the_model(
    vad: &mut Vad,
    frame: &[Sample],
    prob: Option<Sample>,
    state: Vec<Sample>,
    r: Result<Sample, VadError>,
)
    requires
        old(vad)@.wf(),
        frame@.len() == old(vad)@.config.spec_frame_size(),
        call_ensures(Vad::accept_output, (vad, frame, prob, state), r),
    ensures
        r is Ok <==> prob is Some && state@.len() == 256,
        r is Ok ==> r->Ok_0 == prob->0 && final(vad)@.state == state@ && final(vad)@.context
            == frame@.skip(frame@.len() - old(vad)@.context.len()),
        r is Err ==> r->Err_0 is Inference && final(vad)@ == old(vad)@,
        final(vad)@.pending == old(vad)@.pending,
        final(vad)@.segmenter == old(vad)@.segmenter,
{
    assert((old(vad)@.context + frame@).skip(frame@.len() as int) =~= frame@.skip(
        frame@.len() - old(vad)@.context.len(),
    ));
}

} // verus!

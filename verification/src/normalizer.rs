//! From whatever a device delivers to chunks of the output format, in two stages.
//!
//! The first stage makes the internal normal form: stereo at 48000 Hz. The second stage takes
//! it in blocks of 960 frames to the channels and the rate of the output. A stage whose rate
//! is right already passes samples on as they are, and with the default output the whole
//! second stage does.
//!
//! Changing a rate is filtering, which happens outside: [`Normalizer::next_work`] hands out
//! one block at a time for it, and [`Normalizer::complete`] takes the filtered block back.
//! Everything around that is done here: mixing channels, cutting blocks and chunks, and
//! giving each chunk its time stamp.

use crate::arith::mean;
use crate::sample::Sample;
use crate::types::{OutputFormat, CHANNELS, SAMPLE_RATE};
use vstd::prelude::*;

verus! {

/// Frames of one block of the internal normal form: 20 ms.
pub const CHUNK_FRAMES: usize = 960;

/// Fewest frames that are handed out for filtering at once.
pub const MIN_BLOCK_FRAMES: usize = 64;

/// Which stage a block was handed out for.
#[derive(Debug, Clone, Copy, PartialEq, Eq, Structural)]
pub enum Stage {
    /// From the rate of the device to 48000 Hz, in stereo.
    Input,
    /// From 48000 Hz to the output rate, in the output channels.
    Output,
}

/// One block whose rate is to be changed: interleaved samples.
#[derive(Debug)]
pub struct Work {
    /// Which stage it is for.
    pub stage: Stage,
    /// The samples.
    pub block: Vec<Sample>,
}

/// Ties an output frame to the time of a device.
#[derive(Debug, Clone, Copy, PartialEq, Eq, Structural)]
pub struct PtsAnchor {
    /// Index of the output frame.
    pub out_frame: u64,
    /// Its time, in ns.
    pub pts_ns: i64,
}

/// Normalises one stream.
#[derive(Debug)]
pub struct Normalizer {
    in_sample_rate: u32,
    in_channels: usize,
    output: OutputFormat,
    out_channels: usize,
    out_chunk_frames: usize,
    stage1: Vec<Sample>,
    inner_buf: Vec<Sample>,
    stage2: Vec<Sample>,
    out_buf: Vec<Sample>,
    out_frame_origin: u64,
    pts_anchor: Option<PtsAnchor>,
    total_inner_frames: u64,
    pending: Option<Stage>,
}

/// What a [`Normalizer`] is at one moment.
#[verifier::ext_equal]
pub ghost struct NormalizerView {
    /// Rate of the device.
    pub in_rate: u32,
    /// Channels of the device, at least 1.
    pub in_channels: int,
    /// The output format.
    pub output: OutputFormat,
    /// Stereo samples at the device's rate that wait for the first stage.
    pub stage1: Seq<Sample>,
    /// The internal normal form.
    pub inner: Seq<Sample>,
    /// Samples at 48000 Hz in the output channels that wait for the second stage.
    pub stage2: Seq<Sample>,
    /// Finished samples that were not taken yet.
    pub out: Seq<Sample>,
    /// Index of the first of them among all output frames.
    pub origin: int,
    /// Which output frame has which time.
    pub anchor: Option<PtsAnchor>,
    /// Frames of the internal normal form made so far.
    pub total_inner: int,
    /// The stage for which a block is out.
    pub pending: Option<Stage>,
}

/// Interleaved samples in stereo: one channel is doubled, and of more than two the first two
/// are taken. What does not fill a frame is left out.
pub open spec fn stereo(samples: Seq<Sample>, channels: int) -> Seq<Sample> {
    Seq::new(
        (samples.len() / channels as nat * 2) as nat,
        |i: int|
            if channels == 1 {
                samples[i / 2]
            } else {
                samples[i / 2 * channels + i % 2]
            },
    )
}

/// Stereo samples in another number of channels: the mean for one, the left one repeated for
/// more than two.
pub open spec fn spread(inner: Seq<Sample>, channels: int) -> Seq<Sample> {
    Seq::new(
        (inner.len() / 2 * channels) as nat,
        |i: int|
            if channels == 1 {
                crate::arith::mean_of(inner[2 * i], inner[2 * i + 1]) as Sample
            } else if channels == 2 {
                inner[i]
            } else {
                inner[i / channels * 2]
            },
    )
}

impl NormalizerView {
    /// Whether the first stage passes samples on as they are.
    pub open spec fn passthrough(self) -> bool {
        self.in_rate == SAMPLE_RATE
    }

    /// Channels of the output, at least 1.
    pub open spec fn out_channels(self) -> int {
        if self.output.channels == 0 {
            1
        } else {
            self.output.channels as int
        }
    }

    /// Whether the whole second stage passes samples on as they are.
    pub open spec fn output_passthrough(self) -> bool {
        self.output.sample_rate == SAMPLE_RATE && self.out_channels() == CHANNELS
    }

    /// Frames of one output chunk, at least 1.
    pub open spec fn chunk_frames(self) -> int {
        if self.output.spec_chunk_frames() == 0 {
            1
        } else {
            self.output.spec_chunk_frames()
        }
    }

    /// Samples of one output chunk.
    pub open spec fn chunk_len(self) -> int {
        self.chunk_frames() * self.out_channels()
    }

    /// Samples of one block for the first stage: 20 ms in stereo, but no fewer than 64 frames.
    pub open spec fn input_block(self) -> int {
        if self.in_rate / 50 < MIN_BLOCK_FRAMES {
            MIN_BLOCK_FRAMES * 2
        } else {
            self.in_rate / 50 * 2
        }
    }

    /// Samples of one block for the second stage: 20 ms in the output channels.
    pub open spec fn output_block(self) -> int {
        CHUNK_FRAMES * self.out_channels()
    }

    /// What always holds.
    pub open spec fn valid(self) -> bool {
        &&& 0 < self.in_rate
        &&& 0 < self.output.sample_rate
        &&& 1 <= self.in_channels
        &&& 0 <= self.origin <= u64::MAX
        &&& 0 <= self.total_inner <= u64::MAX
        &&& self.stage1.len() % 2 == 0
        &&& self.inner.len() % 2 == 0
        &&& self.inner.len() < CHUNK_FRAMES * 2
        &&& self.stage2.len() % self.out_channels() as nat == 0
        &&& self.out.len() % self.out_channels() as nat == 0
        &&& self.passthrough() ==> self.stage1.len() == 0 && self.pending != Some(Stage::Input)
        &&& self.output.sample_rate == SAMPLE_RATE ==> self.stage2.len() == 0 && self.pending
            != Some(Stage::Output)
        &&& self.output_passthrough() ==> self.inner.len() == 0
        &&& self.anchor is None ==> {
            &&& self.stage1.len() == 0
            &&& self.inner.len() == 0
            &&& self.stage2.len() == 0
            &&& self.out.len() == 0
            &&& self.pending is None
        }
    }

    /// A new normalizer.
    pub open spec fn fresh(in_rate: u32, in_channels: u16, output: OutputFormat) -> Self {
        NormalizerView {
            in_rate,
            in_channels: if in_channels == 0 {
                1
            } else {
                in_channels as int
            },
            output,
            stage1: seq![],
            inner: seq![],
            stage2: seq![],
            out: seq![],
            origin: 0,
            anchor: None,
            total_inner: 0,
            pending: None,
        }
    }

    /// More of the internal normal form has come. What makes up whole blocks goes on at once;
    /// with nothing to do for the second stage, everything does.
    pub open spec fn with_inner(self, more: Seq<Sample>) -> Self {
        let inner = self.inner + more;
        let total_inner = self.total_inner + more.len() / 2;
        if self.output_passthrough() {
            NormalizerView { inner: seq![], out: self.out + inner, total_inner, ..self }
        } else {
            let whole = (inner.len() / (CHUNK_FRAMES * 2) as nat * (CHUNK_FRAMES * 2) as nat) as int;
            let done = spread(inner.take(whole), self.out_channels());
            if self.output.sample_rate == SAMPLE_RATE {
                NormalizerView {
                    inner: inner.skip(whole),
                    out: self.out + done,
                    total_inner,
                    ..self
                }
            } else {
                NormalizerView {
                    inner: inner.skip(whole),
                    stage2: self.stage2 + done,
                    total_inner,
                    ..self
                }
            }
        }
    }

    /// Samples have come from the device. Their first frame will be the output frame
    /// `out_frame`.
    pub open spec fn pushed(self, samples: Seq<Sample>, pts_ns: i64, out_frame: u64) -> Self {
        let mixed = stereo(samples, self.in_channels);
        let anchored = NormalizerView { anchor: Some(PtsAnchor { out_frame, pts_ns }), ..self };
        if samples.len() / self.in_channels as nat == 0 {
            self
        } else if self.passthrough() {
            anchored.with_inner(mixed)
        } else {
            NormalizerView { stage1: self.stage1 + mixed, ..anchored }
        }
    }

    /// The block that is to be filtered next.
    pub open spec fn next_block(self) -> Option<(Stage, Seq<Sample>)> {
        if self.pending is Some {
            None
        } else if self.stage1.len() >= self.input_block() && !self.passthrough() {
            Some((Stage::Input, self.stage1.take(self.input_block())))
        } else if self.stage2.len() >= self.output_block() && self.output.sample_rate
            != SAMPLE_RATE {
            Some((Stage::Output, self.stage2.take(self.output_block())))
        } else {
            None
        }
    }

    /// The next block has been handed out.
    pub open spec fn handed_out(self) -> Self {
        match self.next_block() {
            Some((Stage::Input, _)) => NormalizerView {
                stage1: self.stage1.skip(self.input_block()),
                pending: Some(Stage::Input),
                ..self
            },
            Some((Stage::Output, _)) => NormalizerView {
                stage2: self.stage2.skip(self.output_block()),
                pending: Some(Stage::Output),
                ..self
            },
            None => self,
        }
    }

    /// The block that was out has come back filtered.
    pub open spec fn completed(self, filtered: Seq<Sample>) -> Self {
        match self.pending {
            Some(Stage::Input) => NormalizerView { pending: None, ..self }.with_inner(filtered),
            Some(Stage::Output) => NormalizerView {
                pending: None,
                out: self.out + filtered,
                ..self
            },
            None => self,
        }
    }

    /// Whether a chunk is ready.
    pub open spec fn ready(self) -> bool {
        self.out.len() >= self.chunk_len()
    }

    /// Duration of one output frame in whole ns.
    pub open spec fn frame_ns(self) -> int {
        1_000_000_000int / self.output.sample_rate as int
    }

    /// Time of the next chunk, counted on from the anchor.
    pub open spec fn next_pts(self) -> int {
        let anchor = self.anchor->0;
        anchor.pts_ns + (self.origin - anchor.out_frame) * self.frame_ns()
    }

    /// Whether taking a chunk stays within 64-bit time stamps and frame counts.
    pub open spec fn pop_fits(self) -> bool {
        self.ready() && self.anchor is Some ==> {
            let anchor = self.anchor->0;
            let step = (self.origin - anchor.out_frame) * self.frame_ns();
            &&& self.origin + self.chunk_frames() <= i64::MAX
            &&& anchor.out_frame <= i64::MAX
            &&& i64::MIN <= step <= i64::MAX
            &&& i64::MIN <= self.next_pts() <= i64::MAX
        }
    }

    /// A chunk has been taken.
    pub open spec fn popped(self) -> Self {
        if self.ready() {
            NormalizerView {
                out: self.out.skip(self.chunk_len()),
                origin: self.origin + self.chunk_frames(),
                ..self
            }
        } else {
            self
        }
    }
}

impl View for Normalizer {
    type V = NormalizerView;

    closed spec fn view(&self) -> NormalizerView {
        NormalizerView {
            in_rate: self.in_sample_rate,
            in_channels: self.in_channels as int,
            output: self.output,
            stage1: self.stage1@,
            inner: self.inner_buf@,
            stage2: self.stage2@,
            out: self.out_buf@,
            origin: self.out_frame_origin as int,
            anchor: self.pts_anchor,
            total_inner: self.total_inner_frames as int,
            pending: self.pending,
        }
    }
}

/// Takes the first `n` elements off the front.
fn take_front(v: &mut Vec<Sample>, n: usize) -> (front: Vec<Sample>)
    requires
        n <= old(v)@.len(),
    ensures
        front@ == old(v)@.take(n as int),
        final(v)@ == old(v)@.skip(n as int),
{
    let rest: Vec<Sample> = v.split_off(n);
    let mut front: Vec<Sample> = rest;
    std::mem::swap(v, &mut front);
    proof {
        assert(old(v)@.subrange(0, n as int) =~= old(v)@.take(n as int));
        assert(old(v)@.subrange(n as int, old(v)@.len() as int) =~= old(v)@.skip(n as int));
    }
    front
}

/// Interleaved samples in stereo.
pub fn mix_to_stereo(samples: &[Sample], channels: usize) -> (out: Vec<Sample>)
    requires
        0 < channels,
    ensures
        out@ == stereo(samples@, channels as int),
{
    let n: usize = samples.len();
    let frames: usize = n / channels;
    let ghost c = channels as int;
    let mut out: Vec<Sample> = Vec::new();
    let mut f: usize = 0;
    proof {
        let a = n as int;
        assert((a / c) * c <= a) by (nonlinear_arith)
            requires
                a >= 0,
                c > 0,
        ;
    }
    while f < frames
        invariant
            f <= frames,
            frames * c <= n,
            n == samples@.len(),
            frames == n as int / c,
            c == channels > 0,
            out@ =~= stereo(samples@, c).take(2 * f),
            stereo(samples@, c).len() == 2 * frames,
        decreases frames - f,
    {
        let ghost fi = f as int;
        let ghost whole = stereo(samples@, c);
        assert(fi * c + c <= frames * c) by (nonlinear_arith)
            requires
                fi + 1 <= frames,
                c > 0,
        ;
        assert(fi * c >= 0) by (nonlinear_arith)
            requires
                fi >= 0,
                c > 0,
        ;
        let base: usize = f * channels;
        out.push(samples[base]);
        assert(whole[2 * fi] == samples@[base as int]) by {
            assert((2 * fi) / 2 == fi && (2 * fi) % 2 == 0);
            if c == 1 {
                assert(fi * c == fi) by (nonlinear_arith)
                    requires
                        c == 1,
                ;
            }
        }
        assert((2 * fi + 1) / 2 == fi && (2 * fi + 1) % 2 == 1);
        if channels == 1 {
            assert(fi * c == fi) by (nonlinear_arith)
                requires
                    c == 1,
            ;
            out.push(samples[base]);
        } else {
            out.push(samples[base + 1]);
        }
        f += 1;
    }
    assert(stereo(samples@, c).take(2 * frames) =~= stereo(samples@, c));
    out
}

/// Stereo samples in another number of channels.
fn change_channels(inner: &[Sample], channels: usize) -> (out: Vec<Sample>)
    requires
        0 < channels,
        inner@.len() % 2 == 0,
    ensures
        out@ == spread(inner@, channels as int),
{
    let n: usize = inner.len();
    let frames: usize = n / 2;
    let ghost c = channels as int;
    let ghost whole = spread(inner@, c);
    let mut out: Vec<Sample> = Vec::new();
    let mut f: usize = 0;
    assert(0 * c == 0);
    assert(whole.len() == frames * c) by {
        assert(frames * c >= 0) by (nonlinear_arith)
            requires
                frames >= 0,
                c > 0,
        ;
    }
    while f < frames
        invariant
            f <= frames,
            2 * frames == n == inner@.len(),
            c == channels > 0,
            whole == spread(inner@, c),
            whole.len() == frames * c,
            out@ =~= whole.take(f * c),
            f * c <= frames * c,
        decreases frames - f,
    {
        let ghost fi = f as int;
        let ghost start = out@.len() as int;
        proof {
            assert(fi * c + c == (fi + 1) * c) by (nonlinear_arith);
            assert((fi + 1) * c <= frames * c) by (nonlinear_arith)
                requires
                    fi + 1 <= frames,
                    c > 0,
            ;
            assert(0 <= fi * c) by (nonlinear_arith)
                requires
                    fi >= 0,
                    c > 0,
            ;
        }
        let l: Sample = inner[2 * f];
        if channels == 1 {
            let r: Sample = inner[2 * f + 1];
            assert(fi * c == fi) by (nonlinear_arith)
                requires
                    c == 1,
            ;
            out.push(mean(l, r));
        } else if channels == 2 {
            let r: Sample = inner[2 * f + 1];
            assert(fi * c == 2 * fi) by (nonlinear_arith)
                requires
                    c == 2,
            ;
            out.push(l);
            out.push(r);
        } else {
            let mut k: usize = 0;
            while k < channels
                invariant
                    k <= channels,
                    channels > 2,
                    c == channels,
                    0 <= fi < frames,
                    2 * frames == inner@.len(),
                    0 <= fi * c,
                    fi * c + c <= whole.len(),
                    whole == spread(inner@, c),
                    l == inner@[2 * fi],
                    out@ =~= whole.take(fi * c + k),
                decreases channels - k,
            {
                let ghost ki = k as int;
                assert((fi * c + ki) / c == fi) by (nonlinear_arith)
                    requires
                        0 <= ki < c,
                        0 <= fi,
                ;
                assert(whole[fi * c + ki] == l);
                out.push(l);
                k += 1;
            }
        }
        f += 1;
    }
    assert(whole.take(frames * c) =~= whole);
    out
}

impl Normalizer {
    /// What always holds of a normalizer.
    pub closed spec fn wf(self) -> bool {
        &&& self@.valid()
        &&& self.out_channels == self@.out_channels()
        &&& self.out_chunk_frames == self@.chunk_frames()
        &&& self@.chunk_len() <= usize::MAX
    }

    /// A normalizer between a device format and an output format. No channels count as one.
    pub fn new(in_sample_rate: u32, in_channels: u16, output: OutputFormat) -> (n: Normalizer)
        requires
            0 < in_sample_rate,
            0 < output.sample_rate,
            output.sample_rate * 20 <= usize::MAX,
            NormalizerView::fresh(in_sample_rate, in_channels, output).chunk_len() <= usize::MAX,
        ensures
            n.wf(),
            n@ == NormalizerView::fresh(in_sample_rate, in_channels, output),
    {
        let in_channels: usize = if in_channels == 0 {
            1
        } else {
            in_channels as usize
        };
        let out_channels: usize = if output.channels == 0 {
            1
        } else {
            output.channels as usize
        };
        let frames: usize = output.chunk_frames();
        let out_chunk_frames: usize = if frames == 0 {
            1
        } else {
            frames
        };
        let n: Normalizer = Normalizer {
            in_sample_rate,
            in_channels,
            output,
            out_channels,
            out_chunk_frames,
            stage1: Vec::new(),
            inner_buf: Vec::new(),
            stage2: Vec::new(),
            out_buf: Vec::new(),
            out_frame_origin: 0,
            pts_anchor: None,
            total_inner_frames: 0,
            pending: None,
        };
        assert(0nat % n@.out_channels() as nat == 0) by (nonlinear_arith)
            requires
                n@.out_channels() > 0,
        ;
        n
    }

    /// Rate of the device.
    pub fn in_sample_rate(&self) -> (rate: u32)
        ensures
            rate == self@.in_rate,
    {
        self.in_sample_rate
    }

    /// The output format.
    pub fn output(&self) -> (format: OutputFormat)
        ensures
            format == self@.output,
    {
        self.output
    }

    /// Whether the first stage passes samples on as they are.
    pub fn is_passthrough(&self) -> (r: bool)
        ensures
            r == self@.passthrough(),
    {
        self.in_sample_rate == SAMPLE_RATE
    }

    /// Whether the whole second stage passes samples on as they are.
    pub fn is_output_passthrough(&self) -> (r: bool)
        requires
            self.wf(),
        ensures
            r == self@.output_passthrough(),
    {
        self.output.sample_rate == SAMPLE_RATE && self.out_channels == CHANNELS as usize
    }

    /// Frames of the internal normal form made so far. The output frame at which the next
    /// samples will come out is projected from it.
    pub fn total_inner_frames(&self) -> (frames: u64)
        ensures
            frames == self@.total_inner,
    {
        self.total_inner_frames
    }

    /// Finished frames that were not taken yet.
    pub fn buffered_out_frames(&self) -> (frames: usize)
        requires
            self.wf(),
        ensures
            frames == self@.out.len() / self@.out_channels() as nat,
    {
        let n: usize = self.out_buf.len();
        n / self.out_channels
    }

    /// Takes more of the internal normal form in and moves on what can be moved.
    fn extend_inner(&mut self, more: Vec<Sample>)
        requires
            old(self).wf(),
            old(self)@.anchor is Some,
            more@.len() % 2 == 0,
            old(self)@.total_inner + more@.len() / 2 <= u64::MAX,
        ensures
            final(self).wf(),
            final(self)@ == old(self)@.with_inner(more@),
    {
        let ghost before = self@;
        let ghost added = more@;
        let mut more: Vec<Sample> = more;
        let n: usize = more.len();
        self.total_inner_frames = self.total_inner_frames + (n / 2) as u64;
        self.inner_buf.append(&mut more);
        let ghost inner = before.inner + added;
        let ghost ch = self@.out_channels();
        if self.output.sample_rate == SAMPLE_RATE && self.out_channels == CHANNELS as usize {
            let mut all: Vec<Sample> = Vec::new();
            std::mem::swap(&mut all, &mut self.inner_buf);
            self.out_buf.append(&mut all);
            proof {
                lemma_sum_of_multiples(before.out.len() as int, inner.len() as int, ch);
                assert(self@ =~= before.with_inner(added));
            }
            return;
        }
        let len: usize = self.inner_buf.len();
        let whole: usize = len / (CHUNK_FRAMES * 2) * (CHUNK_FRAMES * 2);
        let blocks: Vec<Sample> = take_front(&mut self.inner_buf, whole);
        let mut done: Vec<Sample> = change_channels(blocks.as_slice(), self.out_channels);
        proof {
            let frames = blocks@.len() as int / 2;
            assert(done@.len() == frames * ch);
            lemma_multiple(frames, ch);
            lemma_sum_of_multiples(before.out.len() as int, frames * ch, ch);
            lemma_sum_of_multiples(before.stage2.len() as int, frames * ch, ch);
        }
        if self.output.sample_rate == SAMPLE_RATE {
            self.out_buf.append(&mut done);
        } else {
            self.stage2.append(&mut done);
        }
        assert(self@ =~= before.with_inner(added));
    }

    /// Takes samples of the device in. `out_frame` is the output frame at which their first
    /// frame will come out, and `device_pts_ns` its time.
    pub fn push(&mut self, interleaved: &[Sample], device_pts_ns: i64, out_frame: u64)
        requires
            old(self).wf(),
            old(self)@.total_inner + interleaved@.len() <= u64::MAX,
        ensures
            final(self).wf(),
            final(self)@ == old(self)@.pushed(interleaved@, device_pts_ns, out_frame),
    {
        let n: usize = interleaved.len();
        if n / self.in_channels == 0 {
            return;
        }
        let ghost before = self@;
        self.pts_anchor = Some(PtsAnchor { out_frame, pts_ns: device_pts_ns });
        let mut mixed: Vec<Sample> = mix_to_stereo(interleaved, self.in_channels);
        proof {
            let a = interleaved@.len() as int;
            let c = self.in_channels as int;
            assert(a / c <= a) by (nonlinear_arith)
                requires
                    a >= 0,
                    c > 0,
            ;
        }
        if self.in_sample_rate == SAMPLE_RATE {
            self.extend_inner(mixed);
        } else {
            self.stage1.append(&mut mixed);
        }
        assert(self@ =~= before.pushed(interleaved@, device_pts_ns, out_frame));
    }

    /// The next block whose rate is to be changed, if there is one and none is out.
    pub fn next_work(&mut self) -> (work: Option<Work>)
        requires
            old(self).wf(),
        ensures
            final(self).wf(),
            final(self)@ == old(self)@.handed_out(),
            match work {
                Some(w) => old(self)@.next_block() == Some((w.stage, w.block@)),
                None => old(self)@.next_block() is None,
            },
    {
        let ghost before = self@;
        if self.pending.is_some() {
            return None;
        }
        let frames: usize = (self.in_sample_rate / 50) as usize;
        let input_block: usize = if frames < MIN_BLOCK_FRAMES {
            MIN_BLOCK_FRAMES * 2
        } else {
            frames * 2
        };
        if self.in_sample_rate != SAMPLE_RATE && self.stage1.len() >= input_block {
            let block: Vec<Sample> = take_front(&mut self.stage1, input_block);
            self.pending = Some(Stage::Input);
            assert(self@ =~= before.handed_out());
            return Some(Work { stage: Stage::Input, block });
        }
        if self.output.sample_rate != SAMPLE_RATE && self.stage2.len() >= CHUNK_FRAMES
            * self.out_channels {
            proof {
                let ch = before.out_channels();
                lemma_multiple(CHUNK_FRAMES as int, ch);
                lemma_difference_of_multiples(before.stage2.len() as int, CHUNK_FRAMES * ch, ch);
            }
            let block: Vec<Sample> = take_front(&mut self.stage2, CHUNK_FRAMES * self.out_channels);
            self.pending = Some(Stage::Output);
            assert(self@ =~= before.handed_out());
            return Some(Work { stage: Stage::Output, block });
        }
        None
    }

    /// Takes the block that was out back, filtered: whole frames, however many.
    pub fn complete(&mut self, filtered: Vec<Sample>)
        requires
            old(self).wf(),
            old(self)@.pending is Some,
            filtered@.len() % (if old(self)@.pending == Some(Stage::Input) {
                2
            } else {
                old(self)@.out_channels() as nat
            }) == 0,
            old(self)@.total_inner + filtered@.len() <= u64::MAX,
        ensures
            final(self).wf(),
            final(self)@ == old(self)@.completed(filtered@),
    {
        let ghost before = self@;
        let ghost added = filtered@;
        let stage: Option<Stage> = self.pending;
        self.pending = None;
        match stage {
            Some(Stage::Input) => {
                assert(self@ =~= (NormalizerView { pending: None, ..before }));
                self.extend_inner(filtered);
            },
            Some(Stage::Output) => {
                let mut filtered: Vec<Sample> = filtered;
                proof {
                    lemma_sum_of_multiples(
                        before.out.len() as int,
                        added.len() as int,
                        before.out_channels(),
                    );
                }
                self.out_buf.append(&mut filtered);
            },
            None => {},
        }
        assert(self@ =~= before.completed(added));
    }

    /// Whether the time of the next chunk stays within 64 bits.
    pub fn times_fit(&self) -> (r: bool)
        requires
            self.wf(),
        ensures
            r == self@.pop_fits(),
    {
        proof {
            let frames = self@.chunk_frames();
            let ch = self@.out_channels();
            assert(frames * ch >= 1) by (nonlinear_arith)
                requires
                    frames >= 1,
                    ch >= 1,
            ;
        }
        if self.out_buf.len() < self.out_chunk_frames * self.out_channels {
            return true;
        }
        match self.pts_anchor {
            None => true,
            Some(anchor) => {
                let low: i128 = i64::MIN as i128;
                let high: i128 = i64::MAX as i128;
                let ns: i128 = (1_000_000_000 / (self.output.sample_rate as i64)) as i128;
                let delta: i128 = self.out_frame_origin as i128 - anchor.out_frame as i128;
                proof {
                    assert(-0x1_0000_0000_0000_0000 * 1_000_000_000 <= delta * ns
                        <= 0x1_0000_0000_0000_0000 * 1_000_000_000) by (nonlinear_arith)
                        requires
                            -0x1_0000_0000_0000_0000 <= delta <= 0x1_0000_0000_0000_0000,
                            0 <= ns <= 1_000_000_000,
                    ;
                }
                let step: i128 = delta * ns;
                let pts: i128 = anchor.pts_ns as i128 + step;
                self.out_frame_origin as i128 + self.out_chunk_frames as i128 <= high
                    && anchor.out_frame as i128 <= high && low <= step && step <= high && low
                    <= pts && pts <= high
            },
        }
    }

    /// Takes the oldest finished chunk, with the time of its first frame, once there is one.
    pub fn pop_chunk(&mut self) -> (chunk: Option<(Vec<Sample>, i64)>)
        requires
            old(self).wf(),
            old(self)@.pop_fits(),
        ensures
            final(self).wf(),
            final(self)@ == old(self)@.popped(),
            match chunk {
                Some((data, pts_ns)) => {
                    &&& old(self)@.ready()
                    &&& data@ == old(self)@.out.take(old(self)@.chunk_len())
                    &&& pts_ns == old(self)@.next_pts()
                },
                None => !old(self)@.ready(),
            },
    {
        let ghost before = self@;
        let ghost ch = before.out_channels();
        proof {
            let frames = before.chunk_frames();
            assert(frames * ch >= 1) by (nonlinear_arith)
                requires
                    frames >= 1,
                    ch >= 1,
            ;
        }
        let need: usize = self.out_chunk_frames * self.out_channels;
        if self.out_buf.len() < need {
            return None;
        }
        match self.pts_anchor {
            None => {
                // Nothing comes out before something has come in.
                None
            },
            Some(anchor) => {
                let step: i64 = 1_000_000_000 / (self.output.sample_rate as i64);
                let delta: i64 = self.out_frame_origin as i64 - anchor.out_frame as i64;
                let pts_ns: i64 = anchor.pts_ns + delta * step;
                proof {
                    let frames = before.chunk_frames();
                    lemma_multiple(frames, ch);
                    lemma_difference_of_multiples(before.out.len() as int, frames * ch, ch);
                }
                let data: Vec<Sample> = take_front(&mut self.out_buf, need);
                self.out_frame_origin = self.out_frame_origin + self.out_chunk_frames as u64;
                assert(self@ =~= before.popped());
                Some((data, pts_ns))
            },
        }
    }
}

proof fn lemma_multiple(k: int, c: int)
    requires
        0 <= k,
        0 < c,
    ensures
        k * c >= 0,
        (k * c) % c == 0,
{
    vstd::arithmetic::div_mod::lemma_mod_multiples_basic(k, c);
    assert(k * c >= 0) by (nonlinear_arith)
        requires
            k >= 0,
            c > 0,
    ;
}

proof fn lemma_sum_of_multiples(a: int, b: int, c: int)
    requires
        0 < c,
        a % c == 0,
        b % c == 0,
    ensures
        (a + b) % c == 0,
{
    vstd::arithmetic::div_mod::lemma_add_mod_noop(a, b, c);
    assert(0int % c == 0) by (nonlinear_arith)
        requires
            c > 0,
    ;
}

proof fn lemma_difference_of_multiples(a: int, b: int, c: int)
    requires
        0 < c,
        a % c == 0,
        b % c == 0,
    ensures
        (a - b) % c == 0,
{
    vstd::arithmetic::div_mod::lemma_sub_mod_noop(a, b, c);
    assert(0int % c == 0) by (nonlinear_arith)
        requires
            c > 0,
    ;
}

/// With a device at 48000 Hz in stereo and the default output, what comes in comes out as it
/// is: pushing whole frames appends them to the finished samples, and nothing waits anywhere.
pub proof fn lemma_default_is_identity(
    v: NormalizerView,
    samples: Seq<Sample>,
    pts_ns: i64,
    out_frame: u64,
)
    requires
        v.valid(),
        v.passthrough(),
        v.output_passthrough(),
        v.in_channels == 2,
        samples.len() % 2 == 0,
    ensures
        ({
            let w = v.pushed(samples, pts_ns, out_frame);
            &&& w.out == v.out + samples
            &&& w.next_block() is None
            &&& w.stage1.len() == 0 && w.inner.len() == 0 && w.stage2.len() == 0
        }),
{
    assert(stereo(samples, 2) =~= samples);
    if samples.len() == 0 {
        assert(v.out + samples =~= v.out);
    } else {
        assert(v.inner + samples =~= samples);
    }
}

/// A mono device is doubled: with the default output the left and the right sample of every
/// frame that comes in are the device's sample.
#[verifier::spinoff_prover]
pub proof fn lemma_mono_is_doubled(
    v: NormalizerView,
    samples: Seq<Sample>,
    pts_ns: i64,
    out_frame: u64,
    f: int,
)
    requires
        v.valid(),
        v.passthrough(),
        v.output_passthrough(),
        v.in_channels == 1,
        0 <= f < samples.len(),
    ensures
        ({
            let w = v.pushed(samples, pts_ns, out_frame);
            &&& w.out.len() == v.out.len() + 2 * samples.len()
            &&& w.out[v.out.len() + 2 * f] == samples[f]
            &&& w.out[v.out.len() + 2 * f + 1] == samples[f]
        }),
{
    assert((2 * f) / 2 == f && (2 * f + 1) / 2 == f);
}

/// Of more than two channels the first two are kept.
pub proof fn lemma_front_channels_are_kept(samples: Seq<Sample>, channels: int, f: int)
    requires
        2 <= channels,
        0 <= f < samples.len() / channels as nat,
    ensures
        stereo(samples, channels)[2 * f] == samples[f * channels],
        stereo(samples, channels)[2 * f + 1] == samples[f * channels + 1],
{
    assert((2 * f) / 2 == f && (2 * f) % 2 == 0);
    assert((2 * f + 1) / 2 == f && (2 * f + 1) % 2 == 1);
}

/// To mono every frame becomes the mean of its two samples, and the number of frames stays.
pub proof fn lemma_mono_output_is_the_mean(inner: Seq<Sample>, f: int)
    requires
        inner.len() % 2 == 0,
        0 <= f < inner.len() / 2,
    ensures
        spread(inner, 1).len() == inner.len() / 2,
        spread(inner, 1)[f] == crate::arith::mean_of(inner[2 * f], inner[2 * f + 1]) as Sample,
{
}

/// Every chunk lasts as long as every other, and holds whole frames of the output channels.
pub proof fn lemma_chunks_have_one_length(v: NormalizerView)
    requires
        v.valid(),
        v.ready(),
    ensures
        v.out.take(v.chunk_len()).len() == v.chunk_frames() * v.out_channels(),
        v.popped().chunk_len() == v.chunk_len(),
        v.popped().out.len() == v.out.len() - v.chunk_len(),
        v.out.take(v.chunk_len()) + v.popped().out == v.out,
{
    let frames = v.chunk_frames();
    let ch = v.out_channels();
    assert(frames * ch >= 0) by (nonlinear_arith)
        requires
            frames >= 0,
            ch >= 0,
    ;
    assert(v.out.take(v.chunk_len()) + v.popped().out =~= v.out);
}

/// Chunks taken one after the other, with nothing coming in between, are one chunk apart in
/// time, so their time stamps never decrease.
pub proof fn lemma_time_stamps_do_not_decrease(v: NormalizerView)
    requires
        v.valid(),
        v.ready(),
        v.anchor is Some,
    ensures
        v.popped().next_pts() == v.next_pts() + v.chunk_frames() * v.frame_ns(),
        v.popped().next_pts() >= v.next_pts(),
{
    let anchor = v.anchor->0;
    let d = v.origin - anchor.out_frame;
    let k = v.chunk_frames();
    let ns = v.frame_ns();
    assert((d + k) * ns == d * ns + k * ns) by (nonlinear_arith);
    assert(ns >= 0) by (nonlinear_arith)
        requires
            ns == 1_000_000_000int / (v.output.sample_rate as int),
            v.output.sample_rate > 0,
    ;
    assert(k * ns >= 0) by (nonlinear_arith)
        requires
            k >= 0,
            ns >= 0,
    ;
}

/// Nothing is lost between the device and the first filter: a block that is handed out is the
/// front of what waits, and what stays is the rest.
pub proof fn lemma_blocks_leave_in_order(v: NormalizerView)
    requires
        v.valid(),
        v.next_block() is Some,
    ensures
        ({
            let (stage, block) = v.next_block()->0;
            let w = v.handed_out();
            &&& w.pending == Some(stage)
            &&& stage == Stage::Input ==> block + w.stage1 == v.stage1 && block.len()
                == v.input_block()
            &&& stage == Stage::Output ==> block + w.stage2 == v.stage2 && block.len()
                == v.output_block()
        }),
{
    let (stage, block) = v.next_block()->0;
    if stage == Stage::Input {
        assert(block + v.handed_out().stage1 =~= v.stage1);
    } else {
        assert(block + v.handed_out().stage2 =~= v.stage2) by {
            assert(v.output_block() >= 0) by (nonlinear_arith)
                requires
                    v.output_block() == CHUNK_FRAMES * v.out_channels(),
                    v.out_channels() >= 0,
            ;
        }
    }
}

/// What is missing to a whole block waits; whole blocks never do once nothing is handed out.
pub proof fn lemma_less_than_a_block_waits(v: NormalizerView)
    requires
        v.valid(),
        v.pending is None,
        v.next_block() is None,
    ensures
        v.stage1.len() < v.input_block() || v.passthrough(),
        v.stage2.len() < v.output_block() || v.output.sample_rate == SAMPLE_RATE,
        v.inner.len() < CHUNK_FRAMES * 2,
{
}

/// In stereo nothing is done to samples on their way out: left stays left and right stays
/// right, frame by frame, and no frame comes or goes.
pub proof fn lemma_stereo_output_keeps_both_sides(inner: Seq<Sample>, f: int)
    requires
        inner.len() % 2 == 0,
        0 <= f < inner.len() / 2,
    ensures
        spread(inner, 2) == inner,
        spread(inner, 2).len() / 2 == inner.len() / 2,
        spread(inner, 2)[2 * f] == inner[2 * f],
        spread(inner, 2)[2 * f + 1] == inner[2 * f + 1],
{
    assert(spread(inner, 2) =~= inner);
}

/// For more than two channels every channel of a frame is the left sample of that frame, and no
/// frame comes or goes.
pub proof fn lemma_many_channels_repeat_the_left(inner: Seq<Sample>, channels: int, f: int, k: int)
    requires
        inner.len() % 2 == 0,
        2 < channels,
        0 <= f < inner.len() / 2,
        0 <= k < channels,
    ensures
        spread(inner, channels).len() == inner.len() / 2 * channels,
        spread(inner, channels)[f * channels + k] == inner[2 * f],
{
    let n = inner.len() as int / 2;
    assert((f * channels + k) / channels == f && 0 <= f * channels + k < n * channels)
        by (nonlinear_arith)
        requires
            0 <= k < channels,
            0 <= f < n,
    ;
}

/// With two output channels the second stage changes no sample, loses none and adds none: what
/// it has passed on, to the output or to the change of rate, followed by what still waits for a
/// whole block, is what it had followed by what came.
#[verifier::spinoff_prover]
pub proof fn lemma_second_stage_passes_stereo_on(v: NormalizerView, more: Seq<Sample>)
    requires
        v.valid(),
        v.output.channels == 2,
        more.len() % 2 == 0,
    ensures
        ({
            let w = v.with_inner(more);
            &&& v.output.sample_rate == 48_000 ==> w.out == v.out + more && w.stage2 == v.stage2
                && w.inner.len() == 0
            &&& v.output.sample_rate != 48_000 ==> w.stage2 + w.inner == v.stage2 + v.inner + more
                && w.out == v.out && w.inner.len() < 1_920
            &&& w.stage1 == v.stage1
            &&& w.total_inner == v.total_inner + more.len() / 2
            &&& w.anchor == v.anchor && w.origin == v.origin
        }),
{
    let inner = v.inner + more;
    let w = v.with_inner(more);
    if v.output.sample_rate == 48_000 {
        assert(v.inner =~= seq![]);
        assert(inner =~= more);
    } else {
        let whole = (inner.len() / (CHUNK_FRAMES * 2) as nat * (CHUNK_FRAMES * 2) as nat) as int;
        let block = (CHUNK_FRAMES * 2) as nat;
        let blocks = inner.len() / block;
        assert(blocks * block == 1920 * blocks) by (nonlinear_arith)
            requires
                block == 1920,
        ;
        assert(blocks == inner.len() / 1920nat);
        assert(whole == 1920 * blocks);
        assert(0 <= whole <= inner.len() && inner.len() - whole < 1920);
        assert(spread(inner.take(whole), 2) =~= inner.take(whole));
        assert(w.stage2 + w.inner =~= v.stage2 + v.inner + more);
    }
}

/// With one output channel at 48000 Hz every frame of a whole block leaves as the mean of its
/// two samples; with one at another rate it goes on to the change of rate as that. What waits
/// is less than a block.
#[verifier::spinoff_prover]
pub proof fn lemma_second_stage_averages_to_mono(v: NormalizerView, more: Seq<Sample>, f: int)
    requires
        v.valid(),
        v.output.channels == 1,
        more.len() % 2 == 0,
        0 <= f < (v.inner.len() + more.len()) / 1_920 * 960,
    ensures
        ({
            let w = v.with_inner(more);
            let all = v.inner + more;
            let done = if v.output.sample_rate == 48_000 {
                w.out.skip(v.out.len() as int)
            } else {
                w.stage2.skip(v.stage2.len() as int)
            };
            &&& done.len() == all.len() / 1_920 * 960
            &&& done[f] == crate::arith::mean_of(all[2 * f], all[2 * f + 1]) as Sample
            &&& w.inner == all.skip(all.len() as int / 1_920int * 1_920int)
        }),
{
    lemma_what_the_second_stage_does(v, more, f, 0);
}

/// Every whole frame of the device becomes one stereo frame, and a rest is left out.
pub proof fn lemma_every_frame_becomes_stereo(samples: Seq<Sample>, channels: int)
    requires
        0 < channels,
    ensures
        stereo(samples, channels).len() == 2 * (samples.len() as int / channels),
        channels == 1 ==> forall|f: int|
            0 <= f < samples.len() ==> stereo(samples, 1)[2 * f] == samples[f] && stereo(
                samples,
                1,
            )[2 * f + 1] == #[trigger] samples[f],
{
    let n = samples.len() as int;
    assert(n / channels >= 0) by (nonlinear_arith)
        requires
            n >= 0,
            channels > 0,
    ;
    if channels == 1 {
        assert forall|f: int| 0 <= f < samples.len() implies stereo(samples, 1)[2 * f]
            == samples[f] && stereo(samples, 1)[2 * f + 1] == #[trigger] samples[f] by {
            assert((2 * f) / 2 == f && (2 * f + 1) / 2 == f);
        }
    }
}

/// A push with a frame in it makes its time and its output frame the known ones, and puts its
/// stereo samples behind those that wait for the change of rate, or, at 48000 Hz, takes them
/// straight to the second stage.
pub proof fn lemma_a_push_brings_time_and_samples(
    v: NormalizerView,
    samples: Seq<Sample>,
    pts_ns: i64,
    out_frame: u64,
)
    requires
        v.valid(),
        samples.len() >= v.in_channels,
    ensures
        ({
            let w = v.pushed(samples, pts_ns, out_frame);
            &&& w.anchor == Some(PtsAnchor { out_frame, pts_ns })
            &&& v.in_rate != 48_000 ==> w.stage1 == v.stage1 + stereo(samples, v.in_channels)
                && w.inner == v.inner && w.stage2 == v.stage2 && w.out == v.out
            &&& v.in_rate == 48_000 ==> w.stage1 == v.stage1 && w.total_inner == v.total_inner
                + samples.len() as int / v.in_channels
            &&& w.origin == v.origin
            &&& w.output == v.output && w.in_rate == v.in_rate && w.in_channels == v.in_channels
        }),
{
    let n = samples.len() as int;
    let c = v.in_channels;
    assert(n / c >= 1) by (nonlinear_arith)
        requires
            n >= c,
            c >= 1,
    ;
    lemma_every_frame_becomes_stereo(samples, c);
}

/// Blocks that are handed out last 20 ms: those of the device's rate, though no fewer than 64
/// frames, in stereo, and those of 48000 Hz in the output channels. None is handed out for a
/// stage whose rate is right already.
pub proof fn lemma_blocks_last_20_ms(v: NormalizerView)
    requires
        v.valid(),
        v.next_block() is Some,
    ensures
        ({
            let (stage, block) = v.next_block()->0;
            &&& stage == Stage::Input ==> v.in_rate != 48_000 && block.len() == 2 * (if v.in_rate
                >= 3_200 {
                v.in_rate as int / 50
            } else {
                64
            })
            &&& stage == Stage::Output ==> v.output.sample_rate != 48_000 && block.len() == 960
                * (if v.output.channels == 0 {
                1
            } else {
                v.output.channels as int
            })
        }),
{
}

/// A block that comes back filtered goes on: from the second stage to the end of what is
/// finished, from the first one to the second. Nothing else waits for it any more.
pub proof fn lemma_a_filtered_block_goes_on(v: NormalizerView, filtered: Seq<Sample>)
    requires
        v.valid(),
        v.pending is Some,
        filtered.len() % 2 == 0,
    ensures
        ({
            let w = v.completed(filtered);
            &&& w.pending is None
            &&& v.pending == Some(Stage::Output) ==> w.out == v.out + filtered && w.inner == v.inner
                && w.stage2 == v.stage2
            &&& v.pending == Some(Stage::Input) ==> w.total_inner == v.total_inner + filtered.len()
                / 2
            &&& v.pending == Some(Stage::Input) && v.output.channels == 2 ==> (if v.output.sample_rate
                == 48_000 {
                w.out == v.out + filtered
            } else {
                w.stage2 + w.inner == v.stage2 + v.inner + filtered && w.out == v.out
            })
            &&& w.stage1 == v.stage1 && w.anchor == v.anchor && w.origin == v.origin
        }),
{
    if v.pending == Some(Stage::Input) {
        let u = NormalizerView { pending: None, ..v };
        if v.output.channels == 2 {
            lemma_second_stage_passes_stereo_on(u, filtered);
        }
    }
}

/// The output frame whose time is known has that time: a chunk that starts with it carries it,
/// and one that starts `d` frames away is `d` times the whole nanoseconds of a frame away.
pub proof fn lemma_times_are_counted_from_the_known_one(v: NormalizerView, d: int)
    requires
        v.valid(),
        v.anchor is Some,
        v.origin == (v.anchor->0).out_frame + d,
    ensures
        d == 0 ==> v.next_pts() == (v.anchor->0).pts_ns,
        v.next_pts() == (v.anchor->0).pts_ns + d * (1_000_000_000int
            / v.output.sample_rate as int),
{
    assert(0 * v.frame_ns() == 0);
}

/// Taking a chunk takes 20 ms of frames from the front and moves the count of frames on by as
/// many; a chunk that is not there is not taken.
pub proof fn lemma_a_chunk_is_taken_from_the_front(v: NormalizerView)
    requires
        v.valid(),
        v.output.supported(),
    ensures
        ({
            let frames = v.output.sample_rate as int / 50;
            let len = frames * v.output.channels;
            let w = v.popped();
            &&& v.ready() <==> v.out.len() >= len
            &&& v.out.len() >= len ==> v.out == v.out.take(len) + w.out && w.out.len()
                == v.out.len() - len && w.origin == v.origin + frames
            &&& v.out.len() < len ==> w == v
            &&& w.anchor == v.anchor && w.stage1 == v.stage1 && w.stage2 == v.stage2 && w.inner
                == v.inner
        }),
{
    let frames = v.output.sample_rate as int / 50;
    let len = frames * v.output.channels;
    assert(v.chunk_frames() == frames);
    assert(v.chunk_len() == len);
    assert(len >= 0) by (nonlinear_arith)
        requires
            len == frames * v.output.channels,
            frames >= 0,
            v.output.channels >= 0,
    ;
    if v.out.len() >= len {
        assert(v.out =~= v.out.take(len) + v.popped().out);
    }
}

/// Stereo samples at 48000 Hz that are pushed for an output of two channels reach the second
/// stage as they are, every left sample as a left one and every right sample as a right one:
/// at the same rate they are finished, at any other they wait for the change of rate.
pub proof fn lemma_pushed_stereo_stays_stereo(
    n: &mut Normalizer,
    samples: &[Sample],
    device_pts_ns: i64,
    out_frame: u64,
)
    requires
        old(n).wf(),
        old(n)@.in_rate == 48_000,
        old(n)@.in_channels == 2,
        old(n)@.output.channels == 2,
        samples@.len() % 2 == 0,
        samples@.len() >= 2,
        call_ensures(Normalizer::push, (n, samples, device_pts_ns, out_frame), ()),
    ensures
        old(n)@.output.sample_rate == 48_000 ==> final(n)@.out == old(n)@.out + samples@,
        old(n)@.output.sample_rate != 48_000 ==> final(n)@.stage2 + final(n)@.inner
            == old(n)@.stage2 + old(n)@.inner + samples@ && final(n)@.out == old(n)@.out,
        final(n)@.total_inner == old(n)@.total_inner + samples@.len() / 2,
        final(n)@.anchor == Some(PtsAnchor { out_frame, pts_ns: device_pts_ns }),
{
    let v = old(n)@;
    assert(stereo(samples@, 2) =~= samples@);
    let anchored = NormalizerView {
        anchor: Some(PtsAnchor { out_frame, pts_ns: device_pts_ns }),
        ..v
    };
    lemma_second_stage_passes_stereo_on(anchored, samples@);
}

/// The same of a block that comes back from the first change of rate.
pub proof fn lemma_filtered_stereo_stays_stereo(n: &mut Normalizer, filtered: Vec<Sample>)
    requires
        old(n).wf(),
        old(n)@.pending == Some(Stage::Input),
        old(n)@.output.channels == 2,
        filtered@.len() % 2 == 0,
        call_ensures(Normalizer::complete, (n, filtered), ()),
    ensures
        old(n)@.output.sample_rate == 48_000 ==> final(n)@.out == old(n)@.out + filtered@,
        old(n)@.output.sample_rate != 48_000 ==> final(n)@.stage2 + final(n)@.inner
            == old(n)@.stage2 + old(n)@.inner + filtered@ && final(n)@.out == old(n)@.out,
        final(n)@.pending is None,
{
    lemma_a_filtered_block_goes_on(old(n)@, filtered@);
}

/// As soon as a whole block waits for a change of rate it is handed out, the first stage before
/// the second, from the front and as it is; what is behind it goes on waiting.
pub proof fn lemma_whole_blocks_are_handed_out(v: NormalizerView)
    requires
        v.valid(),
        v.pending is None,
    ensures
        ({
            let frames = if v.in_rate >= 3_200 {
                v.in_rate as int / 50
            } else {
                64
            };
            let block = 960 * (if v.output.channels == 0 {
                1
            } else {
                v.output.channels as int
            });
            let w = v.handed_out();
            let first = v.in_rate != 48_000 && v.stage1.len() >= 2 * frames;
            let second = v.output.sample_rate != 48_000 && v.stage2.len() >= block;
            &&& first ==> v.next_block() == Some((Stage::Input, v.stage1.take(2 * frames)))
                && w.stage1 == v.stage1.skip(2 * frames) && w.pending == Some(Stage::Input)
                && w.stage2 == v.stage2
            &&& !first && second ==> v.next_block() == Some((Stage::Output, v.stage2.take(block)))
                && w.stage2 == v.stage2.skip(block) && w.pending == Some(Stage::Output) && w.stage1
                == v.stage1
            &&& !first && !second ==> v.next_block() is None && w == v
            &&& w.out == v.out && w.inner == v.inner && w.anchor == v.anchor && w.origin == v.origin
        }),
{
}

/// A chunk that is taken holds the oldest frames of 20 ms, with the time of the first of them.
pub proof fn lemma_chunks_carry_the_oldest_frames(
    n: &mut Normalizer,
    chunk: Option<(Vec<Sample>, i64)>,
)
    requires
        old(n).wf(),
        old(n)@.output.supported(),
        call_ensures(Normalizer::pop_chunk, (n,), chunk),
    ensures
        ({
            let v = old(n)@;
            let len = v.output.sample_rate as int / 50 * v.output.channels;
            &&& chunk is Some <==> v.out.len() >= len
            &&& chunk is Some ==> (chunk->0).0@ == v.out.take(len) && final(n)@.out == v.out.skip(
                len,
            )
            &&& chunk is Some && v.anchor is Some && (v.anchor->0).out_frame == v.origin ==> (
            chunk->0).1 == (v.anchor->0).pts_ns
            &&& chunk is Some && v.anchor is Some ==> (chunk->0).1 == (v.anchor->0).pts_ns + (
            v.origin - (v.anchor->0).out_frame) * (1_000_000_000int / v.output.sample_rate as int)
            &&& chunk is None ==> final(n)@ == v
        }),
{
    let v = old(n)@;
    lemma_a_chunk_is_taken_from_the_front(v);
    assert(v.chunk_frames() == v.output.sample_rate as int / 50);
    assert(v.chunk_len() == v.output.sample_rate as int / 50 * v.output.channels);
    if v.anchor is Some {
        lemma_times_are_counted_from_the_known_one(v, v.origin - (v.anchor->0).out_frame);
    }
}

/// A new normalizer holds nothing and has the rates and channels that it was given; a device
/// without channels counts as one with one.
pub proof fn lemma_a_new_normalizer_is_empty(
    in_sample_rate: u32,
    in_channels: u16,
    output: OutputFormat,
    n: Normalizer,
)
    requires
        call_ensures(Normalizer::new, (in_sample_rate, in_channels, output), n),
    ensures
        n@.in_rate == in_sample_rate,
        in_channels > 0 ==> n@.in_channels == in_channels,
        in_channels == 0 ==> n@.in_channels == 1,
        n@.output == output,
        n@.stage1.len() == 0 && n@.inner.len() == 0 && n@.stage2.len() == 0 && n@.out.len() == 0,
        n@.origin == 0 && n@.total_inner == 0,
        n@.anchor is None && n@.pending is None,
{
}

/// A push without a whole frame changes nothing; any other at 48000 Hz takes its stereo samples
/// to the second stage at once.
pub proof fn lemma_what_a_push_does(
    v: NormalizerView,
    samples: Seq<Sample>,
    pts_ns: i64,
    out_frame: u64,
)
    requires
        v.valid(),
    ensures
        samples.len() < v.in_channels ==> v.pushed(samples, pts_ns, out_frame) == v,
        samples.len() >= v.in_channels && v.in_rate == 48_000 ==> v.pushed(
            samples,
            pts_ns,
            out_frame,
        ) == (NormalizerView { anchor: Some(PtsAnchor { out_frame, pts_ns }), ..v }).with_inner(
            stereo(samples, v.in_channels),
        ),
{
    let n = samples.len() as int;
    let c = v.in_channels;
    assert((n < c ==> n / c == 0) && (n >= c ==> n / c >= 1)) by (nonlinear_arith)
        requires
            0 <= n,
            c >= 1,
    ;
}

/// With any number of output channels but two, or at a rate other than 48000 Hz, the second stage
/// works on whole blocks of 960 frames: every frame of theirs goes on, in order, as the mean of
/// its samples in one channel, as it is in two, and as its left sample in each of more. What does
/// not fill a block waits.
#[verifier::spinoff_prover]
pub proof fn lemma_what_the_second_stage_does(
    v: NormalizerView,
    more: Seq<Sample>,
    f: int,
    k: int,
)
    requires
        v.valid(),
        !(v.output.channels == 2 && v.output.sample_rate == 48_000),
        more.len() % 2 == 0,
        0 <= f < (v.inner.len() + more.len()) / 1_920 * 960,
        0 <= k,
        k < v.output.channels || (k == 0 && v.output.channels == 0),
    ensures
        ({
            let w = v.with_inner(more);
            let all = v.inner + more;
            let c = if v.output.channels == 0 {
                1
            } else {
                v.output.channels as int
            };
            let done = if v.output.sample_rate == 48_000 {
                w.out.skip(v.out.len() as int)
            } else {
                w.stage2.skip(v.stage2.len() as int)
            };
            &&& done.len() == all.len() / 1_920 * 960 * c
            &&& c == 1 ==> done[f] == crate::arith::mean_of(all[2 * f], all[2 * f + 1]) as Sample
            &&& c == 2 ==> done[2 * f + k] == all[2 * f + k]
            &&& c > 2 ==> done[f * c + k] == all[2 * f]
            &&& w.inner == all.skip(all.len() as int / 1_920int * 1_920int)
            &&& v.output.sample_rate == 48_000 ==> w.out.take(v.out.len() as int) == v.out
                && w.stage2 == v.stage2
            &&& v.output.sample_rate != 48_000 ==> w.stage2.take(v.stage2.len() as int) == v.stage2
                && w.out == v.out
        }),
{
    let all = v.inner + more;
    let c = v.out_channels();
    let block = (CHUNK_FRAMES * 2) as nat;
    let blocks = all.len() / block;
    let whole = (all.len() / block * block) as int;
    assert(blocks * block == 1920 * blocks) by (nonlinear_arith)
        requires
            block == 1920,
    ;
    assert(blocks == all.len() / 1920nat);
    assert(whole == 1920 * blocks);
    let w = v.with_inner(more);
    let part = all.take(whole);
    let made = spread(part, c);
    let frames = 960 * blocks as int;
    assert(part.len() / 2 == frames);
    assert(frames * c >= 0 && f * c + k < frames * c && 0 <= f * c) by (nonlinear_arith)
        requires
            0 <= f < frames,
            0 <= k < c,
    ;
    assert(made.len() == frames * c);
    assert((c == 1 ==> f * c == f) && (c == 2 ==> f * c == 2 * f)) by (nonlinear_arith);
    assert((c == 1 ==> frames * c == frames) && (c == 2 ==> frames * c == 2 * frames))
        by (nonlinear_arith);
    if c > 2 {
        lemma_many_channels_repeat_the_left(part, c, f, k);
    }
    assert(all.len() / 1_920 * 960 == frames);
    if v.output.sample_rate == 48_000 {
        assert(w.out == v.out + made);
        assert(w.out.skip(v.out.len() as int) =~= made);
        assert(w.out.take(v.out.len() as int) =~= v.out);
    } else {
        assert(w.stage2 == v.stage2 + made);
        assert(w.stage2.skip(v.stage2.len() as int) =~= made);
        assert(w.stage2.take(v.stage2.len() as int) =~= v.stage2);
    }
}

/// A chunk can always be taken where none is ready, and where its time and the count of frames
/// behind it stay within 64 bits, with a sign.
#[verifier::spinoff_prover]
pub proof fn lemma_chunks_can_be_taken(v: NormalizerView)
    requires
        v.valid(),
        v.output.supported(),
    ensures
        v.out.len() < v.output.sample_rate as int / 50 * v.output.channels ==> v.pop_fits(),
        v.anchor is Some && v.origin + 7_680 <= 0x7fff_ffff_ffff_ffff && (v.anchor->0).out_frame
            == v.origin ==> v.pop_fits(),
        v.anchor is Some && v.origin <= 0x1_0000_0000 && (v.anchor->0).out_frame <= 0x1_0000_0000
            && -0x1000_0000_0000_0000 <= (v.anchor->0).pts_ns <= 0x1000_0000_0000_0000
            ==> v.pop_fits(),
{
    assert(v.chunk_frames() == v.output.sample_rate as int / 50);
    assert(v.chunk_len() == v.output.sample_rate as int / 50 * v.output.channels);
    if v.anchor is Some {
        let d = v.origin - (v.anchor->0).out_frame;
        let ns = v.frame_ns();
        assert(0 <= ns <= 250_000) by (nonlinear_arith)
            requires
                ns == 1_000_000_000int / (v.output.sample_rate as int),
                v.output.sample_rate >= 4_000,
        ;
        assert(d == 0 ==> d * ns == 0) by (nonlinear_arith);
        assert(-0x1_0000_0000 <= d <= 0x1_0000_0000 ==> -0x1_0000_0000 * 250_000 <= d * ns
            <= 0x1_0000_0000 * 250_000) by (nonlinear_arith)
            requires
                0 <= ns <= 250_000,
        ;
    }
}

/// A chunk has at least one frame and one channel, whatever the format.
pub proof fn lemma_chunks_are_never_empty(v: NormalizerView)
    requires
        v.valid(),
    ensures
        v.output.sample_rate >= 50 ==> v.chunk_frames() == v.output.sample_rate as int / 50,
        v.output.sample_rate < 50 ==> v.chunk_frames() == 1,
        v.output.channels > 0 ==> v.out_channels() == v.output.channels,
        v.output.channels == 0 ==> v.out_channels() == 1,
        v.chunk_len() == v.chunk_frames() * v.out_channels(),
        v.passthrough() <==> v.in_rate == 48_000,
        v.output_passthrough() <==> v.output.sample_rate == 48_000 && v.output.channels == 2,
        v.frame_ns() * v.output.sample_rate <= 1_000_000_000 < (v.frame_ns() + 1)
            * v.output.sample_rate,
{
    let r = v.output.sample_rate as int;
    let ns = v.frame_ns();
    assert(ns * r <= 1_000_000_000 < (ns + 1) * r) by (nonlinear_arith)
        requires
            ns == 1_000_000_000int / r,
            r > 0,
    ;
}

} // verus!

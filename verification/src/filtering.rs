//! A normalizer together with its two filters: how the input is cut into pushes does not change
//! what comes out.
//!
//! What a filter gives for a block depends on the blocks that it was given before. So a filter
//! is seen here as a function of all blocks so far, and a normalizer goes with the blocks that
//! its filters have seen.

use crate::normalizer::{NormalizerView, PtsAnchor, Stage, CHUNK_FRAMES};
use crate::sample::Sample;
use crate::types::SAMPLE_RATE;
use vstd::prelude::*;

verus! {

/// What a filter gives for the last of the blocks that it has been given.
pub type Filter = spec_fn(Seq<Seq<Sample>>) -> Seq<Sample>;

/// The filters of the two stages.
pub ghost struct Filters {
    pub input: Filter,
    pub output: Filter,
}

/// A normalizer and the blocks that its filters have been given.
#[verifier::ext_equal]
pub ghost struct Filtered {
    pub n: NormalizerView,
    pub fed_in: Seq<Seq<Sample>>,
    pub fed_out: Seq<Seq<Sample>>,
}

impl Filtered {
    /// The next block has been filtered, where there is one.
    pub open spec fn worked(self, f: Filters) -> Filtered {
        match self.n.next_block() {
            Some((Stage::Input, block)) => {
                let fed_in = self.fed_in.push(block);
                Filtered { n: self.n.handed_out().completed((f.input)(fed_in)), fed_in, ..self }
            },
            Some((Stage::Output, block)) => {
                let fed_out = self.fed_out.push(block);
                Filtered { n: self.n.handed_out().completed((f.output)(fed_out)), fed_out, ..self }
            },
            None => self,
        }
    }

    /// Every block has been filtered, one after the other.
    pub open spec fn settled(self, f: Filters) -> Filtered
        decreases self.n.stage1.len(), self.n.stage2.len(),
    {
        if self.n.next_block() is None {
            self
        } else {
            self.worked(f).settled(f)
        }
    }

    /// Samples have come from the device and everything that can be filtered has been.
    pub open spec fn pushed(self, samples: Seq<Sample>, anchor: PtsAnchor, f: Filters) -> Filtered {
        Filtered {
            n: self.n.pushed(samples, anchor.pts_ns, anchor.out_frame),
            ..self
        }.settled(f)
    }

    /// Another output frame has the known time.
    pub open spec fn anchored(self, anchor: Option<PtsAnchor>) -> Filtered {
        Filtered { n: NormalizerView { anchor, ..self.n }, ..self }
    }

    /// Whether the first stage has a whole block.
    spec fn can_filter_input(self) -> bool {
        !self.n.passthrough() && self.n.stage1.len() >= self.n.input_block()
    }

    /// Whether the second stage has a whole block.
    spec fn can_filter_output(self) -> bool {
        self.n.output.sample_rate != SAMPLE_RATE && self.n.stage2.len() >= self.n.output_block()
    }

    /// One block of the first stage has been filtered.
    spec fn input_step(self, f: Filters) -> Filtered {
        let block = self.n.input_block();
        let fed_in = self.fed_in.push(self.n.stage1.take(block));
        let rest = NormalizerView { stage1: self.n.stage1.skip(block), ..self.n };
        Filtered { n: rest.with_inner((f.input)(fed_in)), fed_in, ..self }
    }

    /// One block of the second stage has been filtered.
    spec fn output_step(self, f: Filters) -> Filtered {
        let block = self.n.output_block();
        let fed_out = self.fed_out.push(self.n.stage2.take(block));
        Filtered {
            n: NormalizerView {
                stage2: self.n.stage2.skip(block),
                out: self.n.out + (f.output)(fed_out),
                ..self.n
            },
            fed_out,
            ..self
        }
    }

    /// Every block of the first stage has been filtered.
    spec fn input_settled(self, f: Filters) -> Filtered
        decreases self.n.stage1.len(),
    {
        if self.can_filter_input() {
            self.input_step(f).input_settled(f)
        } else {
            self
        }
    }

    /// Every block of the second stage has been filtered.
    spec fn output_settled(self, f: Filters) -> Filtered
        decreases self.n.stage2.len(),
    {
        if self.can_filter_output() {
            self.output_step(f).output_settled(f)
        } else {
            self
        }
    }

    /// More stereo samples have come from the device.
    spec fn with_more(self, mixed: Seq<Sample>) -> Filtered {
        if self.n.passthrough() {
            Filtered { n: self.n.with_inner(mixed), ..self }
        } else {
            Filtered {
                n: NormalizerView { stage1: self.n.stage1 + mixed, ..self.n },
                ..self
            }
        }
    }

    /// Less than a block of the internal normal form waits.
    spec fn tidy(self) -> bool {
        &&& self.n.inner.len() < CHUNK_FRAMES * 2
        &&& self.n.output_passthrough() ==> self.n.inner.len() == 0
    }
}

/// How the input is cut into pushes does not change what comes out: two pushes of whole frames
/// leave everything as one push of both does, the finished samples and those that wait
/// anywhere. Only the times may differ, which come with each push. A push without a frame
/// changes nothing.
pub proof fn lemma_cuts_do_not_matter(
    s: Filtered,
    a: Seq<Sample>,
    b: Seq<Sample>,
    anchor_a: PtsAnchor,
    anchor_b: PtsAnchor,
    anchor: PtsAnchor,
    f: Filters,
)
    requires
        s.n.valid(),
        s.n.pending is None,
        a.len() % s.n.in_channels as nat == 0,
    ensures
        ({
            let twice = s.pushed(a, anchor_a, f).pushed(b, anchor_b, f);
            let once = s.pushed(a + b, anchor, f);
            once == twice.anchored(once.n.anchor)
        }),
        s.n.pushed(seq![], anchor.pts_ns, anchor.out_frame) == s.n,
{
    let c = s.n.in_channels;
    let p = crate::normalizer::stereo(a, c);
    let q = crate::normalizer::stereo(b, c);
    lemma_push_adds_stereo(s, a, anchor_a);
    let first = s.pushed(a, anchor_a, f);
    let x = s.n.pushed(a, anchor_a.pts_ns, anchor_a.out_frame).anchor;
    lemma_anchor_is_carried(s.with_more(p), x, f);
    let bare = s.with_more(p).settled(f);
    assert(first == bare.anchored(x));
    lemma_tidy_is_kept(s.with_more(p), f);
    lemma_push_adds_stereo(first, b, anchor_b);
    let y = first.n.pushed(b, anchor_b.pts_ns, anchor_b.out_frame).anchor;
    assert(first.with_more(q).anchored(y) == bare.with_more(q).anchored(y));
    lemma_anchor_is_carried(bare.with_more(q), y, f);
    let twice = first.pushed(b, anchor_b, f);
    assert(twice == bare.with_more(q).settled(f).anchored(y));
    lemma_samples_can_wait(s.with_more(p), q, f);
    lemma_more_adds_up(s, p, q);
    lemma_stereo_joins(a, b, c);
    lemma_push_adds_stereo(s, a + b, anchor);
    let z = s.n.pushed(a + b, anchor.pts_ns, anchor.out_frame).anchor;
    lemma_anchor_is_carried(s.with_more(p + q), z, f);
    lemma_anchor_of_settled(s.with_more(p + q).anchored(z), f);
    assert(0nat / c as nat == 0) by (nonlinear_arith)
        requires
            c > 0,
    ;
}

/// Stereo samples of inputs in a row are those of the first and of the other.
proof fn lemma_stereo_joins(a: Seq<Sample>, b: Seq<Sample>, c: int)
    requires
        0 < c,
        a.len() % c as nat == 0,
    ensures
        crate::normalizer::stereo(a + b, c) == crate::normalizer::stereo(a, c)
            + crate::normalizer::stereo(b, c),
        crate::normalizer::stereo(a, c).len() % 2 == 0,
{
    let la = a.len() as int;
    let lb = b.len() as int;
    let fa = la / c;
    let fb = lb / c;
    assert(la == fa * c && (la + lb) / c == fa + fb && 0 <= fa && 0 <= fb) by (nonlinear_arith)
        requires
            0 < c,
            la % c == 0,
            fa == la / c,
            fb == lb / c,
            la >= 0,
            lb >= 0,
    ;
    let whole = crate::normalizer::stereo(a + b, c);
    let parts = crate::normalizer::stereo(a, c) + crate::normalizer::stereo(b, c);
    assert(whole.len() == 2 * (fa + fb));
    assert forall|i: int| 0 <= i < whole.len() implies #[trigger] whole[i] == parts[i] by {
        let g = i / 2;
        let r = i % 2;
        if i < 2 * fa {
            assert(g * c + c <= fa * c && 0 <= g * c) by (nonlinear_arith)
                requires
                    0 <= g < fa,
                    0 < c,
            ;
            assert(c == 1 ==> g < la) by (nonlinear_arith)
                requires
                    g < fa,
                    la == fa * c,
            ;
        } else {
            let j = i - 2 * fa;
            let h = j / 2;
            assert(g == fa + h && j % 2 == r);
            assert(g * c == fa * c + h * c) by (nonlinear_arith)
                requires
                    g == fa + h,
            ;
            assert(h * c + c <= lb && 0 <= h * c) by (nonlinear_arith)
                requires
                    0 <= h < fb,
                    fb == lb / c,
                    0 < c,
            ;
            assert(c == 1 ==> la == fa) by (nonlinear_arith)
                requires
                    la == fa * c,
            ;
            assert(c == 1 ==> h < lb) by (nonlinear_arith)
                requires
                    h < fb,
                    fb == lb / c,
                    0 < c,
                    0 <= h,
            ;
        }
    }
    assert(whole =~= parts);
}

/// Changing the channels of samples in a row is changing those of the first and of the other.
proof fn lemma_spread_joins(p: Seq<Sample>, q: Seq<Sample>, c: int)
    requires
        0 < c,
        p.len() % 2 == 0,
    ensures
        crate::normalizer::spread(p + q, c) == crate::normalizer::spread(p, c)
            + crate::normalizer::spread(q, c),
{
    let fp = p.len() as int / 2;
    let fq = q.len() as int / 2;
    assert(fp * c >= 0 && fq * c >= 0 && (fp + fq) * c == fp * c + fq * c) by (nonlinear_arith)
        requires
            fp >= 0,
            fq >= 0,
            c > 0,
    ;
    let whole = crate::normalizer::spread(p + q, c);
    let parts = crate::normalizer::spread(p, c) + crate::normalizer::spread(q, c);
    assert((p + q).len() / 2 == fp + fq);
    assert(whole.len() == (fp + fq) * c);
    assert forall|i: int| 0 <= i < whole.len() implies #[trigger] whole[i] == parts[i] by {
        if i < fp * c {
            if c > 2 {
                assert(0 <= i / c < fp) by (nonlinear_arith)
                    requires
                        0 <= i < fp * c,
                        c > 0,
                ;
            } else if c == 1 {
                assert(fp * c == fp);
            } else {
                assert(fp * c == 2 * fp);
            }
        } else {
            let j = i - fp * c;
            if c > 2 {
                assert(i / c == fp + j / c && 0 <= j / c < fq) by (nonlinear_arith)
                    requires
                        i == fp * c + j,
                        0 <= j < fq * c,
                        c > 0,
                ;
            } else if c == 1 {
                assert(fp * c == fp && fq * c == fq);
            } else {
                assert(fp * c == 2 * fp && fq * c == 2 * fq);
            }
        }
    }
    assert(whole =~= parts);
}

/// The samples of the whole blocks among `len` samples of the internal normal form.
proof fn lemma_whole_blocks(len: nat)
    ensures
        (len / (CHUNK_FRAMES * 2) as nat * (CHUNK_FRAMES * 2) as nat) as int == len as int / 1920int
            * 1920int,
        0 <= len as int / 1920int * 1920int <= len,
        len as int / 1920int * 1920int % 2 == 0,
        len < CHUNK_FRAMES * 2 ==> len as int / 1920int * 1920int == 0,
{
    let block = (CHUNK_FRAMES * 2) as nat;
    assert(block == 1920nat);
    assert(len / block == len as int / 1920int);
    assert(len / block * block == len as int / 1920int * 1920int);
}

/// Samples of the internal normal form that come in two pieces might as well have come in one.
proof fn lemma_inner_adds_up(n: NormalizerView, p: Seq<Sample>, q: Seq<Sample>)
    requires
        p.len() % 2 == 0,
    ensures
        n.with_inner(p).with_inner(q) == n.with_inner(p + q),
{
    let c = n.out_channels();
    let x = n.inner + p;
    let z = n.inner + (p + q);
    assert(z =~= x + q);
    if n.output_passthrough() {
        assert(Seq::<Sample>::empty() + q =~= q);
        assert((n.out + x) + q =~= n.out + z);
        assert(n.with_inner(p).with_inner(q) =~= n.with_inner(p + q));
    } else {
        let w1 = x.len() as int / 1920int * 1920int;
        let y = x.skip(w1) + q;
        let w2 = y.len() as int / 1920int * 1920int;
        let w = z.len() as int / 1920int * 1920int;
        lemma_whole_blocks(x.len());
        assert(y.len() == x.len() - w1 + q.len());
        lemma_whole_blocks(y.len());
        lemma_whole_blocks(z.len());
        assert(w == w1 + w2) by (nonlinear_arith)
            requires
                w1 == x.len() as int / 1920int * 1920int,
                w2 == y.len() as int / 1920int * 1920int,
                w == z.len() as int / 1920int * 1920int,
                y.len() == x.len() - w1 + q.len(),
                z.len() == x.len() + q.len(),
        ;
        assert(x.take(w1) + y.take(w2) =~= z.take(w));
        assert(y.skip(w2) =~= z.skip(w));
        lemma_spread_joins(x.take(w1), y.take(w2), c);
        let d1 = crate::normalizer::spread(x.take(w1), c);
        let d2 = crate::normalizer::spread(y.take(w2), c);
        assert((n.out + d1) + d2 =~= n.out + (d1 + d2));
        assert((n.stage2 + d1) + d2 =~= n.stage2 + (d1 + d2));
        assert(n.with_inner(p).with_inner(q) =~= n.with_inner(p + q));
    }
}

proof fn lemma_more_adds_up(s: Filtered, p: Seq<Sample>, q: Seq<Sample>)
    requires
        p.len() % 2 == 0,
    ensures
        s.with_more(p).with_more(q) == s.with_more(p + q),
{
    if s.n.passthrough() {
        lemma_inner_adds_up(s.n, p, q);
    } else {
        assert((s.n.stage1 + p) + q =~= s.n.stage1 + (p + q));
    }
}

/// A push adds its stereo samples, and the time that it brings where it holds a frame.
proof fn lemma_push_adds_stereo(s: Filtered, samples: Seq<Sample>, anchor: PtsAnchor)
    requires
        0 < s.n.in_channels,
        s.tidy(),
    ensures
        ({
            let n = s.n.pushed(samples, anchor.pts_ns, anchor.out_frame);
            let mixed = crate::normalizer::stereo(samples, s.n.in_channels);
            Filtered { n, ..s } == s.with_more(mixed).anchored(n.anchor)
        }),
{
    let mixed = crate::normalizer::stereo(samples, s.n.in_channels);
    let n = s.n.pushed(samples, anchor.pts_ns, anchor.out_frame);
    if samples.len() / s.n.in_channels as nat == 0 {
        assert(mixed =~= seq![]);
        assert(s.n.inner + mixed =~= s.n.inner);
        assert(s.n.stage1 + mixed =~= s.n.stage1);
        if !s.n.output_passthrough() {
            let c = s.n.out_channels();
            lemma_whole_blocks(s.n.inner.len());
            let done = crate::normalizer::spread(s.n.inner.take(0), c);
            assert(0 * c == 0);
            assert(done =~= seq![]);
            assert(s.n.inner.skip(0) =~= s.n.inner);
            assert(s.n.out + done =~= s.n.out);
            assert(s.n.stage2 + done =~= s.n.stage2);
        } else {
            assert(s.n.inner =~= seq![]);
            assert(s.n.out + s.n.inner =~= s.n.out);
        }
        assert(s.with_more(mixed).n =~= s.n);
    } else {
        assert(Filtered { n, ..s } =~= s.with_more(mixed).anchored(n.anchor));
    }
}

/// Filtering carries the known time along and does not look at it.
proof fn lemma_anchor_is_carried(s: Filtered, x: Option<PtsAnchor>, f: Filters)
    ensures
        s.anchored(x).settled(f) == s.settled(f).anchored(x),
    decreases s.n.stage1.len(), s.n.stage2.len(),
{
    if s.n.next_block() is Some {
        lemma_worked_shrinks(s);
        assert(s.anchored(x).worked(f) =~= s.worked(f).anchored(x));
        lemma_anchor_is_carried(s.worked(f), x, f);
    }
}

proof fn lemma_anchor_of_settled(s: Filtered, f: Filters)
    ensures
        s.settled(f).n.anchor == s.n.anchor,
    decreases s.n.stage1.len(), s.n.stage2.len(),
{
    if s.n.next_block() is Some {
        lemma_worked_shrinks(s);
        lemma_anchor_of_settled(s.worked(f), f);
    }
}

proof fn lemma_worked_shrinks(s: Filtered)
    requires
        s.n.next_block() is Some,
    ensures
        0 < s.n.input_block(),
        0 < s.n.output_block(),
{
}

/// Less than a block of the internal normal form waits, however much is filtered.
proof fn lemma_tidy_is_kept(s: Filtered, f: Filters)
    requires
        s.tidy(),
    ensures
        s.settled(f).tidy(),
        s.settled(f).n.in_channels == s.n.in_channels,
        s.settled(f).n.in_rate == s.n.in_rate,
    decreases s.n.stage1.len(), s.n.stage2.len(),
{
    if s.n.next_block() is Some {
        lemma_worked_shrinks(s);
        lemma_tidy_is_kept(s.worked(f), f);
    }
}

/// The blocks of the first stage can all be filtered before those of the second.
proof fn lemma_settled_by_stages(s: Filtered, f: Filters)
    requires
        s.n.pending is None,
    ensures
        s.settled(f) == s.input_settled(f).output_settled(f),
    decreases s.n.stage1.len(), s.n.stage2.len(),
{
    if s.can_filter_input() {
        assert(s.worked(f) =~= s.input_step(f));
        lemma_settled_by_stages(s.input_step(f), f);
    } else if s.can_filter_output() {
        assert(s.worked(f) =~= s.output_step(f));
        lemma_settled_by_stages(s.output_step(f), f);
    }
}

/// A block of the first stage is the same with more samples behind it.
proof fn lemma_input_can_wait(s: Filtered, m: Seq<Sample>, f: Filters)
    ensures
        s.with_more(m).input_settled(f) == s.input_settled(f).with_more(m).input_settled(f),
    decreases s.n.stage1.len(),
{
    if s.can_filter_input() {
        let block = s.n.input_block();
        assert((s.n.stage1 + m).take(block) =~= s.n.stage1.take(block));
        assert((s.n.stage1 + m).skip(block) =~= s.n.stage1.skip(block) + m);
        assert(s.with_more(m).input_step(f) =~= s.input_step(f).with_more(m));
        lemma_input_can_wait(s.input_step(f), m, f);
    }
}

/// A block of the second stage is the same with more behind it in either stage.
proof fn lemma_output_step_commutes(s: Filtered, m: Seq<Sample>, f: Filters)
    requires
        s.can_filter_output(),
    ensures
        s.with_more(m).can_filter_output(),
        s.with_more(m).output_step(f) == s.output_step(f).with_more(m),
        s.can_filter_input() ==> s.input_step(f).can_filter_output()
            && s.output_step(f).can_filter_input() && s.input_step(f).output_step(f)
            == s.output_step(f).input_step(f),
{
    let block = s.n.output_block();
    if s.n.passthrough() {
        lemma_output_block_is_kept(s.n, m);
        assert(s.with_more(m).output_step(f) =~= s.output_step(f).with_more(m));
    } else {
        assert(s.with_more(m).output_step(f) =~= s.output_step(f).with_more(m));
    }
    if s.can_filter_input() {
        let input = s.n.input_block();
        let fed_in = s.fed_in.push(s.n.stage1.take(input));
        let rest = NormalizerView { stage1: s.n.stage1.skip(input), ..s.n };
        lemma_output_block_is_kept(rest, (f.input)(fed_in));
        assert(s.input_step(f).output_step(f) =~= s.output_step(f).input_step(f));
    }
}

/// More of the internal normal form leaves the front of the second stage as it is.
proof fn lemma_output_block_is_kept(n: NormalizerView, m: Seq<Sample>)
    requires
        n.output.sample_rate != SAMPLE_RATE,
        n.stage2.len() >= n.output_block(),
    ensures
        ({
            let block = n.output_block();
            let after = n.with_inner(m);
            let done = after.stage2.skip(n.stage2.len() as int);
            &&& after.stage2 == n.stage2 + done
            &&& after.stage2.take(block) == n.stage2.take(block)
            &&& after.stage2.skip(block) == NormalizerView {
                stage2: n.stage2.skip(block),
                ..n
            }.with_inner(m).stage2
        }),
{
    let block = n.output_block();
    let after = n.with_inner(m);
    let done = after.stage2.skip(n.stage2.len() as int);
    assert(after.stage2 =~= n.stage2 + done);
    assert(after.stage2.take(block) =~= n.stage2.take(block));
    assert(after.stage2.skip(block) =~= n.stage2.skip(block) + done);
    let inner = n.inner + m;
    let whole = (inner.len() / (CHUNK_FRAMES * 2) as nat * (CHUNK_FRAMES * 2) as nat) as int;
    assert(done =~= crate::normalizer::spread(inner.take(whole), n.out_channels()));
}

/// A block of the second stage can be filtered before or after those of the first.
proof fn lemma_output_before_input(s: Filtered, f: Filters)
    requires
        s.can_filter_output(),
    ensures
        s.input_settled(f).can_filter_output(),
        s.output_step(f).input_settled(f) == s.input_settled(f).output_step(f),
    decreases s.n.stage1.len(),
{
    if s.can_filter_input() {
        lemma_output_step_commutes(s, seq![], f);
        lemma_output_before_input(s.input_step(f), f);
    }
}

proof fn lemma_output_can_wait(s: Filtered, m: Seq<Sample>, f: Filters)
    ensures
        s.output_settled(f).with_more(m).input_settled(f).output_settled(f) == s.with_more(
            m,
        ).input_settled(f).output_settled(f),
    decreases s.n.stage2.len(),
{
    if s.can_filter_output() {
        lemma_output_can_wait(s.output_step(f), m, f);
        lemma_output_step_commutes(s, m, f);
        lemma_output_before_input(s.with_more(m), f);
    }
}

/// Samples that come after everything is filtered might as well have waited before.
proof fn lemma_samples_can_wait(s: Filtered, m: Seq<Sample>, f: Filters)
    requires
        s.n.pending is None,
    ensures
        s.settled(f).with_more(m).settled(f) == s.with_more(m).settled(f),
{
    lemma_settled_by_stages(s, f);
    lemma_pending_stays_none(s, f);
    lemma_settled_by_stages(s.settled(f).with_more(m), f);
    lemma_settled_by_stages(s.with_more(m), f);
    lemma_output_can_wait(s.input_settled(f), m, f);
    lemma_input_can_wait(s, m, f);
}

proof fn lemma_pending_stays_none(s: Filtered, f: Filters)
    requires
        s.n.pending is None,
    ensures
        s.settled(f).n.pending is None,
    decreases s.n.stage1.len(), s.n.stage2.len(),
{
    if s.n.next_block() is Some {
        lemma_worked_shrinks(s);
        lemma_pending_stays_none(s.worked(f), f);
    }
}

} // verus!

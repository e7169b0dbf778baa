//! When a recording goes from one source to the next.

use crate::cli::args::Segment;
use crate::types::SourceKind;
use vstd::prelude::*;

verus! {

/// Nanoseconds of a second.
pub const SECOND_NS: u64 = 1_000_000_000;

/// How long the parts last together, in seconds.
pub open spec fn total_secs(segments: Seq<Segment>) -> int
    decreases segments.len(),
{
    if segments.len() == 0 {
        0
    } else {
        total_secs(segments.drop_last()) + segments.last().secs
    }
}

proof fn lemma_total_grows(segments: Seq<Segment>, k: int)
    requires
        0 <= k <= segments.len(),
    ensures
        0 <= total_secs(segments.take(k)) <= total_secs(segments),
    decreases segments.len() + (segments.len() - k),
{
    if k < segments.len() {
        lemma_total_grows(segments, k + 1);
        lemma_total_is_natural(segments.take(k));
        assert(segments.take(k + 1).drop_last() =~= segments.take(k));
    } else {
        assert(segments.take(k) =~= segments);
        lemma_total_is_natural(segments);
    }
}

proof fn lemma_total_is_natural(segments: Seq<Segment>)
    ensures
        0 <= total_secs(segments),
    decreases segments.len(),
{
    if segments.len() > 0 {
        lemma_total_is_natural(segments.drop_last());
    }
}

/// One switch: after how many seconds from the start, and to what.
#[derive(Debug, Clone, Copy, PartialEq, Eq, Structural)]
pub struct Switch {
    /// Seconds from the start.
    pub after: u64,
    /// What is recorded from there on.
    pub kind: SourceKind,
}

/// The switches of a schedule: one at the end of every part but the last.
pub open spec fn switches_of(segments: Seq<Segment>) -> Seq<Switch> {
    Seq::new(
        if segments.len() == 0 {
            0
        } else {
            (segments.len() - 1) as nat
        },
        |i: int|
            Switch {
                after: total_secs(segments.take(i + 1)) as u64,
                kind: segments[i + 1].kind,
            },
    )
}

/// The first switch from `from` on whose time has not come.
pub open spec fn reached(switches: Seq<Switch>, from: int, elapsed_ns: int) -> int
    decreases switches.len() - from,
{
    if 0 <= from < switches.len() && elapsed_ns >= switches[from].after * SECOND_NS {
        reached(switches, from + 1, elapsed_ns)
    } else {
        from
    }
}

/// Goes through the switches of a schedule.
#[derive(Debug)]
pub struct SwitchScheduler {
    next: usize,
    switches: Vec<Switch>,
}

impl SwitchScheduler {
    /// The switches.
    pub closed spec fn switches(self) -> Seq<Switch> {
        self.switches@
    }

    /// How many of them are done.
    pub closed spec fn done(self) -> int {
        self.next as int
    }

    /// No more are done than there are.
    pub closed spec fn wf(self) -> bool {
        self.next <= self.switches@.len()
    }

    /// The scheduler of a recording that starts with the first part.
    pub fn new(segments: &[Segment]) -> (s: SwitchScheduler)
        requires
            total_secs(segments@) <= u64::MAX,
        ensures
            s.wf(),
            s.switches() == switches_of(segments@),
            s.done() == 0,
    {
        let n: usize = segments.len();
        let mut switches: Vec<Switch> = Vec::new();
        let mut after: u64 = 0;
        let mut i: usize = 0;
        assert(segments@.take(0) =~= seq![]);
        while n > 0 && i < n - 1
            invariant
                n == segments@.len(),
                n == 0 ==> i == 0,
                n > 0 ==> i <= n - 1,
                after == total_secs(segments@.take(i as int)),
                total_secs(segments@) <= u64::MAX,
                switches@ =~= switches_of(segments@).take(i as int),
            decreases n - i,
        {
            proof {
                assert(segments@.take(i + 1).drop_last() =~= segments@.take(i as int));
                lemma_total_grows(segments@, i + 1);
            }
            after = after + segments[i].secs as u64;
            switches.push(Switch { after, kind: segments[i + 1].kind });
            i += 1;
        }
        assert(switches@ =~= switches_of(segments@));
        SwitchScheduler { next: 0, switches }
    }

    /// How long a schedule lasts, in seconds.
    pub fn total_duration(segments: &[Segment]) -> (secs: u64)
        requires
            total_secs(segments@) <= u64::MAX,
        ensures
            secs == total_secs(segments@),
    {
        let n: usize = segments.len();
        let mut secs: u64 = 0;
        let mut i: usize = 0;
        assert(segments@.take(0) =~= seq![]);
        while i < n
            invariant
                i <= n == segments@.len(),
                secs == total_secs(segments@.take(i as int)),
                total_secs(segments@) <= u64::MAX,
            decreases n - i,
        {
            proof {
                assert(segments@.take(i + 1).drop_last() =~= segments@.take(i as int));
                lemma_total_grows(segments@, i + 1);
            }
            secs = secs + segments[i].secs as u64;
            i += 1;
        }
        assert(segments@.take(n as int) =~= segments@);
        secs
    }

    /// The kinds of source to switch to by now, in order. A switch that fails is not tried
    /// again.
    pub fn tick(&mut self, elapsed_ns: u64) -> (due: Vec<SourceKind>)
        requires
            old(self).wf(),
        ensures
            final(self).wf(),
            final(self).switches() == old(self).switches(),
            final(self).done() == reached(old(self).switches(), old(self).done(), elapsed_ns as int),
            due@ == old(self).switches().subrange(
                old(self).done(),
                final(self).done(),
            ).map_values(|s: Switch| s.kind),
            old(self).done() <= final(self).done(),
    {
        let ghost from = self.next as int;
        let ghost all = self.switches@;
        let mut due: Vec<SourceKind> = Vec::new();
        while self.next < self.switches.len() && elapsed_ns as u128 >= self.switches[self.next].after
            as u128 * SECOND_NS as u128
            invariant
                0 <= from <= self.next <= all.len(),
                self.switches@ == all,
                reached(all, from, elapsed_ns as int) == reached(
                    all,
                    self.next as int,
                    elapsed_ns as int,
                ),
                due@ =~= all.subrange(from, self.next as int).map_values(|s: Switch| s.kind),
            decreases all.len() - self.next,
        {
            due.push(self.switches[self.next].kind);
            self.next = self.next + 1;
        }
        due
    }
}

/// The times of the switches of a schedule whose parts last at least a second each grow from
/// switch to switch, and all lie before the end.
pub proof fn lemma_switches_come_one_after_the_other(segments: Seq<Segment>, i: int, j: int)
    requires
        forall|k: int| 0 <= k < segments.len() ==> (#[trigger] segments[k]).secs >= 1,
        total_secs(segments) <= u64::MAX,
        0 <= i < j < switches_of(segments).len(),
    ensures
        switches_of(segments)[i].after < switches_of(segments)[j].after,
        switches_of(segments)[j].after < total_secs(segments),
{
    lemma_later_is_longer(segments, i + 1, j + 1);
    lemma_later_is_longer(segments, j + 1, segments.len() as int);
    assert(segments.take(segments.len() as int) =~= segments);
    lemma_total_grows(segments, i + 1);
    lemma_total_grows(segments, j + 1);
}

proof fn lemma_later_is_longer(segments: Seq<Segment>, i: int, j: int)
    requires
        forall|k: int| 0 <= k < segments.len() ==> (#[trigger] segments[k]).secs >= 1,
        0 <= i < j <= segments.len(),
    ensures
        total_secs(segments.take(i)) < total_secs(segments.take(j)),
    decreases j - i,
{
    assert(segments.take(j).drop_last() =~= segments.take(j - 1));
    assert(segments.take(j).last() == segments[j - 1]);
    if i < j - 1 {
        lemma_later_is_longer(segments, i, j - 1);
    }
}

/// Looking twice is looking once: what is due at a later moment is what was due at an earlier
/// one, and then what came in between. So no switch is made twice, and none is passed over.
pub proof fn lemma_every_switch_is_made_once(
    switches: Seq<Switch>,
    from: int,
    earlier_ns: int,
    later_ns: int,
)
    requires
        0 <= from <= switches.len(),
        earlier_ns <= later_ns,
    ensures
        reached(switches, reached(switches, from, earlier_ns), later_ns) == reached(
            switches,
            from,
            later_ns,
        ),
        from <= reached(switches, from, earlier_ns) <= reached(switches, from, later_ns)
            <= switches.len(),
    decreases switches.len() - from,
{
    if from < switches.len() && earlier_ns >= switches[from].after * SECOND_NS {
        lemma_every_switch_is_made_once(switches, from + 1, earlier_ns, later_ns);
    } else {
        lemma_reached_is_in_range(switches, from, later_ns);
    }
}

proof fn lemma_reached_is_in_range(switches: Seq<Switch>, from: int, now: int)
    requires
        0 <= from <= switches.len(),
    ensures
        from <= reached(switches, from, now) <= switches.len(),
    decreases switches.len() - from,
{
    if from < switches.len() && now >= switches[from].after * SECOND_NS {
        lemma_reached_is_in_range(switches, from + 1, now);
    }
}

/// A tick makes the switches of a whole schedule that are due, and no others: with `made` made
/// by the first one, part `i` is switched to exactly where the parts before it are over, the
/// parts come in order, the first one needs no switch and the end of the last one is none. A
/// second tick at the same moment makes none.
pub proof fn lemma_a_tick_makes_what_is_due(segments: Seq<Segment>, elapsed_ns: int)
    requires
        total_secs(segments) <= u64::MAX,
    ensures
        ({
            let switches = switches_of(segments);
            let made = reached(switches, 0, elapsed_ns);
            &&& 0 <= made <= switches.len()
            &&& switches.len() == (if segments.len() == 0 {
                0
            } else {
                segments.len() - 1
            })
            &&& forall|i: int|
                1 <= i < segments.len() ==> (i <= made <==> elapsed_ns >= #[trigger] total_secs(
                    segments.take(i),
                ) * SECOND_NS)
            &&& switches.subrange(0, made).map_values(|s: Switch| s.kind) == Seq::new(
                made as nat,
                |k: int| segments[k + 1].kind,
            )
            &&& reached(switches, made, elapsed_ns) == made
        }),
{
    let switches = switches_of(segments);
    let made = reached(switches, 0, elapsed_ns);
    lemma_reached_is_in_range(switches, 0, elapsed_ns);
    lemma_every_switch_is_made_once(switches, 0, elapsed_ns, elapsed_ns);
    assert forall|i: int| 1 <= i < segments.len() implies (i <= made <==> elapsed_ns
        >= #[trigger] total_secs(segments.take(i)) * SECOND_NS) by {
        lemma_total_grows(segments, i);
        assert(switches[i - 1].after == total_secs(segments.take(i)));
        if i <= made {
            lemma_passed_is_due(switches, 0, elapsed_ns, i - 1);
        } else {
            lemma_next_is_not_due(switches, 0, elapsed_ns);
            lemma_total_grows(segments, made + 1);
            assert(switches[made].after == total_secs(segments.take(made + 1)));
            lemma_total_grows(segments.take(i), made + 1);
            assert(segments.take(i).take(made + 1) =~= segments.take(made + 1));
        }
    }
    assert(switches.subrange(0, made).map_values(|s: Switch| s.kind) =~= Seq::new(
        made as nat,
        |k: int| segments[k + 1].kind,
    ));
}

/// Every switch that is passed over is due.
proof fn lemma_passed_is_due(switches: Seq<Switch>, from: int, now: int, k: int)
    requires
        0 <= from <= k < reached(switches, from, now),
    ensures
        k < switches.len(),
        now >= switches[k].after * SECOND_NS,
    decreases switches.len() - from,
{
    if from < k {
        lemma_passed_is_due(switches, from + 1, now, k);
    }
}

/// The next switch, if there is one, is not due.
proof fn lemma_next_is_not_due(switches: Seq<Switch>, from: int, now: int)
    requires
        0 <= from,
    ensures
        reached(switches, from, now) < switches.len() ==> now < switches[reached(
            switches,
            from,
            now,
        )].after * SECOND_NS,
    decreases switches.len() - from,
{
    if from < switches.len() && now >= switches[from].after * SECOND_NS {
        lemma_next_is_not_due(switches, from + 1, now);
    }
}

/// Together the parts last as long as one after the other.
pub proof fn lemma_parts_add_up(segments: Seq<Segment>, part: Segment)
    ensures
        total_secs(segments.push(part)) == total_secs(segments) + part.secs,
        total_secs(seq![]) == 0,
{
    assert(segments.push(part).drop_last() =~= segments);
}

/// Every part but the first is switched to, when all the parts before it are over.
pub proof fn lemma_every_other_part_is_switched_to(segments: Seq<Segment>, i: int)
    requires
        0 < i < segments.len(),
        total_secs(segments) <= u64::MAX,
    ensures
        switches_of(segments).len() == segments.len() - 1,
        switches_of(segments)[i - 1].kind == segments[i].kind,
        switches_of(segments)[i - 1].after == total_secs(segments.take(i)),
        i == 1 ==> switches_of(segments)[0].after == segments[0].secs,
        i > 1 ==> switches_of(segments)[i - 1].after == switches_of(segments)[i - 2].after
            + segments[i - 1].secs,
{
    lemma_total_grows(segments, i);
    lemma_total_grows(segments, i - 1);
    assert(segments.take(i).drop_last() =~= segments.take(i - 1));
    if i == 1 {
        assert(segments.take(0) =~= seq![]);
    }
}

/// Of the switches that are to come all those are made that are due, that is, whose seconds have
/// passed, up to the first one that is not.
pub proof fn lemma_due_switches_are_made(switches: Seq<Switch>, from: int, elapsed_ns: int, k: int)
    requires
        0 <= from <= switches.len(),
    ensures
        ({
            let to = reached(switches, from, elapsed_ns);
            &&& from <= to <= switches.len()
            &&& from <= k < to ==> elapsed_ns >= switches[k].after * 1_000_000_000
            &&& to < switches.len() ==> elapsed_ns < switches[to].after * 1_000_000_000
        }),
{
    lemma_reached_is_in_range(switches, from, elapsed_ns);
    lemma_next_is_not_due(switches, from, elapsed_ns);
    if from <= k < reached(switches, from, elapsed_ns) {
        lemma_passed_is_due(switches, from, elapsed_ns, k);
    }
}

/// A tick returns the kinds of the switches that are due and were not made, in order, and makes
/// them.
pub proof fn lemma_a_tick_returns_what_is_due(
    s: &mut SwitchScheduler,
    elapsed_ns: u64,
    due: Vec<SourceKind>,
    k: int,
)
    requires
        old(s).wf(),
        call_ensures(SwitchScheduler::tick, (s, elapsed_ns), due),
    ensures
        final(s).switches() == old(s).switches(),
        due@.len() == final(s).done() - old(s).done(),
        0 <= k < due@.len() ==> due@[k] == old(s).switches()[old(s).done() + k].kind && elapsed_ns
            >= old(s).switches()[old(s).done() + k].after * 1_000_000_000,
        final(s).done() < final(s).switches().len() ==> elapsed_ns < final(s).switches()[final(
            s).done()].after * 1_000_000_000,
{
    lemma_due_switches_are_made(
        old(s).switches(),
        old(s).done(),
        elapsed_ns as int,
        old(s).done() + k,
    );
}

} // verus!

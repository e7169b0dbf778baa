//! Pairing of output ports with input ports.

use crate::text::same_text;
use vstd::prelude::*;

verus! {

/// Ports as pairs of an id and a channel name.
pub open spec fn ports_view(ports: Seq<(u32, String)>) -> Seq<(u32, Seq<char>)> {
    Seq::new(ports.len(), |i: int| (ports[i].0, ports[i].1@))
}

/// The first input from `i` on that is free and has the channel name `channel`.
pub open spec fn free_named(
    ins: Seq<(u32, Seq<char>)>,
    used: Seq<bool>,
    channel: Seq<char>,
    i: int,
) -> Option<int>
    decreases ins.len() - i,
{
    if i < 0 || i >= ins.len() {
        None
    } else if !used[i] && ins[i].1 == channel {
        Some(i)
    } else {
        free_named(ins, used, channel, i + 1)
    }
}

/// The first input from `i` on that is free.
pub open spec fn free_any(used: Seq<bool>, i: int) -> Option<int>
    decreases used.len() - i,
{
    if i < 0 || i >= used.len() {
        None
    } else if !used[i] {
        Some(i)
    } else {
        free_any(used, i + 1)
    }
}

/// Links made so far, and which inputs they use.
pub ghost struct Pairing {
    pub pairs: Seq<(u32, u32)>,
    pub used: Seq<bool>,
}

impl Pairing {
    /// The output `out` is linked to input `i`.
    pub open spec fn with(self, out: u32, ins: Seq<(u32, Seq<char>)>, i: int) -> Pairing {
        Pairing { pairs: self.pairs.push((out, ins[i].0)), used: self.used.update(i, true) }
    }

    /// Whether some link starts at `out`.
    pub open spec fn starts_at(self, out: u32) -> bool {
        exists|k: int| 0 <= k < self.pairs.len() && (#[trigger] self.pairs[k]).0 == out
    }
}

/// Every output with a channel name takes the first free input of the same name.
pub open spec fn by_name(outs: Seq<(u32, Seq<char>)>, ins: Seq<(u32, Seq<char>)>) -> Pairing
    decreases outs.len(),
{
    if outs.len() == 0 {
        Pairing { pairs: Seq::empty(), used: Seq::new(ins.len(), |i: int| false) }
    } else {
        let before = by_name(outs.drop_last(), ins);
        let (out, channel) = outs.last();
        match free_named(ins, before.used, channel, 0) {
            Some(i) if channel.len() > 0 => before.with(out, ins, i),
            _ => before,
        }
    }
}

/// A single output also feeds the first `n` inputs as far as they are free.
pub open spec fn spread(out: u32, ins: Seq<(u32, Seq<char>)>, from: Pairing, n: int) -> Pairing
    decreases n,
{
    if n <= 0 {
        from
    } else {
        let before = spread(out, ins, from, n - 1);
        if before.used[n - 1] {
            before
        } else {
            before.with(out, ins, n - 1)
        }
    }
}

/// Every output that no link starts at takes the first free input.
pub open spec fn by_order(
    outs: Seq<(u32, Seq<char>)>,
    ins: Seq<(u32, Seq<char>)>,
    from: Pairing,
) -> Pairing
    decreases outs.len(),
{
    if outs.len() == 0 {
        from
    } else {
        let before = by_order(outs.drop_last(), ins, from);
        let out = outs.last().0;
        match free_any(before.used, 0) {
            Some(i) if !before.starts_at(out) => before.with(out, ins, i),
            _ => before,
        }
    }
}

/// The links to make: first by channel name; then a single output feeds every input that is
/// left, and of several outputs those that are left take the inputs that are left in order.
pub open spec fn paired(outs: Seq<(u32, Seq<char>)>, ins: Seq<(u32, Seq<char>)>) -> Pairing {
    let named = by_name(outs, ins);
    if outs.len() == 1 {
        spread(outs[0].0, ins, named, ins.len() as int)
    } else {
        by_order(outs, ins, named)
    }
}

fn find_named(ins: &[(u32, String)], used: &Vec<bool>, channel: &String) -> (r: Option<usize>)
    requires
        used@.len() == ins@.len(),
    ensures
        match r {
            Some(i) => free_named(ports_view(ins@), used@, channel@, 0) == Some(i as int) && i
                < ins@.len(),
            None => free_named(ports_view(ins@), used@, channel@, 0) is None,
        },
{
    let mut i: usize = 0;
    while i < ins.len()
        invariant
            i <= ins@.len(),
            used@.len() == ins@.len(),
            free_named(ports_view(ins@), used@, channel@, 0) == free_named(
                ports_view(ins@),
                used@,
                channel@,
                i as int,
            ),
        decreases ins.len() - i,
    {
        if !used[i] && same_text(ins[i].1.as_str(), channel.as_str()) {
            return Some(i);
        }
        i += 1;
    }
    None
}

fn find_free(used: &Vec<bool>) -> (r: Option<usize>)
    ensures
        match r {
            Some(i) => free_any(used@, 0) == Some(i as int) && i < used@.len(),
            None => free_any(used@, 0) is None,
        },
{
    let mut i: usize = 0;
    while i < used.len()
        invariant
            i <= used@.len(),
            free_any(used@, 0) == free_any(used@, i as int),
        decreases used.len() - i,
    {
        if !used[i] {
            return Some(i);
        }
        i += 1;
    }
    None
}

fn starts_at(pairs: &Vec<(u32, u32)>, out: u32) -> (r: bool)
    ensures
        r == exists|k: int| 0 <= k < pairs@.len() && (#[trigger] pairs@[k]).0 == out,
{
    let mut k: usize = 0;
    while k < pairs.len()
        invariant
            k <= pairs@.len(),
            forall|j: int| 0 <= j < k ==> (#[trigger] pairs@[j]).0 != out,
        decreases pairs.len() - k,
    {
        if pairs[k].0 == out {
            assert(pairs@[k as int].0 == out);
            return true;
        }
        k += 1;
    }
    false
}

/// The links between output and input ports, as pairs of an output id and an input id. Ports
/// with the same channel name are linked first; a single output is copied to every input;
/// what has no counterpart by name is linked in order.
pub fn pair_ports(out_ports: &[(u32, String)], in_ports: &[(u32, String)]) -> (pairs: Vec<
    (u32, u32),
>)
    ensures
        pairs@ == paired(ports_view(out_ports@), ports_view(in_ports@)).pairs,
{
    let mut pairs: Vec<(u32, u32)> = Vec::new();
    let mut used_in: Vec<bool> = Vec::new();
    let ghost outs = ports_view(out_ports@);
    let ghost ins = ports_view(in_ports@);
    let mut j: usize = 0;
    while j < in_ports.len()
        invariant
            j <= in_ports@.len(),
            used_in@ == Seq::new(j as nat, |i: int| false),
        decreases in_ports.len() - j,
    {
        used_in.push(false);
        j += 1;
    }
    let mut i: usize = 0;
    assert(outs.take(0) =~= Seq::empty());
    while i < out_ports.len()
        invariant
            i <= out_ports@.len(),
            outs == ports_view(out_ports@),
            ins == ports_view(in_ports@),
            used_in@.len() == in_ports@.len(),
            (Pairing { pairs: pairs@, used: used_in@ }) == by_name(outs.take(i as int), ins),
        decreases out_ports.len() - i,
    {
        proof {
            assert(outs.take(i + 1).drop_last() == outs.take(i as int));
            assert(outs.take(i + 1).last() == outs[i as int]);
        }
        let channel: &String = &out_ports[i].1;
        if !channel.as_str().is_empty() {
            if let Some(idx) = find_named(in_ports, &used_in, channel) {
                used_in.set(idx, true);
                pairs.push((out_ports[i].0, in_ports[idx].0));
            }
        }
        i += 1;
    }
    assert(outs.take(outs.len() as int) == outs);
    let ghost named = by_name(outs, ins);
    if out_ports.len() == 1 {
        let out: u32 = out_ports[0].0;
        let mut k: usize = 0;
        while k < in_ports.len()
            invariant
                k <= in_ports@.len(),
                ins == ports_view(in_ports@),
                used_in@.len() == in_ports@.len(),
                (Pairing { pairs: pairs@, used: used_in@ }) == spread(out, ins, named, k as int),
            decreases in_ports.len() - k,
        {
            if !used_in[k] {
                used_in.set(k, true);
                pairs.push((out, in_ports[k].0));
            }
            k += 1;
        }
        return pairs;
    }
    let mut k: usize = 0;
    assert(outs.take(0) =~= Seq::empty());
    while k < out_ports.len()
        invariant
            k <= out_ports@.len(),
            outs == ports_view(out_ports@),
            ins == ports_view(in_ports@),
            used_in@.len() == in_ports@.len(),
            (Pairing { pairs: pairs@, used: used_in@ }) == by_order(
                outs.take(k as int),
                ins,
                named,
            ),
        decreases out_ports.len() - k,
    {
        proof {
            assert(outs.take(k + 1).drop_last() == outs.take(k as int));
            assert(outs.take(k + 1).last() == outs[k as int]);
        }
        if !starts_at(&pairs, out_ports[k].0) {
            if let Some(idx) = find_free(&used_in) {
                used_in.set(idx, true);
                pairs.push((out_ports[k].0, in_ports[idx].0));
            }
        }
        k += 1;
    }
    pairs
}

/// Whether no two ports share an id.
pub open spec fn distinct_ids(ports: Seq<(u32, Seq<char>)>) -> bool {
    forall|i: int, j: int|
        0 <= i < j < ports.len() ==> (#[trigger] ports[i]).0 != (#[trigger] ports[j]).0
}

/// Whether every link runs from an output to an input that is marked as used, and no input
/// has two links.
pub open spec fn sound(
    outs: Seq<(u32, Seq<char>)>,
    ins: Seq<(u32, Seq<char>)>,
    p: Pairing,
) -> bool {
    &&& p.used.len() == ins.len()
    &&& forall|k: int| 0 <= k < p.pairs.len() ==> has_id(outs, (#[trigger] p.pairs[k]).0)
    &&& forall|k: int|
        0 <= k < p.pairs.len() ==> has_used_id(ins, p.used, (#[trigger] p.pairs[k]).1)
    &&& forall|k: int, l: int|
        0 <= k < l < p.pairs.len() ==> (#[trigger] p.pairs[k]).1 != (#[trigger] p.pairs[l]).1
}

/// Whether some port has this id.
pub open spec fn has_id(ports: Seq<(u32, Seq<char>)>, id: u32) -> bool {
    exists|i: int| 0 <= i < ports.len() && (#[trigger] ports[i]).0 == id
}

/// Whether some used port has this id.
pub open spec fn has_used_id(ports: Seq<(u32, Seq<char>)>, used: Seq<bool>, id: u32) -> bool {
    exists|i: int| 0 <= i < ports.len() && used[i] && (#[trigger] ports[i]).0 == id
}

proof fn lemma_with_is_sound(
    outs: Seq<(u32, Seq<char>)>,
    ins: Seq<(u32, Seq<char>)>,
    p: Pairing,
    out: u32,
    i: int,
)
    requires
        distinct_ids(ins),
        sound(outs, ins, p),
        has_id(outs, out),
        0 <= i < ins.len(),
        !p.used[i],
    ensures
        sound(outs, ins, p.with(out, ins, i)),
{
    let q = p.with(out, ins, i);
    assert(ins[i].0 == q.pairs.last().1 && q.used[i]);
    assert forall|k: int| 0 <= k < q.pairs.len() implies has_used_id(
        ins,
        q.used,
        (#[trigger] q.pairs[k]).1,
    ) by {
        if k < p.pairs.len() {
            assert(q.pairs[k] == p.pairs[k]);
            let w = choose|w: int|
                0 <= w < ins.len() && p.used[w] && (#[trigger] ins[w]).0 == p.pairs[k].1;
            assert(q.used[w]);
        }
    }
    assert forall|k: int| 0 <= k < q.pairs.len() implies has_id(
        outs,
        (#[trigger] q.pairs[k]).0,
    ) by {
        if k < p.pairs.len() {
            assert(q.pairs[k] == p.pairs[k]);
        }
    }
    assert forall|k: int, l: int| 0 <= k < l < q.pairs.len() implies (#[trigger] q.pairs[k]).1 != (
    #[trigger] q.pairs[l]).1 by {
        assert(q.pairs[k] == p.pairs[k]);
        if l < p.pairs.len() {
            assert(q.pairs[l] == p.pairs[l]);
        } else {
            let w = choose|w: int|
                0 <= w < ins.len() && p.used[w] && (#[trigger] ins[w]).0 == p.pairs[k].1;
            assert(w != i);
        }
    }
}

proof fn lemma_free_named(
    ins: Seq<(u32, Seq<char>)>,
    used: Seq<bool>,
    channel: Seq<char>,
    from: int,
)
    requires
        0 <= from,
        used.len() == ins.len(),
    ensures
        match free_named(ins, used, channel, from) {
            Some(i) => from <= i < ins.len() && !used[i] && ins[i].1 == channel,
            None => forall|i: int| from <= i < ins.len() ==> used[i] || (#[trigger] ins[i]).1 != channel,
        },
    decreases ins.len() - from,
{
    if from < ins.len() && !(!used[from] && ins[from].1 == channel) {
        lemma_free_named(ins, used, channel, from + 1);
    }
}

proof fn lemma_free_any(used: Seq<bool>, from: int)
    requires
        0 <= from,
    ensures
        match free_any(used, from) {
            Some(i) => from <= i < used.len() && !used[i],
            None => forall|i: int| from <= i < used.len() ==> #[trigger] used[i],
        },
    decreases used.len() - from,
{
    if from < used.len() && used[from] {
        lemma_free_any(used, from + 1);
    }
}

proof fn lemma_by_name_is_sound(
    outs: Seq<(u32, Seq<char>)>,
    ins: Seq<(u32, Seq<char>)>,
    n: int,
)
    requires
        distinct_ids(ins),
        0 <= n <= outs.len(),
    ensures
        sound(outs, ins, by_name(outs.take(n), ins)),
    decreases n,
{
    if n > 0 {
        lemma_by_name_is_sound(outs, ins, n - 1);
        assert(outs.take(n).drop_last() == outs.take(n - 1));
        let before = by_name(outs.take(n - 1), ins);
        lemma_free_named(ins, before.used, outs[n - 1].1, 0);
        assert(has_id(outs, outs[n - 1].0));
        if let Some(i) = free_named(ins, before.used, outs[n - 1].1, 0) {
            lemma_with_is_sound(outs, ins, before, outs[n - 1].0, i);
        }
    }
}

proof fn lemma_spread_is_sound(
    outs: Seq<(u32, Seq<char>)>,
    ins: Seq<(u32, Seq<char>)>,
    out: u32,
    from: Pairing,
    n: int,
)
    requires
        distinct_ids(ins),
        sound(outs, ins, from),
        has_id(outs, out),
        0 <= n <= ins.len(),
    ensures
        sound(outs, ins, spread(out, ins, from, n)),
        forall|i: int| 0 <= i < n ==> #[trigger] spread(out, ins, from, n).used[i],
    decreases n,
{
    if n > 0 {
        lemma_spread_is_sound(outs, ins, out, from, n - 1);
        let before = spread(out, ins, from, n - 1);
        if !before.used[n - 1] {
            lemma_with_is_sound(outs, ins, before, out, n - 1);
        }
        assert forall|i: int| 0 <= i < n implies #[trigger] spread(out, ins, from, n).used[i] by {
            if i < n - 1 {
                assert(before.used[i]);
            }
        }
    }
}

proof fn lemma_by_order_is_sound(
    outs: Seq<(u32, Seq<char>)>,
    ins: Seq<(u32, Seq<char>)>,
    from: Pairing,
    n: int,
)
    requires
        distinct_ids(ins),
        sound(outs, ins, from),
        0 <= n <= outs.len(),
    ensures
        sound(outs, ins, by_order(outs.take(n), ins, from)),
        (forall|i: int|
            0 <= i < ins.len() ==> #[trigger] by_order(outs.take(n), ins, from).used[i]) || (forall|
            j: int,
        |
            0 <= j < n ==> by_order(outs.take(n), ins, from).starts_at((#[trigger] outs[j]).0)),
    decreases n,
{
    if n > 0 {
        lemma_by_order_is_sound(outs, ins, from, n - 1);
        assert(outs.take(n).drop_last() == outs.take(n - 1));
        let before = by_order(outs.take(n - 1), ins, from);
        let after = by_order(outs.take(n), ins, from);
        let out = outs[n - 1].0;
        assert(has_id(outs, out));
        lemma_free_any(before.used, 0);
        match free_any(before.used, 0) {
            Some(i) => {
                assert(!before.used[i]);
                if !before.starts_at(out) {
                    lemma_with_is_sound(outs, ins, before, out, i);
                    assert(after.pairs.last().0 == out);
                    assert forall|j: int| 0 <= j < n implies after.starts_at(
                        (#[trigger] outs[j]).0,
                    ) by {
                        if j < n - 1 {
                            assert(before.starts_at(outs[j].0));
                            let k = choose|k: int|
                                0 <= k < before.pairs.len() && (#[trigger] before.pairs[k]).0
                                    == outs[j].0;
                            assert(after.pairs[k] == before.pairs[k]);
                        }
                    }
                } else {
                    assert forall|j: int| 0 <= j < n implies after.starts_at(
                        (#[trigger] outs[j]).0,
                    ) by {
                        if j < n - 1 {
                            assert(before.starts_at(outs[j].0));
                        }
                    }
                }
            },
            None => {
                assert(after == before);
            },
        }
    }
}

/// Every link runs from a given output to a given input, and no input gets two links.
pub proof fn lemma_inputs_are_used_once(
    outs: Seq<(u32, Seq<char>)>,
    ins: Seq<(u32, Seq<char>)>,
)
    requires
        distinct_ids(ins),
    ensures
        sound(outs, ins, paired(outs, ins)),
{
    lemma_by_name_is_sound(outs, ins, outs.len() as int);
    assert(outs.take(outs.len() as int) == outs);
    let named = by_name(outs, ins);
    if outs.len() == 1 {
        assert(has_id(outs, outs[0].0));
        lemma_spread_is_sound(outs, ins, outs[0].0, named, ins.len() as int);
    } else {
        lemma_by_order_is_sound(outs, ins, named, outs.len() as int);
    }
}

/// Nothing is left over on both sides: a single output feeds every input, and of several
/// outputs either each has a link or every input is used.
pub proof fn lemma_nothing_is_left_on_both_sides(
    outs: Seq<(u32, Seq<char>)>,
    ins: Seq<(u32, Seq<char>)>,
)
    requires
        distinct_ids(ins),
    ensures
        outs.len() == 1 ==> forall|i: int|
            0 <= i < ins.len() ==> #[trigger] paired(outs, ins).used[i],
        outs.len() != 1 ==> (forall|i: int|
            0 <= i < ins.len() ==> #[trigger] paired(outs, ins).used[i]) || (forall|j: int|
            0 <= j < outs.len() ==> paired(outs, ins).starts_at((#[trigger] outs[j]).0)),
{
    lemma_by_name_is_sound(outs, ins, outs.len() as int);
    assert(outs.take(outs.len() as int) == outs);
    let named = by_name(outs, ins);
    if outs.len() == 1 {
        assert(has_id(outs, outs[0].0));
        lemma_spread_is_sound(outs, ins, outs[0].0, named, ins.len() as int);
    } else {
        lemma_by_order_is_sound(outs, ins, named, outs.len() as int);
    }
}

/// There are links exactly where there are ports on both sides.
pub proof fn lemma_links_exist_iff_ports_do(
    outs: Seq<(u32, Seq<char>)>,
    ins: Seq<(u32, Seq<char>)>,
)
    requires
        distinct_ids(ins),
    ensures
        paired(outs, ins).pairs.len() > 0 <==> outs.len() > 0 && ins.len() > 0,
{
    lemma_inputs_are_used_once(outs, ins);
    lemma_nothing_is_left_on_both_sides(outs, ins);
    let p = paired(outs, ins);
    if p.pairs.len() > 0 {
        assert(has_id(outs, p.pairs[0].0));
        assert(has_used_id(ins, p.used, p.pairs[0].1));
    } else if outs.len() > 0 && ins.len() > 0 {
        lemma_used_needs_pairs(outs, ins);
        assert(!p.used[0]);
        assert(p.starts_at(outs[0].0));
    }
}

proof fn lemma_used_needs_pairs(outs: Seq<(u32, Seq<char>)>, ins: Seq<(u32, Seq<char>)>)
    requires
        distinct_ids(ins),
    ensures
        paired(outs, ins).pairs.len() == 0 ==> forall|i: int|
            0 <= i < ins.len() ==> !(#[trigger] paired(outs, ins).used[i]),
{
    lemma_by_name_used(outs, ins, outs.len() as int);
    assert(outs.take(outs.len() as int) == outs);
    let named = by_name(outs, ins);
    if outs.len() == 1 {
        lemma_spread_used(outs[0].0, ins, named, ins.len() as int);
    } else {
        lemma_by_order_used(outs, ins, named, outs.len() as int);
    }
}

spec fn clean(ins: Seq<(u32, Seq<char>)>, p: Pairing) -> bool {
    &&& p.used.len() == ins.len()
    &&& p.pairs.len() == 0 ==> forall|i: int| 0 <= i < ins.len() ==> !(#[trigger] p.used[i])
}

proof fn lemma_by_name_used(outs: Seq<(u32, Seq<char>)>, ins: Seq<(u32, Seq<char>)>, n: int)
    requires
        0 <= n <= outs.len(),
    ensures
        clean(ins, by_name(outs.take(n), ins)),
    decreases n,
{
    if n > 0 {
        lemma_by_name_used(outs, ins, n - 1);
        assert(outs.take(n).drop_last() == outs.take(n - 1));
        lemma_free_named(ins, by_name(outs.take(n - 1), ins).used, outs[n - 1].1, 0);
    }
}

proof fn lemma_spread_used(out: u32, ins: Seq<(u32, Seq<char>)>, from: Pairing, n: int)
    requires
        clean(ins, from),
        0 <= n <= ins.len(),
    ensures
        clean(ins, spread(out, ins, from, n)),
    decreases n,
{
    if n > 0 {
        lemma_spread_used(out, ins, from, n - 1);
    }
}

proof fn lemma_by_order_used(
    outs: Seq<(u32, Seq<char>)>,
    ins: Seq<(u32, Seq<char>)>,
    from: Pairing,
    n: int,
)
    requires
        clean(ins, from),
        0 <= n <= outs.len(),
    ensures
        clean(ins, by_order(outs.take(n), ins, from)),
    decreases n,
{
    if n > 0 {
        lemma_by_order_used(outs, ins, from, n - 1);
        assert(outs.take(n).drop_last() == outs.take(n - 1));
        lemma_free_any(by_order(outs.take(n - 1), ins, from).used, 0);
    }
}

/// Two stereo pairs are linked left to left and right to right, whatever their order.
pub proof fn lemma_stereo_keeps_its_sides(l: u32, r: u32, il: u32, ir: u32, a: Seq<char>, b: Seq<char>)
    requires
        a != b,
        a.len() > 0,
        b.len() > 0,
    ensures
        paired(seq![(l, a), (r, b)], seq![(il, a), (ir, b)]).pairs == seq![(l, il), (r, ir)],
        paired(seq![(l, a), (r, b)], seq![(ir, b), (il, a)]).pairs == seq![(l, il), (r, ir)],
{
    reveal_with_fuel(by_name, 4);
    reveal_with_fuel(by_order, 4);
    reveal_with_fuel(free_named, 4);
    reveal_with_fuel(free_any, 4);
    let outs = seq![(l, a), (r, b)];
    assert(outs.drop_last() == seq![(l, a)]);
    assert(outs.drop_last().drop_last() == Seq::<(u32, Seq<char>)>::empty());
    let ins1 = seq![(il, a), (ir, b)];
    let ins2 = seq![(ir, b), (il, a)];
    assert(free_any(by_name(outs, ins1).used, 0) is None);
    assert(free_any(by_name(outs, ins2).used, 0) is None);
    assert(paired(outs, ins1).pairs =~= seq![(l, il), (r, ir)]);
    assert(paired(outs, ins2).pairs =~= seq![(l, il), (r, ir)]);
}

/// An output with a channel name is linked to the first free input of that name; an output
/// without a name, or without such an input, is not linked by name.
pub proof fn lemma_names_are_matched_in_order(
    outs: Seq<(u32, Seq<char>)>,
    out: (u32, Seq<char>),
    ins: Seq<(u32, Seq<char>)>,
    k: int,
)
    requires
        0 <= k <= ins.len(),
        by_name(outs, ins).used.len() == ins.len(),
        forall|j: int|
            0 <= j < k ==> by_name(outs, ins).used[j] || (#[trigger] ins[j]).1 != out.1,
        k < ins.len() ==> !by_name(outs, ins).used[k] && ins[k].1 == out.1,
    ensures
        ({
            let before = by_name(outs, ins);
            let after = by_name(outs.push(out), ins);
            &&& k < ins.len() && out.1.len() > 0 ==> after.pairs == before.pairs.push(
                (out.0, ins[k].0),
            ) && after.used == before.used.update(k, true)
            &&& k == ins.len() || out.1.len() == 0 ==> after == before
        }),
{
    assert(outs.push(out).drop_last() =~= outs);
    lemma_first_free_named(ins, by_name(outs, ins).used, out.1, 0, k);
}

proof fn lemma_first_free_named(
    ins: Seq<(u32, Seq<char>)>,
    used: Seq<bool>,
    channel: Seq<char>,
    from: int,
    k: int,
)
    requires
        0 <= from <= k <= ins.len(),
        forall|j: int| from <= j < k ==> used[j] || (#[trigger] ins[j]).1 != channel,
        k < ins.len() ==> !used[k] && ins[k].1 == channel,
    ensures
        k < ins.len() ==> free_named(ins, used, channel, from) == Some(k),
        k == ins.len() ==> free_named(ins, used, channel, from) is None,
    decreases k - from,
{
    if from < k {
        assert(used[from] || ins[from].1 != channel);
        lemma_first_free_named(ins, used, channel, from + 1, k);
    }
}

/// Of several outputs one that is left is linked to the first input that is left; one that has a
/// link gets no other, and where no input is left there is none.
pub proof fn lemma_the_rest_is_linked_in_order(
    outs: Seq<(u32, Seq<char>)>,
    out: (u32, Seq<char>),
    ins: Seq<(u32, Seq<char>)>,
    from: Pairing,
    k: int,
)
    requires
        0 <= k <= by_order(outs, ins, from).used.len(),
        forall|j: int| 0 <= j < k ==> #[trigger] by_order(outs, ins, from).used[j],
        k < by_order(outs, ins, from).used.len() ==> !by_order(outs, ins, from).used[k],
    ensures
        ({
            let before = by_order(outs, ins, from);
            let after = by_order(outs.push(out), ins, from);
            let linked = exists|l: int|
                0 <= l < before.pairs.len() && (#[trigger] before.pairs[l]).0 == out.0;
            &&& !linked && k < before.used.len() ==> after.pairs == before.pairs.push(
                (out.0, ins[k].0),
            ) && after.used == before.used.update(k, true)
            &&& linked || k == before.used.len() ==> after == before
        }),
{
    assert(outs.push(out).drop_last() =~= outs);
    lemma_first_free_any(by_order(outs, ins, from).used, 0, k);
}

proof fn lemma_first_free_any(used: Seq<bool>, from: int, k: int)
    requires
        0 <= from <= k <= used.len(),
        forall|j: int| from <= j < k ==> #[trigger] used[j],
        k < used.len() ==> !used[k],
    ensures
        k < used.len() ==> free_any(used, from) == Some(k),
        k == used.len() ==> free_any(used, from) is None,
    decreases k - from,
{
    if from < k {
        assert(used[from]);
        lemma_first_free_any(used, from + 1, k);
    }
}

/// A single output without a channel name feeds all inputs, in order.
pub proof fn lemma_a_single_output_feeds_all_inputs(out: u32, ins: Seq<(u32, Seq<char>)>, i: int)
    requires
        0 <= i < ins.len(),
    ensures
        ({
            let p = paired(seq![(out, Seq::<char>::empty())], ins);
            &&& p.pairs.len() == ins.len()
            &&& p.pairs[i] == (out, ins[i].0)
        }),
{
    let outs = seq![(out, Seq::<char>::empty())];
    assert(outs.drop_last() =~= Seq::<(u32, Seq<char>)>::empty());
    reveal_with_fuel(by_name, 2);
    let none = by_name(outs, ins);
    assert(none.pairs =~= Seq::<(u32, u32)>::empty());
    lemma_spread_takes_all(out, ins, none, ins.len() as int, i);
}

proof fn lemma_spread_takes_all(
    out: u32,
    ins: Seq<(u32, Seq<char>)>,
    from: Pairing,
    n: int,
    i: int,
)
    requires
        0 <= n <= ins.len(),
        from.pairs.len() == 0,
        from.used.len() == ins.len(),
        forall|j: int| 0 <= j < ins.len() ==> !(#[trigger] from.used[j]),
    ensures
        ({
            let p = spread(out, ins, from, n);
            &&& p.pairs.len() == n
            &&& p.used.len() == ins.len()
            &&& 0 <= i < n ==> p.pairs[i] == (out, ins[i].0)
            &&& forall|j: int| n <= j < ins.len() ==> !(#[trigger] p.used[j])
        }),
    decreases n,
{
    if n > 0 {
        lemma_spread_takes_all(out, ins, from, n - 1, i);
    }
}

/// Whether every used input has a link.
spec fn linked(ins: Seq<(u32, Seq<char>)>, p: Pairing) -> bool {
    &&& p.used.len() == ins.len()
    &&& forall|i: int|
        0 <= i < ins.len() && #[trigger] p.used[i] ==> exists|k: int|
            0 <= k < p.pairs.len() && (#[trigger] p.pairs[k]).1 == ins[i].0
}

proof fn lemma_with_is_linked(ins: Seq<(u32, Seq<char>)>, p: Pairing, out: u32, i: int)
    requires
        linked(ins, p),
        0 <= i < ins.len(),
    ensures
        linked(ins, p.with(out, ins, i)),
{
    let q = p.with(out, ins, i);
    assert forall|j: int| 0 <= j < ins.len() && #[trigger] q.used[j] implies exists|k: int|
        0 <= k < q.pairs.len() && (#[trigger] q.pairs[k]).1 == ins[j].0 by {
        if j == i {
            assert(q.pairs[p.pairs.len() as int].1 == ins[i].0);
        } else {
            assert(p.used[j]);
            let k = choose|k: int|
                0 <= k < p.pairs.len() && (#[trigger] p.pairs[k]).1 == ins[j].0;
            assert(q.pairs[k] == p.pairs[k]);
        }
    }
}

proof fn lemma_by_name_is_linked(outs: Seq<(u32, Seq<char>)>, ins: Seq<(u32, Seq<char>)>)
    ensures
        linked(ins, by_name(outs, ins)),
    decreases outs.len(),
{
    if outs.len() > 0 {
        let before = by_name(outs.drop_last(), ins);
        lemma_by_name_is_linked(outs.drop_last(), ins);
        lemma_free_named(ins, before.used, outs.last().1, 0);
        if let Some(i) = free_named(ins, before.used, outs.last().1, 0) {
            lemma_with_is_linked(ins, before, outs.last().0, i);
        }
    }
}

proof fn lemma_spread_is_linked(out: u32, ins: Seq<(u32, Seq<char>)>, from: Pairing, n: int)
    requires
        linked(ins, from),
        n <= ins.len(),
    ensures
        linked(ins, spread(out, ins, from, n)),
    decreases n,
{
    if n > 0 {
        lemma_spread_is_linked(out, ins, from, n - 1);
        lemma_with_is_linked(ins, spread(out, ins, from, n - 1), out, n - 1);
    }
}

proof fn lemma_by_order_is_linked(
    outs: Seq<(u32, Seq<char>)>,
    ins: Seq<(u32, Seq<char>)>,
    from: Pairing,
)
    requires
        linked(ins, from),
    ensures
        linked(ins, by_order(outs, ins, from)),
    decreases outs.len(),
{
    if outs.len() > 0 {
        let before = by_order(outs.drop_last(), ins, from);
        lemma_by_order_is_linked(outs.drop_last(), ins, from);
        lemma_free_any(before.used, 0);
        if let Some(i) = free_any(before.used, 0) {
            lemma_with_is_linked(ins, before, outs.last().0, i);
        }
    }
}

/// A single output feeds every input, whatever their channel names; and of several outputs and
/// inputs either every input has a link or every output has one.
pub proof fn lemma_every_port_is_fed(
    outs: Seq<(u32, Seq<char>)>,
    ins: Seq<(u32, Seq<char>)>,
    i: int,
    j: int,
)
    requires
        distinct_ids(ins),
        0 <= i < ins.len(),
        0 <= j < outs.len(),
    ensures
        outs.len() == 1 ==> exists|k: int|
            0 <= k < paired(outs, ins).pairs.len() && #[trigger] paired(outs, ins).pairs[k] == (
                outs[0].0,
                ins[i].0,
            ),
        (exists|k: int|
            0 <= k < paired(outs, ins).pairs.len() && (#[trigger] paired(outs, ins).pairs[k]).1
                == ins[i].0) || (exists|k: int|
            0 <= k < paired(outs, ins).pairs.len() && (#[trigger] paired(outs, ins).pairs[k]).0
                == outs[j].0),
{
    lemma_nothing_is_left_on_both_sides(outs, ins);
    lemma_inputs_are_used_once(outs, ins);
    let named = by_name(outs, ins);
    lemma_by_name_is_linked(outs, ins);
    if outs.len() == 1 {
        lemma_spread_is_linked(outs[0].0, ins, named, ins.len() as int);
    } else {
        lemma_by_order_is_linked(outs, ins, named);
    }
    let p = paired(outs, ins);
    if p.used[i] {
        let k = choose|k: int| 0 <= k < p.pairs.len() && (#[trigger] p.pairs[k]).1 == ins[i].0;
        assert(has_id(outs, p.pairs[k].0));
        if outs.len() == 1 {
            assert(p.pairs[k] == (outs[0].0, ins[i].0));
        }
    } else {
        assert(p.starts_at(outs[j].0));
    }
}

} // verus!

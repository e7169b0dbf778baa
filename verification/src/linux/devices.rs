//! Enumeration of PipeWire devices: which nodes count, what they are called, which of them is
//! the default, and when the enumeration is complete.

use crate::linux::props::{Props, NATIVE_CHANNELS, NATIVE_RATE};
use crate::text::{chars_of, copy_range, find, rest_after, same_text, string_of};
use crate::types::{DeviceInfo, Error, SourceKind};
use vstd::prelude::*;

verus! {

/// Time after which an enumeration that did not complete is cut short, in ms.
pub const ENUMERATE_DEADLINE_MS: u64 = 2_000;

/// The text between the first two quotation marks of `s`, where it is not empty.
pub open spec fn first_quoted(s: Seq<char>) -> Option<Seq<char>> {
    match crate::text::find_from(s, "\""@, 0) {
        Some(i) => {
            let rest = s.skip(i + 1);
            match crate::text::find_from(rest, "\""@, 0) {
                Some(j) => if j > 0 {
                    Some(rest.take(j))
                } else {
                    None
                },
                None => None,
            }
        },
        None => None,
    }
}

/// The value of the key `name` in a metadata value such as `{"name":"..."}`: the first quoted
/// text behind the first colon after the key, whatever it holds itself.
pub open spec fn json_name(value: Seq<char>) -> Option<Seq<char>> {
    match crate::text::after_first(value, "\"name\""@) {
        Some(after_key) => match crate::text::after_first(after_key, ":"@) {
            Some(after_colon) => first_quoted(after_colon),
            None => None,
        },
        None => None,
    }
}

fn quoted(chars: &[char]) -> (r: Option<String>)
    ensures
        match r {
            Some(s) => first_quoted(chars@) == Some(s@),
            None => first_quoted(chars@) is None,
        },
{
    let mark: Vec<char> = chars_of("\"");
    proof {
        reveal_strlit("\"");
    }
    match find(chars, mark.as_slice()) {
        None => None,
        Some(i) => {
            let n: usize = chars.len();
            let rest: Vec<char> = copy_range(chars, i + 1, n);
            assert(rest@ =~= chars@.skip(i + 1));
            match find(rest.as_slice(), mark.as_slice()) {
                None => None,
                Some(j) => {
                    if j == 0 {
                        None
                    } else {
                        let name: Vec<char> = copy_range(rest.as_slice(), 0, j);
                        assert(name@ =~= rest@.take(j as int));
                        Some(string_of(name.as_slice()))
                    }
                },
            }
        },
    }
}

/// The value of the key `name` in a metadata value such as `{"name":"..."}`.
pub fn extract_json_name(value: &str) -> (name: Option<String>)
    ensures
        match name {
            Some(s) => json_name(value@) == Some(s@),
            None => json_name(value@) is None,
        },
{
    let chars: Vec<char> = chars_of(value);
    let key: Vec<char> = chars_of("\"name\"");
    let colon: Vec<char> = chars_of(":");
    match rest_after(chars.as_slice(), key.as_slice()) {
        None => None,
        Some(after_key) => match rest_after(after_key.as_slice(), colon.as_slice()) {
            None => None,
            Some(after_colon) => quoted(after_colon.as_slice()),
        },
    }
}

/// One node that counts as a device.
#[derive(Debug, Clone, PartialEq, Eq)]
pub struct NodeRecord {
    /// Its persistent name.
    pub node_name: String,
    /// Its description, or its name.
    pub description: String,
    /// Whether it is a sink, else a source.
    pub is_sink: bool,
    /// Its rate, where it says so.
    pub rate: Option<u32>,
    /// Its channels, where it says so.
    pub channels: Option<u16>,
}

/// A [`NodeRecord`] with its texts as sequences.
pub ghost struct NodeRecordView {
    pub node_name: Seq<char>,
    pub description: Seq<char>,
    pub is_sink: bool,
    pub rate: Option<u32>,
    pub channels: Option<u16>,
}

impl View for NodeRecord {
    type V = NodeRecordView;

    open spec fn view(&self) -> NodeRecordView {
        NodeRecordView {
            node_name: self.node_name@,
            description: self.description@,
            is_sink: self.is_sink,
            rate: self.rate,
            channels: self.channels,
        }
    }
}

/// The device node that properties describe: a sink or a source with a name. Its description
/// stands in for the name where there is one.
pub open spec fn node_record(props: Seq<(Seq<char>, Seq<char>)>) -> Option<NodeRecordView> {
    let class = crate::linux::props::text_at(props, "media.class"@);
    let name = crate::linux::props::text_at(props, "node.name"@);
    let described = crate::linux::props::text_at(props, "node.description"@);
    if (class != "Audio/Sink"@ && class != "Audio/Source"@) || name.len() == 0 {
        None
    } else {
        Some(
            NodeRecordView {
                node_name: name,
                description: if described.len() > 0 {
                    described
                } else {
                    name
                },
                is_sink: class == "Audio/Sink"@,
                rate: match crate::linux::props::number_at(
                    props,
                    "audio.rate"@,
                    u32::MAX as nat,
                ) {
                    Some(n) => Some(n as u32),
                    None => None,
                },
                channels: match crate::linux::props::number_at(
                    props,
                    "audio.channels"@,
                    u16::MAX as nat,
                ) {
                    Some(n) => Some(n as u16),
                    None => None,
                },
            },
        )
    }
}

/// Reads a device node from the properties of a node.
pub fn read_node(props: &Props) -> (record: Option<NodeRecord>)
    ensures
        match record {
            Some(r) => node_record(props@) == Some(r@),
            None => node_record(props@) is None,
        },
{
    let class: String = props.get_text("media.class");
    let is_sink: bool = same_text(class.as_str(), "Audio/Sink");
    if !is_sink && !same_text(class.as_str(), "Audio/Source") {
        return None;
    }
    let node_name: String = props.get_text("node.name");
    if node_name.as_str().is_empty() {
        return None;
    }
    let described: String = props.get_text("node.description");
    let description: String = if described.as_str().is_empty() {
        node_name.clone()
    } else {
        described
    };
    let rate: Option<u32> = props.get_number("audio.rate", u32::MAX);
    let channels: Option<u16> = match props.get_number("audio.channels", 65_535) {
        Some(n) => {
            assert(n <= 65_535);
            Some(n as u16)
        },
        None => None,
    };
    Some(NodeRecord { node_name, description, is_sink, rate, channels })
}

/// The device that a node is, given the names of the default sink and source.
pub open spec fn device_of(
    node: NodeRecordView,
    default_sink: Option<Seq<char>>,
    default_source: Option<Seq<char>>,
) -> crate::types::DeviceInfoView {
    crate::types::DeviceInfoView {
        id: node.node_name,
        name: node.description,
        source_kind: if node.is_sink {
            SourceKind::SystemLoopback
        } else {
            SourceKind::Mic
        },
        sample_rate: match node.rate {
            Some(rate) => rate,
            None => NATIVE_RATE,
        },
        channels: match node.channels {
            Some(channels) => channels,
            None => NATIVE_CHANNELS,
        },
        is_loopback: node.is_sink,
        is_default: if node.is_sink {
            default_sink == Some(node.node_name)
        } else {
            default_source == Some(node.node_name)
        },
    }
}

fn names(default: &Option<String>, name: &String) -> (r: bool)
    ensures
        r == (crate::types::text_view(*default) == Some(name@)),
{
    match default {
        Some(d) => same_text(d.as_str(), name.as_str()),
        None => false,
    }
}

/// The device that a node is, given the names of the default sink and source.
pub fn describe_device(
    node: &NodeRecord,
    default_sink: &Option<String>,
    default_source: &Option<String>,
) -> (info: DeviceInfo)
    ensures
        info@ == device_of(
            node@,
            crate::types::text_view(*default_sink),
            crate::types::text_view(*default_source),
        ),
{
    let is_default: bool = if node.is_sink {
        names(default_sink, &node.node_name)
    } else {
        names(default_source, &node.node_name)
    };
    DeviceInfo {
        id: node.node_name.clone(),
        name: node.description.clone(),
        source_kind: if node.is_sink {
            SourceKind::SystemLoopback
        } else {
            SourceKind::Mic
        },
        sample_rate: match node.rate {
            Some(rate) => rate,
            None => NATIVE_RATE,
        },
        channels: match node.channels {
            Some(channels) => channels,
            None => NATIVE_CHANNELS,
        },
        is_loopback: node.is_sink,
        is_default,
    }
}

/// What an enumeration has gathered.
pub struct EnumState {
    nodes: Vec<NodeRecord>,
    default_sink: Option<String>,
    default_source: Option<String>,
}

/// An [`EnumState`] as a mathematical value.
pub ghost struct EnumView {
    pub nodes: Seq<NodeRecordView>,
    pub default_sink: Option<Seq<char>>,
    pub default_source: Option<Seq<char>>,
}

impl View for EnumState {
    type V = EnumView;

    closed spec fn view(&self) -> EnumView {
        EnumView {
            nodes: Seq::new(self.nodes@.len(), |i: int| self.nodes@[i]@),
            default_sink: crate::types::text_view(self.default_sink),
            default_source: crate::types::text_view(self.default_source),
        }
    }
}

impl EnumView {
    /// A node appears.
    pub open spec fn with_node(self, props: Seq<(Seq<char>, Seq<char>)>) -> EnumView {
        match node_record(props) {
            Some(record) => EnumView { nodes: self.nodes.push(record), ..self },
            None => self,
        }
    }

    /// A metadata property says which device is the default.
    pub open spec fn with_property(self, key: Seq<char>, value: Seq<char>) -> EnumView {
        if key == "default.audio.sink"@ {
            EnumView { default_sink: json_name(value), ..self }
        } else if key == "default.audio.source"@ {
            EnumView { default_source: json_name(value), ..self }
        } else {
            self
        }
    }

    /// The devices, in the order in which they appeared.
    pub open spec fn devices(self) -> Seq<crate::types::DeviceInfoView> {
        Seq::new(
            self.nodes.len(),
            |i: int| device_of(self.nodes[i], self.default_sink, self.default_source),
        )
    }
}

/// Devices with their texts as sequences.
pub open spec fn devices_view(devices: Seq<DeviceInfo>) -> Seq<crate::types::DeviceInfoView> {
    Seq::new(devices.len(), |i: int| devices[i]@)
}

impl EnumState {
    /// Nothing gathered yet.
    pub fn new() -> (state: EnumState)
        ensures
            state@ == (EnumView { nodes: Seq::empty(), default_sink: None, default_source: None }),
    {
        let state = EnumState { nodes: Vec::new(), default_sink: None, default_source: None };
        assert(state@.nodes =~= Seq::empty());
        state
    }

    /// A node appears; it is kept where it counts as a device.
    pub fn add_node(&mut self, props: &Props)
        ensures
            final(self)@ == old(self)@.with_node(props@),
    {
        if let Some(record) = read_node(props) {
            let ghost view = record@;
            self.nodes.push(record);
            assert(self@.nodes =~= old(self)@.nodes.push(view));
        }
    }

    /// A property of the default metadata; one without a key or a value is ignored.
    pub fn set_property(&mut self, key: Option<&str>, value: Option<&str>)
        ensures
            final(self)@ == (match (key, value) {
                (Some(k), Some(v)) => old(self)@.with_property(k@, v@),
                _ => old(self)@,
            }),
    {
        if let Some(k) = key {
            if let Some(v) = value {
                if same_text(k, "default.audio.sink") {
                    self.default_sink = extract_json_name(v);
                } else if same_text(k, "default.audio.source") {
                    self.default_source = extract_json_name(v);
                }
            }
        }
    }

    /// The devices, in the order in which they appeared.
    pub fn devices(&self) -> (out: Vec<DeviceInfo>)
        ensures
            devices_view(out@) == self@.devices(),
    {
        let mut out: Vec<DeviceInfo> = Vec::new();
        let mut i: usize = 0;
        while i < self.nodes.len()
            invariant
                i <= self.nodes@.len(),
                devices_view(out@) == self@.devices().take(i as int),
            decreases self.nodes.len() - i,
        {
            let info: DeviceInfo = describe_device(
                &self.nodes[i],
                &self.default_sink,
                &self.default_source,
            );
            let ghost view = info@;
            let ghost before = out@;
            out.push(info);
            proof {
                assert(self@.nodes[i as int] == self.nodes@[i as int]@);
                assert(devices_view(out@) =~= devices_view(before).push(view));
                assert(self@.devices().take(i + 1) =~= self@.devices().take(i as int).push(view));
            }
            i += 1;
        }
        assert(self@.devices().take(self@.devices().len() as int) =~= self@.devices());
        out
    }
}

/// The outcome of an enumeration as callers see it: a daemon that cannot be reached has no
/// devices, and there is no error.
pub fn list_devices(found: Result<Vec<DeviceInfo>, String>) -> (r: Result<Vec<DeviceInfo>, Error>)
    ensures
        r matches Ok(list) && list@ == (match found {
            Ok(v) => v@,
            Err(_) => Seq::empty(),
        }),
{
    match found {
        Ok(v) => Ok(v),
        Err(_) => Ok(Vec::new()),
    }
}

/// Whether a metadata object is the one that names the default devices.
pub fn names_defaults(props: &Props) -> (r: bool)
    ensures
        r == (crate::linux::props::text_at(props@, "metadata.name"@) == "default"@),
{
    let name: String = props.get_text("metadata.name");
    same_text(name.as_str(), "default")
}

/// What to do when a synchronisation with the daemon completes.
#[derive(Debug, Clone, Copy, PartialEq, Eq, Structural)]
pub enum BarrierStep {
    /// Nothing; it was another one, or all is done.
    Ignore,
    /// Ask for one more synchronisation and hand it to [`SyncBarrier::resynced`].
    SyncAgain,
    /// Both are complete.
    Complete,
}

/// Two synchronisations in a row: after the first every object has been announced, after the
/// second the properties of the metadata have arrived too.
#[derive(Debug, Clone, Copy, PartialEq, Eq, Structural)]
pub struct SyncBarrier {
    /// 0 and 1 while waiting for the first and the second; 2 when done.
    pub stage: u8,
    /// The synchronisation that is waited for.
    pub pending: i32,
}

/// What the completion of the synchronisation `seq` of the object `id` means.
pub open spec fn barrier_step(b: SyncBarrier, id: u32, seq: i32) -> BarrierStep {
    if id != 0 || seq != b.pending || b.stage > 1 {
        BarrierStep::Ignore
    } else if b.stage == 0 {
        BarrierStep::SyncAgain
    } else {
        BarrierStep::Complete
    }
}

impl SyncBarrier {
    /// Waits for the synchronisation `pending`, then for one more.
    pub fn new(pending: i32) -> (barrier: SyncBarrier)
        ensures
            barrier == (SyncBarrier { stage: 0, pending }),
    {
        SyncBarrier { stage: 0, pending }
    }

    /// The synchronisation `seq` of the object `id` completed; 0 is the daemon itself.
    pub fn done(&mut self, id: u32, seq: i32) -> (step: BarrierStep)
        ensures
            step == barrier_step(*old(self), id, seq),
            *final(self) == (SyncBarrier {
                stage: if step == BarrierStep::Ignore {
                    old(self).stage
                } else {
                    (old(self).stage + 1) as u8
                },
                pending: old(self).pending,
            }),
    {
        if id != 0 || seq != self.pending {
            return BarrierStep::Ignore;
        }
        if self.stage == 0 {
            self.stage = 1;
            BarrierStep::SyncAgain
        } else if self.stage == 1 {
            self.stage = 2;
            BarrierStep::Complete
        } else {
            BarrierStep::Ignore
        }
    }

    /// The second synchronisation was asked for: it is waited for, or, where it could not be
    /// asked for, all is done. Says whether all is done.
    pub fn resynced(&mut self, pending: Option<i32>) -> (complete: bool)
        ensures
            complete == (pending is None),
            *final(self) == (match pending {
                Some(seq) => SyncBarrier { stage: old(self).stage, pending: seq },
                None => SyncBarrier { stage: 2, pending: old(self).pending },
            }),
    {
        match pending {
            Some(seq) => {
                self.pending = seq;
                false
            },
            None => {
                self.stage = 2;
                true
            },
        }
    }

    /// Whether both synchronisations are complete.
    pub fn complete(&self) -> (r: bool)
        ensures
            r == (self.stage >= 2),
    {
        self.stage >= 2
    }
}

/// Whether to run the loop once more: the enumeration is not complete and has not taken too
/// long.
pub fn keep_enumerating(complete: bool, elapsed_ms: u64) -> (r: bool)
    ensures
        r == (!complete && elapsed_ms < ENUMERATE_DEADLINE_MS),
{
    !complete && elapsed_ms < ENUMERATE_DEADLINE_MS
}

/// From the start, whatever other synchronisations complete in between, the first one leads
/// to the second and the second completes the barrier; after that nothing does.
pub proof fn lemma_barrier_takes_two(first: i32, second: i32, id: u32, seq: i32)
    ensures
        barrier_step(SyncBarrier { stage: 0, pending: first }, 0, first) == BarrierStep::SyncAgain,
        barrier_step(SyncBarrier { stage: 1, pending: second }, 0, second)
            == BarrierStep::Complete,
        seq != first ==> barrier_step(SyncBarrier { stage: 0, pending: first }, id, seq)
            == BarrierStep::Ignore,
        seq != second ==> barrier_step(SyncBarrier { stage: 1, pending: second }, id, seq)
            == BarrierStep::Ignore,
        barrier_step(SyncBarrier { stage: 2, pending: second }, id, seq) == BarrierStep::Ignore,
{
}

/// Every device has an id, is a loopback exactly where it is captured as system audio, and is
/// nothing but microphone or system audio.
pub proof fn lemma_devices_are_consistent(
    props: Seq<(Seq<char>, Seq<char>)>,
    default_sink: Option<Seq<char>>,
    default_source: Option<Seq<char>>,
)
    requires
        node_record(props) is Some,
    ensures
        ({
            let d = device_of(node_record(props)->0, default_sink, default_source);
            &&& d.id.len() > 0
            &&& d.name.len() > 0
            &&& d.is_loopback <==> d.source_kind == SourceKind::SystemLoopback
            &&& !d.is_loopback <==> d.source_kind == SourceKind::Mic
        }),
{
}

/// Of devices with different ids one at most is the default sink, and one the default source.
pub proof fn lemma_one_default_each(state: EnumView, i: int, j: int)
    requires
        0 <= i < j < state.nodes.len(),
        state.nodes[i].node_name != state.nodes[j].node_name,
        state.nodes[i].is_sink == state.nodes[j].is_sink,
    ensures
        !(state.devices()[i].is_default && state.devices()[j].is_default),
{
}

/// The name in a metadata value is the text in the first pair of quotation marks behind the
/// first colon behind the first key `"name"`. An empty name counts as none.
pub proof fn lemma_the_name_is_found(
    before: Seq<char>,
    key_end: Seq<char>,
    gap: Seq<char>,
    name: Seq<char>,
    rest: Seq<char>,
)
    requires
        !before.contains('"'),
        !key_end.contains(':'),
        !gap.contains('"'),
        !name.contains('"'),
    ensures
        ({
            let value = before + "\"name\""@ + (key_end + seq![':'] + (gap + seq!['"'] + (name
                + seq!['"'] + rest)));
            &&& name.len() > 0 ==> json_name(value) == Some(name)
            &&& name.len() == 0 ==> json_name(value) is None
        }),
{
    reveal_strlit("\"name\"");
    reveal_strlit(":");
    reveal_strlit("\"");
    let key = "\"name\""@;
    assert(":"@ =~= seq![':']);
    assert("\""@ =~= seq!['"']);
    let quoted_name = name + seq!['"'] + rest;
    let behind_colon = gap + seq!['"'] + quoted_name;
    let behind_key = key_end + seq![':'] + behind_colon;
    let value = before + key + behind_key;
    assert forall|j: int| 0 <= j < before.len() implies #[trigger] value.subrange(j, j + key.len())
        != key by {
        assert(value.subrange(j, j + key.len())[0] == before[j]);
        assert(key[0] == '"');
    }
    crate::text::lemma_what_follows_is_found(before, key, behind_key);
    crate::text::lemma_a_mark_is_found(key_end, ':', behind_colon);
    crate::text::lemma_a_mark_is_found(gap, '"', quoted_name);
    crate::text::lemma_a_mark_is_found(name, '"', rest);
    assert(behind_colon.skip(gap.len() as int + 1) =~= quoted_name);
    assert(quoted_name.take(name.len() as int) =~= name);
}

/// A metadata value without the key `"name"` names nothing.
pub proof fn lemma_without_a_name_there_is_none(value: Seq<char>)
    requires
        forall|j: int|
            0 <= j && j + 6 <= value.len() ==> #[trigger] value.subrange(j, j + 6)
                != "\"name\""@,
    ensures
        json_name(value) is None,
{
    reveal_strlit("\"name\"");
    crate::text::lemma_the_first_place_is_found(value, "\"name\""@, 0);
    if let Some(k) = crate::text::find_from(value, "\"name\""@, 0) {
        assert(value.subrange(k, k + 6) == "\"name\""@);
    }
}

/// A sink or a source with a name is a device, and the device is what its properties say: its
/// id is the node's name, it is called by the description where there is one, it is recorded
/// as system audio exactly where it is a sink, and without a rate or channels it has 48000 Hz
/// and two channels. It is the default exactly where it is named so: a sink by the default
/// sink, a source by the default source.
pub proof fn lemma_a_device_is_what_its_properties_say(
    props: Seq<(Seq<char>, Seq<char>)>,
    class: Seq<char>,
    name: Seq<char>,
    n: nat,
    default_sink: Option<Seq<char>>,
    default_source: Option<Seq<char>>,
)
    requires
        crate::linux::props::lookup(props, "media.class"@) == Some(class),
        crate::linux::props::lookup(props, "node.name"@) == Some(name),
        class == "Audio/Sink"@ || class == "Audio/Source"@,
        name.len() > 0,
    ensures
        node_record(props) is Some,
        ({
            let d = device_of(node_record(props)->0, default_sink, default_source);
            let described = crate::linux::props::lookup(props, "node.description"@);
            let rate = crate::linux::props::lookup(props, "audio.rate"@);
            let channels = crate::linux::props::lookup(props, "audio.channels"@);
            &&& d.id == name
            &&& described is Some && (described->0).len() > 0 ==> d.name == described->0
            &&& described is None || (described->0).len() == 0 ==> d.name == name
            &&& class == "Audio/Sink"@ ==> d.is_loopback && d.source_kind
                == SourceKind::SystemLoopback
            &&& class == "Audio/Source"@ ==> !d.is_loopback && d.source_kind == SourceKind::Mic
            &&& d.is_default <==> (if class == "Audio/Sink"@ {
                default_sink
            } else {
                default_source
            }) == Some(name)
            &&& rate is None ==> d.sample_rate == 48_000
            &&& rate == Some(crate::text::decimal(n)) && n <= u32::MAX ==> d.sample_rate == n
            &&& channels is None ==> d.channels == 2
            &&& channels == Some(crate::text::decimal(n)) && n <= u16::MAX ==> d.channels == n
        }),
{
    reveal_strlit("Audio/Sink");
    reveal_strlit("Audio/Source");
    assert("Audio/Sink"@.len() != "Audio/Source"@.len());
    crate::linux::props::lemma_numbers_are_read(props, "audio.rate"@, n, u32::MAX as nat);
    crate::linux::props::lemma_numbers_are_read(props, "audio.channels"@, n, u16::MAX as nat);
}

/// A node of another class, or of none, and a node without a name are no devices.
pub proof fn lemma_other_nodes_are_no_devices(props: Seq<(Seq<char>, Seq<char>)>)
    requires
        ({
            let class = crate::linux::props::lookup(props, "media.class"@);
            let name = crate::linux::props::lookup(props, "node.name"@);
            ||| class is None
            ||| class != Some("Audio/Sink"@) && class != Some("Audio/Source"@)
            ||| name is None
            ||| (name->0).len() == 0
        }),
    ensures
        node_record(props) is None,
{
    reveal_strlit("Audio/Sink");
    reveal_strlit("Audio/Source");
    let empty = Seq::<char>::empty();
    assert(empty.len() != "Audio/Sink"@.len() && empty.len() != "Audio/Source"@.len());
}

/// A listed source is marked as the default exactly where its id is the name of the default
/// source, and a listed sink exactly where its id is the name of the default sink.
pub proof fn lemma_defaults_are_marked(state: EnumView, i: int)
    requires
        0 <= i < state.devices().len(),
    ensures
        ({
            let d = state.devices()[i];
            d.is_default <==> (if d.is_loopback {
                state.default_sink
            } else {
                state.default_source
            }) == Some(d.id)
        }),
{
}

/// A property of the default sink decides which sinks are marked and leaves the sources as
/// they were, a property of the default source the other way round, and any other property
/// changes nothing. No device comes or goes with one.
pub proof fn lemma_a_property_decides_the_default(
    state: EnumView,
    key: Seq<char>,
    value: Seq<char>,
    i: int,
)
    requires
        0 <= i < state.devices().len(),
    ensures
        ({
            let before = state.devices()[i];
            let after = state.with_property(key, value).devices();
            let d = after[i];
            let named = json_name(value) == Some(d.id);
            &&& after.len() == state.devices().len()
            &&& d.id == before.id && d.name == before.name && d.is_loopback == before.is_loopback
            &&& key == "default.audio.sink"@ ==> d.is_default == (if d.is_loopback {
                named
            } else {
                before.is_default
            })
            &&& key == "default.audio.source"@ ==> d.is_default == (if d.is_loopback {
                before.is_default
            } else {
                named
            })
            &&& key != "default.audio.sink"@ && key != "default.audio.source"@ ==> d == before
        }),
{
    reveal_strlit("default.audio.sink");
    reveal_strlit("default.audio.source");
    assert("default.audio.sink"@.len() != "default.audio.source"@.len());
}

/// Devices are listed in the order in which their nodes appeared, each once; a node that is no
/// device is not listed.
pub proof fn lemma_nodes_are_listed_in_order(state: EnumView, props: Seq<(Seq<char>, Seq<char>)>)
    ensures
        node_record(props) is Some ==> state.with_node(props).devices() == state.devices().push(
            device_of(node_record(props)->0, state.default_sink, state.default_source),
        ),
        node_record(props) is None ==> state.with_node(props).devices() == state.devices(),
{
    if node_record(props) is Some {
        assert(state.with_node(props).devices() =~= state.devices().push(
            device_of(node_record(props)->0, state.default_sink, state.default_source),
        ));
    }
}

/// A device is described as the default exactly where its own kind of default names it.
pub proof fn lemma_described_defaults(
    node: &NodeRecord,
    default_sink: &Option<String>,
    default_source: &Option<String>,
    d: DeviceInfo,
)
    requires
        call_ensures(describe_device, (node, default_sink, default_source), d),
    ensures
        node.is_sink ==> (d.is_default <==> default_sink is Some && (default_sink->0)@
            == node.node_name@),
        !node.is_sink ==> (d.is_default <==> default_source is Some && (default_source->0)@
            == node.node_name@),
        d.id@ == node.node_name@,
        d.name@ == node.description@,
        d.is_loopback == node.is_sink,
        d.source_kind == SourceKind::SystemLoopback <==> node.is_sink,
        d.source_kind == SourceKind::Mic <==> !node.is_sink,
        node.rate is Some ==> d.sample_rate == node.rate->0,
        node.rate is None ==> d.sample_rate == 48_000,
        node.channels is Some ==> d.channels == node.channels->0,
        node.channels is None ==> d.channels == 2,
{
    let told = device_of(
        node@,
        crate::types::text_view(*default_sink),
        crate::types::text_view(*default_source),
    );
    assert(d@ == told);
    assert(d.id@ == d@.id && d.name@ == d@.name && d.is_default == d@.is_default);
}

/// A listing shows every device that was gathered, in order, each with its own kind of default.
pub proof fn lemma_listed_defaults(state: &EnumState, out: Vec<DeviceInfo>, i: int)
    requires
        call_ensures(EnumState::devices, (state,), out),
        0 <= i < out@.len(),
    ensures
        out@.len() == state@.nodes.len(),
        out@[i].id@ == state@.nodes[i].node_name,
        out@[i].is_loopback == state@.nodes[i].is_sink,
        out@[i].is_default <==> (if out@[i].is_loopback {
            state@.default_sink
        } else {
            state@.default_source
        }) == Some(out@[i].id@),
{
    assert(devices_view(out@) == state@.devices());
    assert(devices_view(out@).len() == state@.devices().len());
    assert(devices_view(out@)[i] == state@.devices()[i]);
    assert(out@[i]@ == devices_view(out@)[i]);
}

/// The properties that name the defaults are kept under their own kind, and nothing else is
/// touched.
pub proof fn lemma_named_defaults_are_kept(
    state: &mut EnumState,
    key: Option<&str>,
    value: Option<&str>,
)
    requires
        call_ensures(EnumState::set_property, (state, key, value), ()),
    ensures
        final(state)@.nodes == old(state)@.nodes,
        key is Some && value is Some && (key->0)@ == "default.audio.sink"@ ==> final(state)@.default_sink == json_name((value->0)@) && final(state)@.default_source == old(state)@.default_source,
        key is Some && value is Some && (key->0)@ == "default.audio.source"@ ==> final(state)@.default_source == json_name((value->0)@) && final(state)@.default_sink == old(state)@.default_sink,
        key is None || value is None ==> final(state)@ == old(state)@,
        key is Some && (key->0)@ != "default.audio.sink"@ && (key->0)@ != "default.audio.source"@
            ==> final(state)@ == old(state)@,
{
    reveal_strlit("default.audio.sink");
    reveal_strlit("default.audio.source");
    assert("default.audio.sink"@.len() != "default.audio.source"@.len());
}

/// Only a metadata object of the name `default` names the default devices.
pub proof fn lemma_the_default_object_names_defaults(props: &Props, r: bool)
    requires
        call_ensures(names_defaults, (props,), r),
    ensures
        crate::linux::props::lookup(props@, "metadata.name"@) == Some("default"@) ==> r,
        crate::linux::props::lookup(props@, "metadata.name"@) matches Some(name) ==> (r <==> name
            == "default"@),
        crate::linux::props::lookup(props@, "metadata.name"@) is None ==> !r,
{
    reveal_strlit("default");
    assert(Seq::<char>::empty().len() != "default"@.len());
}

/// An enumeration goes on until it is complete, for two seconds at most.
pub proof fn lemma_enumerations_end(complete: bool, elapsed_ms: u64, r: bool)
    requires
        call_ensures(keep_enumerating, (complete, elapsed_ms), r),
    ensures
        complete || elapsed_ms >= 2_000 ==> !r,
        !complete && elapsed_ms < 2_000 ==> r,
{
}

/// A daemon that cannot be reached has no devices; the devices that were found are listed as
/// they are.
pub proof fn lemma_found_devices_are_listed(
    found: Result<Vec<DeviceInfo>, String>,
    r: Result<Vec<DeviceInfo>, Error>,
)
    requires
        call_ensures(list_devices, (found,), r),
    ensures
        r is Ok,
        found is Ok ==> (r->Ok_0)@ == (found->Ok_0)@,
        found is Err ==> (r->Ok_0)@.len() == 0,
{
}

/// A synchronisation counts only where it is the daemon's own and the one that is waited for;
/// the first one leads to another, the second completes.
pub proof fn lemma_synchronisations_are_counted(
    b: &mut SyncBarrier,
    id: u32,
    seq: i32,
    step: BarrierStep,
)
    requires
        call_ensures(SyncBarrier::done, (b, id, seq), step),
    ensures
        id == 0 && seq == old(b).pending && old(b).stage == 0 ==> step == BarrierStep::SyncAgain
            && final(b).stage == 1,
        id == 0 && seq == old(b).pending && old(b).stage == 1 ==> step == BarrierStep::Complete
            && final(b).stage == 2,
        id != 0 || seq != old(b).pending || old(b).stage >= 2 ==> step == BarrierStep::Ignore
            && *final(b) == *old(b),
        final(b).pending == old(b).pending,
{
}

/// Waiting goes on for the second synchronisation where it was asked for, and ends where it
/// could not be.
pub proof fn lemma_the_second_synchronisation_is_awaited(
    b: &mut SyncBarrier,
    pending: Option<i32>,
    complete: bool,
)
    requires
        call_ensures(SyncBarrier::resynced, (b, pending), complete),
    ensures
        pending is Some ==> !complete && final(b).pending == pending->0 && final(b).stage == old(b).stage,
        pending is None ==> complete && final(b).stage == 2,
{
}

} // verus!

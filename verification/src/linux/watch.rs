//! Watching devices come and go.
//!
//! The watcher keeps a table of the devices that it knows by registry id. Devices that exist
//! when it starts are entered without a word; from the end of the first scan on, every change
//! is an event. Events wait in a queue of bounded length that gives up the oldest ones.

use crate::linux::devices::{describe_device, extract_json_name, read_node, NodeRecord};
use crate::linux::props::Props;
use crate::text::same_text;
use crate::types::{DeviceEvent, DeviceInfo, SourceKind};
use std::collections::HashMap;
use std::collections::VecDeque;
use vstd::prelude::*;

verus! {

broadcast use vstd::std_specs::hash::group_hash_axioms;

/// Events that wait at most.
pub const MAX_WATCH_EVENTS: usize = 1024;

/// A queue after one more event: the oldest ones make room.
pub open spec fn enqueued(queue: Seq<DeviceEvent>, event: DeviceEvent) -> Seq<DeviceEvent> {
    if queue.len() >= MAX_WATCH_EVENTS {
        queue.skip(queue.len() - MAX_WATCH_EVENTS + 1).push(event)
    } else {
        queue.push(event)
    }
}

/// Appends an event; where the queue is full, the oldest events are given up for it.
pub fn enqueue_event(events: &mut VecDeque<DeviceEvent>, event: DeviceEvent)
    ensures
        final(events)@ == enqueued(old(events)@, event),
        final(events)@.len() >= 1,
{
    let ghost before = events@;
    let ghost mut gone: int = 0;
    assert(before.skip(0) == before);
    while events.len() >= MAX_WATCH_EVENTS
        invariant
            0 <= gone <= before.len(),
            events@ == before.skip(gone),
            gone == 0 || before.len() - gone >= MAX_WATCH_EVENTS - 1,
        decreases events.len(),
    {
        let _ = events.pop_front();
        proof {
            gone = gone + 1;
            assert(before.skip(gone - 1).skip(1) == before.skip(gone));
            assert(events@ =~= before.skip(gone));
        }
    }
    events.push_back(event);
    assert(events@ =~= enqueued(before, event));
}

/// The watcher as a mathematical value.
pub ghost struct WatchView {
    /// Known devices by registry id.
    pub known: Map<u32, crate::types::DeviceInfoView>,
    /// Whether the first scan is over.
    pub scanned: bool,
    pub default_sink: Option<Seq<char>>,
    pub default_source: Option<Seq<char>>,
}

/// An optional event with its texts as sequences.
pub open spec fn event_view(event: Option<DeviceEvent>) -> Option<crate::types::DeviceEventView> {
    match event {
        Some(e) => Some(e@),
        None => None,
    }
}

impl WatchView {
    /// A node appears: it is entered where it counts as a device, and reported once the first
    /// scan is over.
    pub open spec fn appeared(self, id: u32, props: Seq<(Seq<char>, Seq<char>)>) -> (
        WatchView,
        Option<crate::types::DeviceEventView>,
    ) {
        match crate::linux::devices::node_record(props) {
            Some(record) => {
                let info = crate::linux::devices::device_of(
                    record,
                    self.default_sink,
                    self.default_source,
                );
                (
                    WatchView { known: self.known.insert(id, info), ..self },
                    if self.scanned {
                        Some(crate::types::DeviceEventView::Added(info))
                    } else {
                        None
                    },
                )
            },
            None => (self, None),
        }
    }

    /// An object is gone: it is reported where it was a known device.
    pub open spec fn vanished(self, id: u32) -> (
        WatchView,
        Option<crate::types::DeviceEventView>,
    ) {
        if self.known.contains_key(id) {
            (
                WatchView { known: self.known.remove(id), ..self },
                Some(crate::types::DeviceEventView::Removed { id: self.known[id].id }),
            )
        } else {
            (self, None)
        }
    }

    /// What is reported when a default becomes `name`: a name, after the first scan, where it
    /// differs from the one before.
    pub open spec fn default_event(
        self,
        before: Option<Seq<char>>,
        name: Option<Seq<char>>,
        kind: SourceKind,
    ) -> Option<crate::types::DeviceEventView> {
        match name {
            Some(id) => if self.scanned && before != name {
                Some(crate::types::DeviceEventView::DefaultChanged { kind, id })
            } else {
                None
            },
            None => None,
        }
    }

    /// A property of the default metadata arrives.
    pub open spec fn property(self, key: Seq<char>, value: Seq<char>) -> (
        WatchView,
        Option<crate::types::DeviceEventView>,
    ) {
        let name = crate::linux::devices::json_name(value);
        if key == "default.audio.sink"@ {
            (
                WatchView { default_sink: name, ..self },
                self.default_event(self.default_sink, name, SourceKind::SystemLoopback),
            )
        } else if key == "default.audio.source"@ {
            (
                WatchView { default_source: name, ..self },
                self.default_event(self.default_source, name, SourceKind::Mic),
            )
        } else {
            (self, None)
        }
    }
}

/// What a device watcher knows.
pub struct WatchState {
    by_global_id: HashMap<u32, DeviceInfo>,
    initial_scan_done: bool,
    default_sink: Option<String>,
    default_source: Option<String>,
}

/// A table of devices with the texts as sequences.
pub open spec fn known_devices(table: Map<u32, DeviceInfo>) -> Map<
    u32,
    crate::types::DeviceInfoView,
> {
    Map::new(|id: u32| table.contains_key(id), |id: u32| table[id]@)
}

impl View for WatchState {
    type V = WatchView;

    closed spec fn view(&self) -> WatchView {
        WatchView {
            known: known_devices(self.by_global_id@),
            scanned: self.initial_scan_done,
            default_sink: crate::types::text_view(self.default_sink),
            default_source: crate::types::text_view(self.default_source),
        }
    }
}

fn same_name(a: &Option<String>, b: &Option<String>) -> (r: bool)
    ensures
        r == (crate::types::text_view(*a) == crate::types::text_view(*b)),
{
    match (a, b) {
        (Some(x), Some(y)) => same_text(x.as_str(), y.as_str()),
        (None, None) => true,
        _ => false,
    }
}

fn copy_name(a: &Option<String>) -> (r: Option<String>)
    ensures
        crate::types::text_view(r) == crate::types::text_view(*a),
{
    match a {
        Some(x) => Some(x.clone()),
        None => None,
    }
}

impl WatchState {
    /// A watcher that knows nothing and has not scanned yet.
    pub fn new() -> (state: WatchState)
        ensures
            state@ == (WatchView {
                known: Map::empty(),
                scanned: false,
                default_sink: None,
                default_source: None,
            }),
    {
        let state = WatchState {
            by_global_id: HashMap::new(),
            initial_scan_done: false,
            default_sink: None,
            default_source: None,
        };
        assert(state@.known =~= Map::empty());
        state
    }

    /// The first scan is over.
    pub fn finish_scan(&mut self)
        ensures
            final(self)@ == (WatchView { scanned: true, ..old(self)@ }),
    {
        self.initial_scan_done = true;
    }

    /// Whether the first scan is over.
    pub fn scan_done(&self) -> (r: bool)
        ensures
            r == self@.scanned,
    {
        self.initial_scan_done
    }

    /// A node appears.
    pub fn node_appeared(&mut self, id: u32, props: &Props) -> (event: Option<DeviceEvent>)
        ensures
            final(self)@ == old(self)@.appeared(id, props@).0,
            event_view(event) == old(self)@.appeared(id, props@).1,
    {
        let record: NodeRecord = match read_node(props) {
            Some(record) => record,
            None => {
                return None;
            },
        };
        let info: DeviceInfo = describe_device(&record, &self.default_sink, &self.default_source);
        let ghost before = self.by_global_id@;
        let ghost view = info@;
        let copy: DeviceInfo = info.clone();
        self.by_global_id.insert(id, copy);
        assert(known_devices(self.by_global_id@) =~= known_devices(before).insert(id, view));
        if self.initial_scan_done {
            Some(DeviceEvent::Added(info))
        } else {
            None
        }
    }

    /// A registry object is gone.
    pub fn removed(&mut self, id: u32) -> (event: Option<DeviceEvent>)
        ensures
            final(self)@ == old(self)@.vanished(id).0,
            event_view(event) == old(self)@.vanished(id).1,
    {
        let ghost before = self.by_global_id@;
        match self.by_global_id.remove(&id) {
            Some(info) => {
                assert(known_devices(self.by_global_id@) =~= known_devices(before).remove(id));
                Some(DeviceEvent::Removed { id: info.id })
            },
            None => {
                assert(known_devices(self.by_global_id@) =~= known_devices(before));
                None
            },
        }
    }

    /// A property of the default metadata arrives; one without a key or a value is ignored.
    pub fn set_property(&mut self, key: Option<&str>, value: Option<&str>) -> (event: Option<
        DeviceEvent,
    >)
        ensures
            match (key, value) {
                (Some(k), Some(v)) => {
                    &&& final(self)@ == old(self)@.property(k@, v@).0
                    &&& event_view(event) == old(self)@.property(k@, v@).1
                },
                _ => final(self)@ == old(self)@ && event is None,
            },
    {
        let (k, v): (&str, &str) = match (key, value) {
            (Some(k), Some(v)) => (k, v),
            _ => {
                return None;
            },
        };
        let name: Option<String> = extract_json_name(v);
        let mut changed: bool = false;
        let mut kind: SourceKind = SourceKind::SystemLoopback;
        if same_text(k, "default.audio.sink") {
            if !same_name(&self.default_sink, &name) {
                self.default_sink = copy_name(&name);
                changed = true;
            }
        } else if same_text(k, "default.audio.source") {
            if !same_name(&self.default_source, &name) {
                self.default_source = copy_name(&name);
                changed = true;
                kind = SourceKind::Mic;
            }
        }
        if changed && self.initial_scan_done {
            if let Some(id) = name {
                return Some(DeviceEvent::DefaultChanged { kind, id });
            }
        }
        None
    }
}

/// The queue never holds more than its limit, the newest event is always in it, and what is
/// kept keeps its order.
pub proof fn lemma_queue_is_bounded(queue: Seq<DeviceEvent>, event: DeviceEvent)
    requires
        queue.len() <= MAX_WATCH_EVENTS,
    ensures
        enqueued(queue, event).len() <= MAX_WATCH_EVENTS,
        enqueued(queue, event).last() == event,
        queue.len() < MAX_WATCH_EVENTS ==> enqueued(queue, event) == queue.push(event),
        queue.len() == MAX_WATCH_EVENTS ==> enqueued(queue, event).drop_last() == queue.skip(1),
{
    if queue.len() == MAX_WATCH_EVENTS {
        assert(enqueued(queue, event).drop_last() =~= queue.skip(1));
    }
}

/// Nothing that exists at the start is announced.
pub proof fn lemma_first_scan_is_silent(
    w: WatchView,
    id: u32,
    props: Seq<(Seq<char>, Seq<char>)>,
    key: Seq<char>,
    value: Seq<char>,
)
    requires
        !w.scanned,
    ensures
        w.appeared(id, props).1 is None,
        w.property(key, value).1 is None,
{
}

/// A device that was announced is the one whose departure is announced, once.
pub proof fn lemma_departure_matches_arrival(
    w: WatchView,
    id: u32,
    props: Seq<(Seq<char>, Seq<char>)>,
)
    requires
        crate::linux::devices::node_record(props) is Some,
    ensures
        ({
            let info = crate::linux::devices::device_of(
                crate::linux::devices::node_record(props)->0,
                w.default_sink,
                w.default_source,
            );
            let (after, _) = w.appeared(id, props);
            let (gone, event) = after.vanished(id);
            &&& w.scanned ==> w.appeared(id, props).1 == Some(
                crate::types::DeviceEventView::Added(info),
            )
            &&& event == Some(crate::types::DeviceEventView::Removed { id: info.id })
            &&& gone.vanished(id) == (gone, None::<crate::types::DeviceEventView>)
            &&& !w.known.contains_key(id) ==> gone.known == w.known
        }),
{
    let (after, _) = w.appeared(id, props);
    let (gone, event) = after.vanished(id);
    if !w.known.contains_key(id) {
        assert(gone.known =~= w.known);
    }
}

/// A default is reported only where it changes: the same property a second time is not.
pub proof fn lemma_default_is_reported_once(w: WatchView, key: Seq<char>, value: Seq<char>)
    ensures
        w.property(key, value).0.property(key, value) == (
            w.property(key, value).0,
            None::<crate::types::DeviceEventView>,
        ),
{
}

/// A default that changes is reported, once the first scan is over: a property of the default
/// sink with another name than the known one as system audio, one of the default source as
/// microphone, each with the new name, which is the known one from then on.
pub proof fn lemma_a_new_default_is_reported(
    w: WatchView,
    key: Seq<char>,
    value: Seq<char>,
    id: Seq<char>,
)
    requires
        w.scanned,
        crate::linux::devices::json_name(value) == Some(id),
    ensures
        key == "default.audio.sink"@ && w.default_sink != Some(id) ==> w.property(key, value).1
            == Some(
            crate::types::DeviceEventView::DefaultChanged { kind: SourceKind::SystemLoopback, id },
        ),
        key == "default.audio.source"@ && w.default_source != Some(id) ==> w.property(
            key,
            value,
        ).1 == Some(crate::types::DeviceEventView::DefaultChanged { kind: SourceKind::Mic, id }),
        key == "default.audio.sink"@ && w.default_sink == Some(id) ==> w.property(key, value)
            == (w, None::<crate::types::DeviceEventView>),
        key == "default.audio.source"@ && w.default_source == Some(id) ==> w.property(key, value)
            == (w, None::<crate::types::DeviceEventView>),
{
    reveal_strlit("default.audio.sink");
    reveal_strlit("default.audio.source");
    assert("default.audio.sink"@.len() != "default.audio.source"@.len());
}

/// A property of the default sink makes its name the known one, before the first scan is over
/// and after, and so does one of the default source; neither touches the other, nor the
/// devices, and any other property changes nothing and is not reported.
pub proof fn lemma_properties_are_kept(w: WatchView, key: Seq<char>, value: Seq<char>)
    ensures
        ({
            let (after, event) = w.property(key, value);
            let name = crate::linux::devices::json_name(value);
            &&& after.known == w.known && after.scanned == w.scanned
            &&& key == "default.audio.sink"@ ==> after.default_sink == name && after.default_source
                == w.default_source
            &&& key == "default.audio.source"@ ==> after.default_source == name
                && after.default_sink == w.default_sink
            &&& key != "default.audio.sink"@ && key != "default.audio.source"@ ==> after == w
                && event is None
            &&& name is None ==> event is None
        }),
{
    reveal_strlit("default.audio.sink");
    reveal_strlit("default.audio.source");
    assert("default.audio.sink"@.len() != "default.audio.source"@.len());
}

/// A device that appears is known under its registry id from then on, and reported with what
/// its properties say once the first scan is over. A node that is no device is passed over.
pub proof fn lemma_a_new_device_is_reported(
    w: WatchView,
    id: u32,
    props: Seq<(Seq<char>, Seq<char>)>,
    class: Seq<char>,
    name: Seq<char>,
)
    requires
        crate::linux::props::lookup(props, "media.class"@) == Some(class),
        crate::linux::props::lookup(props, "node.name"@) == Some(name),
        name.len() > 0,
    ensures
        ({
            let (after, event) = w.appeared(id, props);
            &&& after.default_sink == w.default_sink && after.default_source == w.default_source
            &&& after.scanned == w.scanned
            &&& class == "Audio/Sink"@ || class == "Audio/Source"@ ==> {
                &&& after.known.contains_key(id)
                &&& after.known.remove(id) == w.known.remove(id)
                &&& after.known[id].id == name
                &&& after.known[id].is_loopback <==> class == "Audio/Sink"@
                &&& after.known[id].is_default <==> (if class == "Audio/Sink"@ {
                    w.default_sink
                } else {
                    w.default_source
                }) == Some(name)
                &&& event == (if w.scanned {
                    Some(crate::types::DeviceEventView::Added(after.known[id]))
                } else {
                    None
                })
            }
            &&& class != "Audio/Sink"@ && class != "Audio/Source"@ ==> after == w && event is None
        }),
{
    if class == "Audio/Sink"@ || class == "Audio/Source"@ {
        crate::linux::devices::lemma_a_device_is_what_its_properties_say(
            props,
            class,
            name,
            0,
            w.default_sink,
            w.default_source,
        );
        reveal_strlit("Audio/Sink");
        reveal_strlit("Audio/Source");
        assert("Audio/Sink"@.len() != "Audio/Source"@.len());
        assert(w.appeared(id, props).0.known.remove(id) =~= w.known.remove(id));
    } else {
        crate::linux::devices::lemma_other_nodes_are_no_devices(props);
    }
}

/// The departure of a known device is reported with its id, in the first scan too, and it is
/// known no more; all the others stay. The departure of anything else changes nothing.
pub proof fn lemma_a_departure_is_reported(w: WatchView, id: u32)
    ensures
        w.known.contains_key(id) ==> w.vanished(id).1 == Some(
            crate::types::DeviceEventView::Removed { id: w.known[id].id },
        ) && w.vanished(id).0.known == w.known.remove(id),
        !w.known.contains_key(id) ==> w.vanished(id) == (
            w,
            None::<crate::types::DeviceEventView>,
        ),
        w.vanished(id).0.default_sink == w.default_sink,
        w.vanished(id).0.default_source == w.default_source,
        w.vanished(id).0.scanned == w.scanned,
{
}

/// Up to 1024 events wait; one more takes the place of the oldest.
pub proof fn lemma_the_oldest_event_makes_room(queue: Seq<DeviceEvent>, event: DeviceEvent)
    ensures
        queue.len() < 1024 ==> enqueued(queue, event) == queue.push(event),
        queue.len() == 1024 ==> enqueued(queue, event) == queue.skip(1).push(event),
{
}

/// What a watcher returns for a property of the default metadata: after the first scan a new
/// name, as system audio for the default sink and as microphone for the default source, and
/// nothing where the name is the known one.
pub proof fn lemma_new_defaults_are_returned(
    w: &mut WatchState,
    key: &str,
    value: &str,
    event: Option<DeviceEvent>,
    id: Seq<char>,
)
    requires
        call_ensures(WatchState::set_property, (w, Some(key), Some(value)), event),
        crate::linux::devices::json_name(value@) == Some(id),
    ensures
        old(w)@.scanned && key@ == "default.audio.sink"@ && old(w)@.default_sink != Some(id)
            ==> event is Some && event->0 is DefaultChanged && (event->0)->kind
            == SourceKind::SystemLoopback && (event->0)->DefaultChanged_id@ == id,
        old(w)@.scanned && key@ == "default.audio.source"@ && old(w)@.default_source != Some(id)
            ==> event is Some && event->0 is DefaultChanged && (event->0)->kind == SourceKind::Mic
            && (event->0)->DefaultChanged_id@ == id,
        key@ == "default.audio.sink"@ ==> final(w)@.default_sink == Some(id),
        key@ == "default.audio.source"@ ==> final(w)@.default_source == Some(id),
        key@ == "default.audio.sink"@ && old(w)@.default_sink == Some(id) ==> event is None,
        key@ == "default.audio.source"@ && old(w)@.default_source == Some(id) ==> event is None,
        !old(w)@.scanned ==> event is None,
        key@ != "default.audio.sink"@ && key@ != "default.audio.source"@ ==> event is None && final(w)@ == old(w)@,
        final(w)@.known == old(w)@.known && final(w)@.scanned == old(w)@.scanned,
{
    reveal_strlit("default.audio.sink");
    reveal_strlit("default.audio.source");
    assert("default.audio.sink"@.len() != "default.audio.source"@.len());
}

/// A property without a key or without a value changes nothing.
pub proof fn lemma_incomplete_properties_are_ignored(
    w: &mut WatchState,
    key: Option<&str>,
    value: Option<&str>,
    event: Option<DeviceEvent>,
)
    requires
        call_ensures(WatchState::set_property, (w, key, value), event),
        key is None || value is None,
    ensures
        event is None,
        final(w)@ == old(w)@,
{
}

/// A watcher starts with nothing known, and the end of the first scan changes nothing else.
pub proof fn lemma_a_watcher_starts_with_nothing(fresh: WatchState, w: &mut WatchState)
    requires
        call_ensures(WatchState::new, (), fresh),
        call_ensures(WatchState::finish_scan, (w,), ()),
    ensures
        forall|id: u32| !(#[trigger] fresh@.known.contains_key(id)),
        !fresh@.scanned && fresh@.default_sink is None && fresh@.default_source is None,
        final(w)@.scanned,
        final(w)@.known == old(w)@.known,
        final(w)@.default_sink == old(w)@.default_sink,
        final(w)@.default_source == old(w)@.default_source,
{
}

} // verus!

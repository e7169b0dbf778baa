use flexaudio::lifecycle::Launch;
use flexaudio::linux::backends::{PwDeviceWatcher, PwProcessBackend, PwSystemBackend, SystemPlan};
use flexaudio::linux::capture::read_buffer;
use flexaudio::linux::devices::{
    describe_device, extract_json_name, keep_enumerating, list_devices, names_defaults,
    read_node, BarrierStep, EnumState, SyncBarrier,
};
use flexaudio::linux::graph::{
    capture_node_name, resolve_node_pid, NodeEntry, PidSelect, ProcessGraph,
};
use flexaudio::linux::pair::pair_ports;
use flexaudio::linux::props::{ObjectKind, Props, NATIVE_CHANNELS, NATIVE_RATE};
use flexaudio::linux::watch::{enqueue_event, WatchState, MAX_WATCH_EVENTS};
use flexaudio::types::{DeviceEvent, DeviceInfo, Error, ProcessMode, SourceKind};
use std::collections::HashMap;
use std::collections::VecDeque;

fn props(entries: &[(&str, &str)]) -> Props {
    Props {
        entries: entries
            .iter()
            .map(|(k, v)| (k.to_string(), v.to_string()))
            .collect(),
    }
}

fn assert_send<T: Send>() {}

#[test]
fn backend_is_send() {
    assert_send::<PwSystemBackend>();
}

#[test]
fn native_format_is_48k_stereo() {
    let be = PwSystemBackend::new(false);
    assert_eq!(be.native_format(), (NATIVE_RATE, NATIVE_CHANNELS));
    assert_eq!(be.native_format(), (48_000, 2));
    assert!(!be.exclude_self());
}

#[test]
fn stop_without_start_is_safe() {
    let mut be = PwSystemBackend::new(false);
    be.stop();
    let again = be.stop();
    assert!(!again.notify && !again.join);
}

#[test]
fn system_exclude_self_is_graceful() {
    let mut be = PwSystemBackend::new(true);
    assert!(be.exclude_self());
    assert_eq!(be.thread_name(), "flexaudio-pw-system-excl");
    assert_eq!(
        be.begin(77),
        Some(SystemPlan::Applications(PidSelect::Exclude(77)))
    );
    assert!(be.launched(Launch::Ready).is_ok());
    assert_eq!(be.begin(77), None);
    let stop = be.stop();
    assert!(stop.notify && stop.join);

    let mut be = PwSystemBackend::new(true);
    assert!(be.begin(77).is_some());
    match be.launched(Launch::Failed("no PipeWire".to_string())) {
        Err(Error::Backend(_)) => {}
        other => panic!("unexpected outcome: {other:?}"),
    }
}

#[test]
fn extract_json_name_parses_default_metadata_value() {
    assert_eq!(
        extract_json_name(r#"{"name":"alsa_output.pci-0000_00_1f.3.analog-stereo"}"#).as_deref(),
        Some("alsa_output.pci-0000_00_1f.3.analog-stereo")
    );
    assert_eq!(
        extract_json_name(r#"{ "name" : "foo.bar" }"#).as_deref(),
        Some("foo.bar")
    );
    assert_eq!(extract_json_name(r#"{"other":"x"}"#), None);
    assert_eq!(extract_json_name(r#"{"name":""}"#), None);
    assert_eq!(extract_json_name("not json"), None);
}

#[test]
fn list_devices_is_graceful_without_pipewire() {
    assert!(list_devices(Err("no daemon".to_string())).unwrap().is_empty());

    let mut state = EnumState::new();
    state.add_node(&props(&[
        ("media.class", "Audio/Sink"),
        ("node.name", "sink.a"),
        ("node.description", "Speakers"),
        ("audio.rate", "44100"),
        ("audio.channels", "6"),
    ]));
    state.add_node(&props(&[
        ("media.class", "Audio/Source"),
        ("node.name", "mic.a"),
    ]));
    state.add_node(&props(&[("media.class", "Audio/Source")]));
    state.add_node(&props(&[("media.class", "Video/Source"), ("node.name", "cam")]));
    state.set_property(Some("default.audio.sink"), Some(r#"{"name":"sink.a"}"#));
    state.set_property(Some("default.audio.source"), Some(r#"{"name":"mic.z"}"#));
    let devices = list_devices(Ok(state.devices())).expect("never an error");
    assert_eq!(devices.len(), 2);
    for d in &devices {
        assert!(!d.id.is_empty());
        match d.source_kind {
            SourceKind::SystemLoopback => assert!(d.is_loopback),
            SourceKind::Mic => assert!(!d.is_loopback),
            other => panic!("unexpected kind: {other:?}"),
        }
        assert!(d.sample_rate > 0);
        assert!(d.channels > 0);
    }
    let default_loopback = devices
        .iter()
        .filter(|d| d.is_default && d.is_loopback)
        .count();
    let default_mic = devices
        .iter()
        .filter(|d| d.is_default && !d.is_loopback)
        .count();
    assert_eq!(default_loopback, 1);
    assert_eq!(default_mic, 0);
    assert_eq!(
        devices[0],
        DeviceInfo {
            id: "sink.a".to_string(),
            name: "Speakers".to_string(),
            source_kind: SourceKind::SystemLoopback,
            sample_rate: 44_100,
            channels: 6,
            is_loopback: true,
            is_default: true,
        }
    );
    assert_eq!(devices[1].name, "mic.a");
    assert_eq!((devices[1].sample_rate, devices[1].channels), (48_000, 2));
}

#[test]
fn nodes_without_use_are_passed_over() {
    assert!(read_node(&props(&[("media.class", "Audio/Duplex"), ("node.name", "x")])).is_none());
    assert!(read_node(&props(&[("media.class", "Audio/Sink"), ("node.name", "")])).is_none());
    let node = read_node(&props(&[
        ("media.class", "Audio/Sink"),
        ("node.name", "x"),
        ("audio.rate", "fast"),
    ]))
    .unwrap();
    let info = describe_device(&node, &None, &None);
    assert_eq!(info.sample_rate, 48_000);
    assert!(!info.is_default);
}

#[test]
fn the_second_answer_ends_the_enumeration() {
    let mut barrier = SyncBarrier::new(7);
    assert_eq!(barrier.done(0, 6), BarrierStep::Ignore);
    assert!(!barrier.complete());
    let first = barrier.done(0, 7);
    assert_ne!(first, BarrierStep::Ignore);
    assert!(!barrier.resynced(Some(8)));
    assert!(!barrier.complete());
    assert_ne!(barrier.done(0, 8), BarrierStep::Ignore);
    assert!(barrier.complete());
    assert!(keep_enumerating(false, 1_999));
    assert!(!keep_enumerating(false, 2_000));
    assert!(!keep_enumerating(true, 0));
}

#[test]
fn start_is_graceful_without_pipewire() {
    let mut be = PwSystemBackend::new(false);
    assert_eq!(be.begin(1), Some(SystemPlan::Monitor));
    assert!(be.launched(Launch::Ready).is_ok());
    be.stop();

    let mut be = PwSystemBackend::new(false);
    assert!(be.begin(1).is_some());
    match be.launched(Launch::Vanished) {
        Err(Error::Backend(_)) => {}
        other => panic!("unexpected outcome: {other:?}"),
    }
}

#[test]
fn process_backend_is_send() {
    assert_send::<PwProcessBackend>();
}

#[test]
fn process_native_format_is_48k_stereo() {
    let be = PwProcessBackend::new(4242, ProcessMode::Exclude);
    assert_eq!(be.native_format(), (NATIVE_RATE, NATIVE_CHANNELS));
    assert_eq!(be.native_format(), (48_000, 2));
    assert_eq!(be.target_pid(), 4242);
    assert_eq!(be.mode(), ProcessMode::Exclude);
    let be2 = PwProcessBackend::new(1, ProcessMode::Include);
    assert_eq!(be2.mode(), ProcessMode::Include);
}

#[test]
fn process_stop_without_start_is_safe() {
    let mut be = PwProcessBackend::new(1234, ProcessMode::Include);
    be.stop();
    be.stop();
}

#[test]
fn process_exclude_mode_is_graceful() {
    let mut be = PwProcessBackend::new(u32::MAX, ProcessMode::Exclude);
    assert_eq!(be.begin(), Some(PidSelect::Exclude(u32::MAX)));
    assert!(be.launched(Launch::Ready).is_ok());
    assert_eq!(be.begin(), None);
    be.stop();
    be.stop();
    assert!(be.begin().is_some());
    match be.launched(Launch::Failed("registry".to_string())) {
        Err(Error::Backend(_)) => {}
        other => panic!("unexpected outcome: {other:?}"),
    }
}

#[test]
fn process_start_is_graceful_without_pipewire() {
    let mut be = PwProcessBackend::new(u32::MAX, ProcessMode::Include);
    assert_eq!(be.begin(), Some(PidSelect::Include(u32::MAX)));
    assert!(be.launched(Launch::Ready).is_ok());
    assert_eq!(be.begin(), None);
    be.stop();
    be.stop();
    assert!(be.begin().is_some());
    match be.launched(Launch::Failed("registry".to_string())) {
        Err(Error::Backend(_)) => {}
        other => panic!("unexpected outcome: {other:?}"),
    }
}

#[test]
fn resolve_node_pid_via_client_table() {
    let node = NodeEntry {
        owning_client_id: Some(60),
        app_pid: None,
    };

    let mut client_pid: HashMap<u32, u32> = HashMap::new();
    assert_eq!(resolve_node_pid(&node, &client_pid), None);

    client_pid.insert(60, 13394);
    assert_eq!(resolve_node_pid(&node, &client_pid), Some(13394));

    let orphan = NodeEntry {
        owning_client_id: None,
        app_pid: None,
    };
    assert_eq!(resolve_node_pid(&orphan, &client_pid), None);

    let node_with_pid = NodeEntry {
        owning_client_id: Some(99),
        app_pid: Some(424242),
    };
    let empty: HashMap<u32, u32> = HashMap::new();
    assert_eq!(resolve_node_pid(&node_with_pid, &empty), Some(424242));

    let other_node = NodeEntry {
        owning_client_id: Some(61),
        app_pid: None,
    };
    assert_eq!(resolve_node_pid(&other_node, &client_pid), None);
    client_pid.insert(61, 555);
    assert_eq!(resolve_node_pid(&other_node, &client_pid), Some(555));
    assert_eq!(resolve_node_pid(&node, &client_pid), Some(13394));
}

#[test]
fn pair_ports_maps_channels() {
    let out = vec![(10u32, "FL".to_string()), (11u32, "FR".to_string())];
    let inp = vec![(20u32, "FL".to_string()), (21u32, "FR".to_string())];
    let mut pairs = pair_ports(&out, &inp);
    pairs.sort();
    assert_eq!(pairs, vec![(10, 20), (11, 21)]);

    let inp_rev = vec![(21u32, "FR".to_string()), (20u32, "FL".to_string())];
    let mut pairs = pair_ports(&out, &inp_rev);
    pairs.sort();
    assert_eq!(pairs, vec![(10, 20), (11, 21)]);

    let mono_out = vec![(30u32, "MONO".to_string())];
    let stereo_in = vec![(40u32, "FL".to_string()), (41u32, "FR".to_string())];
    let mut pairs = pair_ports(&mono_out, &stereo_in);
    pairs.sort();
    assert_eq!(pairs, vec![(30, 40), (30, 41)]);

    let out_noch = vec![(50u32, String::new()), (51u32, String::new())];
    let in_noch = vec![(60u32, String::new()), (61u32, String::new())];
    let pairs = pair_ports(&out_noch, &in_noch);
    assert_eq!(pairs.len(), 2);
    let ins: std::collections::HashSet<u32> = pairs.iter().map(|(_, i)| *i).collect();
    assert_eq!(ins.len(), 2);

    assert!(pair_ports(&[], &inp).is_empty());
    assert!(pair_ports(&out, &[]).is_empty());

    let out_fl = vec![(70u32, "FL".to_string())];
    let in_fr = vec![(80u32, "FR".to_string())];
    let pairs = pair_ports(&out_fl, &in_fr);
    assert_eq!(pairs, vec![(70, 80)]);
}

#[test]
fn watcher_is_send() {
    assert_send::<PwDeviceWatcher>();
}

#[test]
fn watcher_graceful_without_pipewire() {
    match PwDeviceWatcher::start(Launch::Failed("no PipeWire".to_string())) {
        Err(Error::Backend(_)) => {}
        other => panic!("unexpected outcome: {other:?}"),
    }
    let mut w = PwDeviceWatcher::start(Launch::Ready).unwrap();
    assert!(w.poll_event().is_none());
    w.stop();
}

#[test]
fn watcher_double_stop_is_safe() {
    let mut w = PwDeviceWatcher::start(Launch::Ready).unwrap();
    let first = w.stop();
    assert!(first.notify && first.join);
    let second = w.stop();
    assert!(!second.notify && !second.join);
}

#[test]
fn watcher_hands_events_out_in_order() {
    let mut w = PwDeviceWatcher::start(Launch::Ready).unwrap();
    w.deliver(DeviceEvent::Removed { id: "a".into() });
    w.deliver(DeviceEvent::Removed { id: "b".into() });
    assert_eq!(w.poll_event(), Some(DeviceEvent::Removed { id: "a".into() }));
    assert_eq!(w.poll_event(), Some(DeviceEvent::Removed { id: "b".into() }));
    assert_eq!(w.poll_event(), None);
}

#[test]
fn enqueue_and_drain_is_fifo() {
    let mut events: VecDeque<DeviceEvent> = VecDeque::new();
    let mic = DeviceInfo {
        id: "mic.a".into(),
        name: "Mic A".into(),
        source_kind: SourceKind::Mic,
        sample_rate: NATIVE_RATE,
        channels: NATIVE_CHANNELS,
        is_loopback: false,
        is_default: false,
    };
    enqueue_event(&mut events, DeviceEvent::Added(mic.clone()));
    enqueue_event(&mut events, DeviceEvent::Removed { id: "mic.a".into() });
    enqueue_event(
        &mut events,
        DeviceEvent::DefaultChanged {
            kind: SourceKind::SystemLoopback,
            id: "sink.x".into(),
        },
    );
    let mut drained = Vec::new();
    while let Some(ev) = events.pop_front() {
        drained.push(ev);
    }
    assert_eq!(
        drained,
        vec![
            DeviceEvent::Added(mic),
            DeviceEvent::Removed { id: "mic.a".into() },
            DeviceEvent::DefaultChanged {
                kind: SourceKind::SystemLoopback,
                id: "sink.x".into(),
            },
        ]
    );
}

#[test]
fn enqueue_event_caps_queue_and_drops_oldest() {
    let mut events: VecDeque<DeviceEvent> = VecDeque::new();
    let total = MAX_WATCH_EVENTS + 10;
    for i in 0..total {
        enqueue_event(&mut events, DeviceEvent::Removed { id: format!("n{i}") });
    }
    assert_eq!(events.len(), MAX_WATCH_EVENTS);
    match events.front().unwrap() {
        DeviceEvent::Removed { id } => assert_eq!(id, "n10"),
        other => panic!("unexpected event: {other:?}"),
    }
    match events.back().unwrap() {
        DeviceEvent::Removed { id } => assert_eq!(id, &format!("n{}", total - 1)),
        other => panic!("unexpected event: {other:?}"),
    }
}

#[test]
fn the_first_scan_is_silent() {
    let mut watch = WatchState::new();
    let sink = props(&[("media.class", "Audio/Sink"), ("node.name", "sink.a")]);
    let mic = props(&[("media.class", "Audio/Source"), ("node.name", "mic.a")]);
    assert_eq!(watch.node_appeared(5, &sink), None);
    assert_eq!(
        watch.set_property(Some("default.audio.sink"), Some(r#"{"name":"sink.a"}"#)),
        None
    );
    assert!(!watch.scan_done());
    watch.finish_scan();
    assert!(watch.scan_done());
    match watch.node_appeared(6, &mic) {
        Some(DeviceEvent::Added(info)) => {
            assert_eq!(info.id, "mic.a");
            assert_eq!(info.source_kind, SourceKind::Mic);
        }
        other => panic!("unexpected event: {other:?}"),
    }
    assert_eq!(
        watch.removed(5),
        Some(DeviceEvent::Removed {
            id: "sink.a".into()
        })
    );
    assert_eq!(watch.removed(5), None);
    assert_eq!(
        watch.set_property(Some("default.audio.source"), Some(r#"{"name":"mic.a"}"#)),
        Some(DeviceEvent::DefaultChanged {
            kind: SourceKind::Mic,
            id: "mic.a".into()
        })
    );
    assert_eq!(
        watch.set_property(Some("default.audio.source"), Some(r#"{"name":"mic.a"}"#)),
        None
    );
}

fn play(graph: &mut ProcessGraph, order: &[usize]) -> Vec<(u32, Vec<(u32, u32)>)> {
    let objects = [
        (ObjectKind::Client, 60, props(&[("pipewire.sec.pid", "4242")])),
        (
            ObjectKind::Node,
            62,
            props(&[("media.class", "Stream/Output/Audio"), ("client.id", "60")]),
        ),
        (
            ObjectKind::Port,
            63,
            props(&[
                ("node.id", "62"),
                ("port.direction", "out"),
                ("audio.channel", "FL"),
            ]),
        ),
        (
            ObjectKind::Port,
            72,
            props(&[
                ("node.id", "70"),
                ("port.direction", "in"),
                ("audio.channel", "FL"),
            ]),
        ),
    ];
    let mut links = Vec::new();
    for &i in order {
        let (kind, id, p) = &objects[i];
        assert!(graph.register(*kind, *id, p));
        for plan in graph.try_link(70) {
            let wanted = plan.pairs.len();
            assert!(graph.confirm(plan.node, wanted, wanted));
            links.push((plan.node, plan.pairs));
        }
    }
    links
}

#[test]
fn links_do_not_depend_on_the_order_of_arrival() {
    let orders: [[usize; 4]; 4] = [[0, 1, 2, 3], [3, 2, 1, 0], [1, 3, 0, 2], [2, 0, 3, 1]];
    for order in orders {
        let mut graph = ProcessGraph::new(PidSelect::Include(4242));
        assert_eq!(play(&mut graph, &order), vec![(62, vec![(63, 72)])]);
        assert!(graph.is_linked(62));
        assert!(graph.try_link(70).is_empty());
    }
    let mut other = ProcessGraph::new(PidSelect::Include(1));
    assert!(play(&mut other, &[0, 1, 2, 3]).is_empty());
    let mut excluded = ProcessGraph::new(PidSelect::Exclude(4242));
    assert!(play(&mut excluded, &[0, 1, 2, 3]).is_empty());
    let mut rest = ProcessGraph::new(PidSelect::Exclude(1));
    assert_eq!(play(&mut rest, &[0, 1, 2, 3]), vec![(62, vec![(63, 72)])]);
}

#[test]
fn a_node_that_goes_away_gives_its_links_up() {
    let mut graph = ProcessGraph::new(PidSelect::Include(4242));
    play(&mut graph, &[0, 1, 2, 3]);
    let removal = graph.remove(62);
    assert_eq!(removal.dropped, vec![62]);
    assert!(!graph.is_linked(62));
    let removal = graph.remove(62);
    assert!(removal.dropped.is_empty());
}

#[test]
fn objects_without_use_are_passed_over() {
    let mut graph = ProcessGraph::new(PidSelect::Include(1));
    assert!(!graph.register(ObjectKind::Client, 1, &props(&[])));
    assert!(!graph.register(
        ObjectKind::Node,
        2,
        &props(&[("media.class", "Stream/Input/Audio")])
    ));
    assert!(!graph.register(ObjectKind::Port, 3, &props(&[("node.id", "2")])));
    assert!(!graph.register(ObjectKind::Metadata, 4, &props(&[])));
}

#[test]
fn capture_nodes_are_named_after_the_process() {
    assert_eq!(capture_node_name(4242), "flexaudio-capture-4242");
}

#[test]
fn buffers_are_read_within_their_bounds() {
    let mut bytes: Vec<u8> = vec![0xff; 4];
    bytes.extend_from_slice(&0.5f32.to_le_bytes());
    bytes.extend_from_slice(&(-2.0f32).to_le_bytes());
    bytes.push(0xff);
    assert_eq!(
        read_buffer(&bytes, 4, 8),
        Some(vec![0.5f32.to_bits(), (-2.0f32).to_bits()])
    );
    assert_eq!(
        read_buffer(&bytes, 4, 7),
        Some(vec![0.5f32.to_bits()])
    );
    assert_eq!(read_buffer(&bytes, 4, 10), None);
    assert_eq!(read_buffer(&bytes, 4, 3), None);
    assert_eq!(read_buffer(&bytes, 4, 0), None);
    assert_eq!(read_buffer(&bytes, u32::MAX, u32::MAX), None);
}

#[test]
fn only_the_default_metadata_names_defaults() {
    assert!(names_defaults(&props(&[("metadata.name", "default")])));
    assert!(!names_defaults(&props(&[("metadata.name", "settings")])));
    assert!(!names_defaults(&props(&[("name", "default")])));
}

#[test]
fn the_mode_decides_the_selection() {
    assert_eq!(PidSelect::of_mode(7, ProcessMode::Include), PidSelect::Include(7));
    assert_eq!(PidSelect::of_mode(7, ProcessMode::Exclude), PidSelect::Exclude(7));
}

#[test]
fn a_name_may_hold_colons_and_the_key_itself() {
    assert_eq!(
        extract_json_name(r#"{"name":"bluez:sink"}"#),
        Some("bluez:sink".to_string())
    );
    assert_eq!(
        extract_json_name(r#"{"name":"a:b:c","id":"d"}"#),
        Some("a:b:c".to_string())
    );
    assert_eq!(extract_json_name(r#"{"name":"name"}"#), Some("name".to_string()));
    assert_eq!(extract_json_name(r#"{"name" "x"}"#), None);
}

#[test]
fn a_failed_spawn_leaves_room_for_another_start() {
    let mut be = PwSystemBackend::new(false);
    assert!(be.begin(1).is_some());
    assert!(be
        .launched(Launch::SpawnFailed("no memory".to_string()))
        .is_err());
    assert_eq!(be.begin(1), Some(SystemPlan::Monitor));
    assert!(be.launched(Launch::Ready).is_ok());
    assert_eq!(be.begin(1), None);
}

#[test]
fn a_partial_link_is_not_kept() {
    let mut graph = ProcessGraph::new(PidSelect::Exclude(1));
    for id in [62u32, 64] {
        graph.register(
            ObjectKind::Node,
            id,
            &props(&[("media.class", "Stream/Output/Audio"), ("pipewire.sec.pid", "9")]),
        );
        let node = id.to_string();
        graph.register(
            ObjectKind::Port,
            id + 1,
            &props(&[("node.id", &node), ("port.direction", "out"), ("audio.channel", "FL")]),
        );
    }
    graph.register(
        ObjectKind::Port,
        72,
        &props(&[("node.id", "70"), ("port.direction", "in"), ("audio.channel", "FL")]),
    );
    let mut plans: Vec<u32> = graph.try_link(70).iter().map(|p| p.node).collect();
    plans.sort();
    assert_eq!(plans, vec![62, 64]);
    assert!(!graph.confirm(62, 1, 0));
    assert!(graph.confirm(64, 1, 1));
    assert!(!graph.is_linked(62) && graph.is_linked(64));
    let again: Vec<u32> = graph.try_link(70).iter().map(|p| p.node).collect();
    assert_eq!(again, vec![62]);
}

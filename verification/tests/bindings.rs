use flexaudio::bindings::node::{
    answer, build_config, chunk_to_js, device_event_to_js, device_info_to_js, event_to_js,
    first_step, next_step, parse_process_mode, parse_source_kind, to_napi_err, BridgeStep,
    FlexStream, OpenOptions, Reply, Status,
};
use flexaudio::bindings::python;
use flexaudio::bindings::source_kind_str;
use flexaudio::types::{
    AudioChunk, ChunkFlags, DeviceEvent, DeviceInfo, Error, Event, ProcessMode, SourceKind,
    StreamConfig,
};

fn bits(values: &[f32]) -> Vec<u32> {
    values.iter().map(|v| v.to_bits()).collect()
}

#[test]
fn lib_source_kind_roundtrips() {
    for (s, k) in [
        ("mic", SourceKind::Mic),
        ("system", SourceKind::SystemLoopback),
        ("process", SourceKind::ProcessLoopback),
        ("mix", SourceKind::Mix),
    ] {
        assert_eq!(parse_source_kind(s).unwrap(), k);
        assert_eq!(source_kind_str(k), s);
    }
    for (s, k) in [
        ("mic", SourceKind::Mic),
        ("system", SourceKind::SystemLoopback),
        ("process", SourceKind::ProcessLoopback),
    ] {
        assert_eq!(python::parse_source_kind(s).unwrap(), k);
        assert_eq!(source_kind_str(k), s);
    }
}

#[test]
fn lib_parse_source_kind_rejects_unknown() {
    let err = parse_source_kind("bogus").unwrap_err();
    assert_eq!(err.status, Status::InvalidArg);
    assert!(err.reason.contains("\"bogus\""));
    assert!(python::parse_source_kind("bogus").is_err());
    assert!(python::parse_source_kind("mix").is_err());
}

#[test]
fn unknown_words_are_quoted() {
    assert_eq!(
        python::parse_source_kind("a\"b\n"),
        Err(python::PyError::Value(
            "unknown kind: \"a\\\"b\\n\" (expected mic|system|process)".to_string()
        ))
    );
}

#[test]
fn lib_parse_process_mode_defaults_and_explicit() {
    assert_eq!(parse_process_mode(None).unwrap(), ProcessMode::Include);
    assert_eq!(
        parse_process_mode(Some("include")).unwrap(),
        ProcessMode::Include
    );
    assert_eq!(
        parse_process_mode(Some("exclude")).unwrap(),
        ProcessMode::Exclude
    );
    assert_eq!(
        python::parse_process_mode("include").unwrap(),
        ProcessMode::Include
    );
    assert_eq!(
        python::parse_process_mode("exclude").unwrap(),
        ProcessMode::Exclude
    );
    assert!(python::parse_process_mode("nope").is_err());
}

#[test]
fn parse_process_mode_rejects_unknown() {
    let err = parse_process_mode(Some("nope")).unwrap_err();
    assert_eq!(err.status, Status::InvalidArg);
}

fn options_with_kind(kind: &str) -> OpenOptions {
    OpenOptions {
        kind: kind.to_string(),
        device_id: None,
        process_id: None,
        mode: None,
        exclude_self: None,
        output_rate: None,
        output_channels: None,
        chunk_ms: None,
        gain: None,
        mic_device_id: None,
        system_device_id: None,
        mic_gain: None,
        system_gain: None,
    }
}

#[test]
fn lib_build_config_defaults() {
    let opts = options_with_kind("mic");
    let cfg = build_config(&opts).unwrap();
    assert_eq!(cfg.kind, SourceKind::Mic);
    assert_eq!(cfg.output.sample_rate, 48_000);
    assert_eq!(cfg.output.channels, 2);
    assert_eq!(cfg.mode, ProcessMode::Include);
    assert!(!cfg.exclude_self);
    assert_eq!(cfg.target_pid, None);
    assert_eq!(cfg.device_id, None);
    assert_eq!(cfg.chunk_ms, 20);
    assert_eq!(cfg.gain, 1.0f32.to_bits());
    assert_eq!(cfg.mix_mic_device_id, None);
    assert_eq!(cfg.mix_system_device_id, None);
    assert_eq!(cfg.mix_mic_gain, 1.0f32.to_bits());
    assert_eq!(cfg.mix_system_gain, 1.0f32.to_bits());

    let one = 1.0f32.to_bits();
    let cfg =
        python::build_config("mic", None, None, "include", false, 48_000, 2, 20, one).unwrap();
    assert_eq!(cfg.kind, SourceKind::Mic);
    assert_eq!(cfg.output.sample_rate, 48_000);
    assert_eq!(cfg.output.channels, 2);
    assert_eq!(cfg.mode, ProcessMode::Include);
    assert!(!cfg.exclude_self);
    assert_eq!(cfg.target_pid, None);
    assert_eq!(cfg.device_id, None);
    assert_eq!(cfg.chunk_ms, 20);
    assert_eq!(cfg.gain, one);
    assert_eq!(
        cfg.ring_capacity_chunks,
        StreamConfig::default().ring_capacity_chunks
    );
}

#[test]
fn lib_build_config_reflects_all_fields() {
    let opts = OpenOptions {
        kind: "process".to_string(),
        device_id: Some("dev-x".to_string()),
        process_id: Some(9999),
        mode: Some("exclude".to_string()),
        exclude_self: Some(true),
        output_rate: Some(16_000),
        output_channels: Some(1),
        chunk_ms: Some(20),
        gain: Some(2.5f32.to_bits()),
        mic_device_id: None,
        system_device_id: None,
        mic_gain: None,
        system_gain: None,
    };
    let cfg = build_config(&opts).unwrap();
    assert_eq!(cfg.kind, SourceKind::ProcessLoopback);
    assert_eq!(cfg.device_id.as_deref(), Some("dev-x"));
    assert_eq!(cfg.target_pid, Some(9999));
    assert_eq!(cfg.mode, ProcessMode::Exclude);
    assert!(cfg.exclude_self);
    assert_eq!(cfg.output.sample_rate, 16_000);
    assert_eq!(cfg.output.channels, 1);
    assert_eq!(cfg.chunk_ms, 20);
    assert_eq!(cfg.gain, 2.5f32.to_bits());

    let cfg = python::build_config(
        "process",
        Some("dev-x".to_string()),
        Some(9999),
        "exclude",
        true,
        16_000,
        1,
        20,
        2.5f32.to_bits(),
    )
    .unwrap();
    assert_eq!(cfg.kind, SourceKind::ProcessLoopback);
    assert_eq!(cfg.device_id.as_deref(), Some("dev-x"));
    assert_eq!(cfg.target_pid, Some(9999));
    assert_eq!(cfg.mode, ProcessMode::Exclude);
    assert!(cfg.exclude_self);
    assert_eq!(cfg.output.sample_rate, 16_000);
    assert_eq!(cfg.output.channels, 1);
    assert_eq!(cfg.gain, 2.5f32.to_bits());
}

#[test]
fn lib_build_config_reflects_mix_fields() {
    let mut opts = options_with_kind("mix");
    opts.mic_device_id = Some("mic-a".to_string());
    opts.system_device_id = Some("sink-b".to_string());
    opts.mic_gain = Some(0.5f32.to_bits());
    opts.system_gain = Some(2.0f32.to_bits());
    let cfg = build_config(&opts).unwrap();
    assert_eq!(cfg.kind, SourceKind::Mix);
    assert_eq!(cfg.mix_mic_device_id.as_deref(), Some("mic-a"));
    assert_eq!(cfg.mix_system_device_id.as_deref(), Some("sink-b"));
    assert_eq!(cfg.mix_mic_gain, 0.5f32.to_bits());
    assert_eq!(cfg.mix_system_gain, 2.0f32.to_bits());
}

#[test]
fn lib_build_config_rejects_unknown_kind() {
    let opts = options_with_kind("speaker");
    let err = build_config(&opts).unwrap_err();
    assert_eq!(err.status, Status::InvalidArg);
    let one = 1.0f32.to_bits();
    assert!(
        python::build_config("speaker", None, None, "include", false, 48_000, 2, 20, one).is_err()
    );
}

#[test]
fn to_napi_err_carries_message_and_status() {
    let err = to_napi_err(Error::DeviceNotFound);
    assert_eq!(err.status, Status::GenericFailure);
    assert_eq!(err.reason, Error::DeviceNotFound.message());
    assert!(err.reason.contains("device not found"));
}

#[test]
fn event_to_js_maps_each_variant() {
    let dropped = event_to_js(Event::ChunkDropped { count: 7 });
    assert_eq!(dropped.kind, "chunkDropped");
    assert_eq!(dropped.count, Some(7));
    assert_eq!(dropped.message, None);

    assert_eq!(event_to_js(Event::StreamStalled).kind, "stalled");
    assert_eq!(event_to_js(Event::StreamRecovered).kind, "recovered");
    assert_eq!(
        event_to_js(Event::PermissionDenied).kind,
        "permissionDenied"
    );
    assert_eq!(event_to_js(Event::DeviceLost).kind, "deviceLost");

    let errev = event_to_js(Event::Error("boom".to_string()));
    assert_eq!(errev.kind, "error");
    assert_eq!(errev.message, Some("boom".to_string()));
}

#[test]
fn device_event_to_js_maps_variants() {
    let info = DeviceInfo {
        id: "node-1".to_string(),
        name: "Mic A".to_string(),
        source_kind: SourceKind::Mic,
        sample_rate: 48_000,
        channels: 2,
        is_loopback: false,
        is_default: true,
    };
    let added = device_event_to_js(DeviceEvent::Added(info));
    assert_eq!(added.kind, "added");
    let dev = added.device.expect("device present");
    assert_eq!(dev.id, "node-1");
    assert_eq!(dev.source_kind, "mic");
    assert!(dev.is_default);

    let removed = device_event_to_js(DeviceEvent::Removed {
        id: "gone".to_string(),
    });
    assert_eq!(removed.kind, "removed");
    assert_eq!(removed.id.as_deref(), Some("gone"));

    let changed = device_event_to_js(DeviceEvent::DefaultChanged {
        kind: SourceKind::SystemLoopback,
        id: "sink-2".to_string(),
    });
    assert_eq!(changed.kind, "defaultChanged");
    assert_eq!(changed.id.as_deref(), Some("sink-2"));
    assert_eq!(changed.source_kind.as_deref(), Some("system"));
}

#[test]
fn device_info_to_js_maps_all_fields() {
    let info = DeviceInfo {
        id: "id-x".to_string(),
        name: "Name X".to_string(),
        source_kind: SourceKind::SystemLoopback,
        sample_rate: 44_100,
        channels: 1,
        is_loopback: true,
        is_default: false,
    };
    let js = device_info_to_js(info);
    assert_eq!(js.id, "id-x");
    assert_eq!(js.name, "Name X");
    assert_eq!(js.source_kind, "system");
    assert_eq!(js.sample_rate, 44_100);
    assert_eq!(js.channels, 1);
    assert!(js.is_loopback);
    assert!(!js.is_default);
}

fn chunk() -> AudioChunk {
    AudioChunk {
        data: bits(&[0.0, 1.0, -1.0, 0.5]),
        frames: 2,
        pts_ns: 123,
        seq: 9_007_199_254_740_993,
        flags: ChunkFlags::empty(),
        dropped_before: 3,
        peak: 1.0f32.to_bits(),
        rms: 0.5f32.to_bits(),
    }
}

#[test]
fn chunk_to_js_carries_fields() {
    let js = chunk_to_js(chunk());
    assert_eq!(js.seq, 9_007_199_254_740_993);
    assert_eq!(js.frames, 2);
    assert_eq!(js.data, bits(&[0.0, 1.0, -1.0, 0.5]));
    assert_eq!(js.dropped_before, 3);
}

#[test]
fn to_py_err_preserves_message() {
    let msg = Error::DeviceNotFound.message();
    assert!(msg.contains("device not found"));
    assert_eq!(
        python::to_py_err(Error::DeviceNotFound),
        python::PyError::Runtime(msg)
    );
    assert_eq!(
        python::to_py_err(Error::InvalidArg("x".to_string())),
        python::PyError::Value("invalid argument: x".to_string())
    );
}

#[test]
fn event_to_py_maps_each_variant() {
    let dropped = python::event_to_py(Event::ChunkDropped { count: 7 });
    assert_eq!(dropped.kind, "chunkDropped");
    assert_eq!(dropped.count, Some(7));
    assert_eq!(python::event_to_py(Event::StreamStalled).kind, "stalled");
    assert_eq!(python::event_to_py(Event::StreamRecovered).kind, "recovered");
    assert_eq!(
        python::event_to_py(Event::PermissionDenied).kind,
        "permissionDenied"
    );
    assert_eq!(python::event_to_py(Event::DeviceLost).kind, "deviceLost");
    let errev = python::event_to_py(Event::Error("boom".to_string()));
    assert_eq!(errev.kind, "error");
    assert_eq!(errev.message.as_deref(), Some("boom"));
}

#[test]
fn chunk_to_py_carries_fields() {
    let py = python::chunk_to_py(chunk());
    assert_eq!(py.frames, 2);
    assert_eq!(py.pts_ns, 123);
    assert_eq!(py.seq, 9_007_199_254_740_993);
    assert_eq!(py.dropped_before, 3);
    assert_eq!(py.samples, bits(&[0.0, 1.0, -1.0, 0.5]));
    assert_eq!(py.data().len(), 16);
    assert_eq!(py.data()[4..8].to_vec(), 1.0f32.to_le_bytes().to_vec());
    assert_eq!(
        py.repr("1", "0.5"),
        "AudioChunk(frames=2, seq=9007199254740993, pts_ns=123, flags=0, dropped_before=3, peak=1, rms=0.5)"
    );
}

#[test]
fn device_info_to_py_maps_all_fields() {
    let info = DeviceInfo {
        id: "id-x".to_string(),
        name: "Name X".to_string(),
        source_kind: SourceKind::SystemLoopback,
        sample_rate: 44_100,
        channels: 1,
        is_loopback: true,
        is_default: false,
    };
    let py = python::device_info_to_py(info);
    assert_eq!(py.id, "id-x");
    assert_eq!(py.source_kind, "system");
    assert_eq!(py.sample_rate, 44_100);
    assert!(py.is_loopback);
    assert!(!py.is_default);
    assert_eq!(
        py.repr(),
        "DeviceInfo(id=\"id-x\", name=\"Name X\", source_kind=\"system\", sample_rate=44100, channels=1, is_loopback=True, is_default=False)"
    );
}

#[test]
fn events_are_shown_with_what_they_carry() {
    assert_eq!(
        python::event_to_py(Event::ChunkDropped { count: 7 }).repr(),
        "StreamEvent(type=\"chunkDropped\", count=Some(7), message=None)"
    );
    assert_eq!(
        python::event_to_py(Event::Error("a\tb".to_string())).repr(),
        "StreamEvent(type=\"error\", count=None, message=Some(\"a\\tb\"))"
    );
}

#[test]
fn a_stopped_stream_takes_no_command() {
    let mut stream = FlexStream::spawned();
    assert!(stream.accept().is_ok());
    assert!(stream.accept_switch(&options_with_kind("mic")).is_ok());
    assert!(stream.accept_gain(0.5f32.to_bits(), "0.5").is_ok());
    let err = stream
        .accept_gain((-1.0f32).to_bits(), "-1")
        .unwrap_err();
    assert_eq!(err.status, Status::InvalidArg);
    assert_eq!(err.reason, "gain must be finite and >= 0.0, got -1");
    assert!(stream.accept_gain(f32::NAN.to_bits(), "NaN").is_err());
    assert!(stream.stop());
    assert!(!stream.stop());
    assert_eq!(
        stream.accept().unwrap_err().reason,
        "stream already stopped"
    );
    let err = stream
        .accept_switch(&options_with_kind("bogus"))
        .unwrap_err();
    assert_eq!(err.status, Status::InvalidArg);
}

#[test]
fn replies_are_passed_on() {
    assert!(answer(Reply::Answered(Ok(()))).is_ok());
    assert_eq!(
        answer(Reply::Answered(Err("no".to_string())))
            .unwrap_err()
            .reason,
        "no"
    );
    assert_eq!(
        answer(Reply::NotRunning).unwrap_err().reason,
        "bridge thread is not running"
    );
    assert_eq!(
        answer(Reply::Dropped).unwrap_err().reason,
        "bridge thread dropped before responding"
    );
}

#[test]
fn a_bridge_empties_the_stream_before_it_stops() {
    let mut step = first_step(false);
    let mut seen = Vec::new();
    let found = [true, false, true, false, false, false];
    for f in found {
        seen.push(step);
        step = next_step(step, f, true);
    }
    assert_eq!(
        seen,
        vec![
            BridgeStep::Command,
            BridgeStep::Command,
            BridgeStep::Chunk,
            BridgeStep::Chunk,
            BridgeStep::Event,
            BridgeStep::Sleep,
        ]
    );
    assert_eq!(step, BridgeStep::LastChunk);
    assert_eq!(next_step(step, true, true), BridgeStep::LastChunk);
    assert_eq!(next_step(step, false, true), BridgeStep::Stop);
}

#[test]
fn a_refused_switch_says_why() {
    let stream = FlexStream::spawned();
    let e = stream.accept_switch(&options_with_kind("bogus")).unwrap_err();
    let direct = build_config(&options_with_kind("bogus")).unwrap_err();
    assert_eq!(e.reason, direct.reason);
    let mut options = options_with_kind("mic");
    options.mode = Some("sideways".to_string());
    let e = stream.accept_switch(&options).unwrap_err();
    let direct = build_config(&options).unwrap_err();
    assert_eq!(e.reason, direct.reason);
    assert!(e.reason.contains("sideways"));
}

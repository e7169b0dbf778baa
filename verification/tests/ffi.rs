use flexaudio::ffi::{
    build_config, caught_panic, chunk_to_c, clear_last_error, device_info_to_c, event_to_c, finish,
    finish_gain, free_chunk_data, null_pointer, poll_code, set_last_error, source_kind_from_c,
    source_kind_to_c, string_to_c, FlexConfig, FlexDeviceInfo, FlexEventKind, FlexProcessMode,
    FlexSourceKind, LastError, FLEX_FAILURE, FLEX_INVALID_ARG, FLEX_OK, FLEX_PANIC,
};
use flexaudio::types::{
    AudioChunk, ChunkFlags, DeviceInfo, Error, Event, ProcessMode, SourceKind,
};

fn bits(values: &[f32]) -> Vec<u32> {
    values.iter().map(|v| v.to_bits()).collect()
}

fn make_config(kind: FlexSourceKind) -> FlexConfig {
    FlexConfig {
        kind,
        device_id: None,
        process_id: 0,
        mode: FlexProcessMode::Include,
        exclude_self: false,
        output_rate: 0,
        output_channels: 0,
        chunk_ms: 0,
        gain: 0.0f32.to_bits(),
        mix_mic_device_id: None,
        mix_system_device_id: None,
        mix_mic_gain: 0.0f32.to_bits(),
        mix_system_gain: 0.0f32.to_bits(),
    }
}

#[test]
fn build_config_applies_defaults_for_sentinels() {
    let c = make_config(FlexSourceKind::Mic);
    let cfg = build_config(&c, &mut LastError::new()).unwrap();
    assert_eq!(cfg.kind, SourceKind::Mic);
    assert_eq!(cfg.output.sample_rate, 48_000);
    assert_eq!(cfg.output.channels, 2);
    assert_eq!(cfg.chunk_ms, 20);
    assert_eq!(cfg.target_pid, None);
    assert_eq!(cfg.device_id, None);
    assert_eq!(cfg.mode, ProcessMode::Include);
    assert!(!cfg.exclude_self);
    assert_eq!(cfg.gain, 1.0f32.to_bits());
    assert_eq!(cfg.mix_mic_device_id, None);
    assert_eq!(cfg.mix_system_device_id, None);
    assert_eq!(cfg.mix_mic_gain, 1.0f32.to_bits());
    assert_eq!(cfg.mix_system_gain, 1.0f32.to_bits());
    assert_eq!(cfg.ring_capacity_chunks, 50);
}

#[test]
fn build_config_reflects_explicit_values() {
    let mut c = make_config(FlexSourceKind::Process);
    c.process_id = 4321;
    c.mode = FlexProcessMode::Exclude;
    c.exclude_self = true;
    c.output_rate = 16_000;
    c.output_channels = 1;
    c.chunk_ms = 20;
    c.gain = 2.5f32.to_bits();
    let cfg = build_config(&c, &mut LastError::new()).unwrap();
    assert_eq!(cfg.kind, SourceKind::ProcessLoopback);
    assert_eq!(cfg.target_pid, Some(4321));
    assert_eq!(cfg.mode, ProcessMode::Exclude);
    assert!(cfg.exclude_self);
    assert_eq!(cfg.output.sample_rate, 16_000);
    assert_eq!(cfg.output.channels, 1);
    assert_eq!(cfg.chunk_ms, 20);
    assert_eq!(cfg.gain, 2.5f32.to_bits());
}

#[test]
fn build_config_maps_gain_sentinel_and_explicit() {
    let c = make_config(FlexSourceKind::Mic);
    let cfg = build_config(&c, &mut LastError::new()).unwrap();
    assert_eq!(cfg.gain, 1.0f32.to_bits());
    let mut c2 = make_config(FlexSourceKind::Mic);
    c2.gain = 0.5f32.to_bits();
    let cfg2 = build_config(&c2, &mut LastError::new()).unwrap();
    assert_eq!(cfg2.gain, 0.5f32.to_bits());
    // The other zero is the sentinel too.
    let mut c3 = make_config(FlexSourceKind::Mic);
    c3.gain = (-0.0f32).to_bits();
    let cfg3 = build_config(&c3, &mut LastError::new()).unwrap();
    assert_eq!(cfg3.gain, 1.0f32.to_bits());
}

#[test]
fn build_config_reads_device_id() {
    let mut c = make_config(FlexSourceKind::Mic);
    c.device_id = Some(b"dev-x".to_vec());
    let cfg = build_config(&c, &mut LastError::new()).unwrap();
    assert_eq!(cfg.device_id.as_deref(), Some("dev-x"));
}

#[test]
fn convert_build_config_reflects_mix_fields() {
    let mut c = make_config(FlexSourceKind::Mix);
    c.mix_mic_device_id = Some(b"mic-a".to_vec());
    c.mix_system_device_id = Some(b"sink-b".to_vec());
    c.mix_mic_gain = 0.5f32.to_bits();
    c.mix_system_gain = 2.0f32.to_bits();
    let cfg = build_config(&c, &mut LastError::new()).unwrap();
    assert_eq!(cfg.kind, SourceKind::Mix);
    assert_eq!(cfg.mix_mic_device_id.as_deref(), Some("mic-a"));
    assert_eq!(cfg.mix_system_device_id.as_deref(), Some("sink-b"));
    assert_eq!(cfg.mix_mic_gain, 0.5f32.to_bits());
    assert_eq!(cfg.mix_system_gain, 2.0f32.to_bits());
}

#[test]
fn bad_texts_are_named() {
    let mut slot = LastError::new();
    let mut c = make_config(FlexSourceKind::Mix);
    c.mix_mic_device_id = Some(vec![0xc3, 0x28]);
    c.mix_system_device_id = Some(vec![0xff]);
    assert!(build_config(&c, &mut slot).is_err());
    assert_eq!(slot.get(), Some("mix_mic_device_id is not valid UTF-8"));
    c.mix_mic_device_id = Some("マイク".as_bytes().to_vec());
    assert!(build_config(&c, &mut slot).is_err());
    assert_eq!(slot.get(), Some("mix_system_device_id is not valid UTF-8"));
    c.mix_system_device_id = None;
    let cfg = build_config(&c, &mut slot).unwrap();
    assert_eq!(cfg.mix_mic_device_id.as_deref(), Some("マイク"));
}

#[test]
fn convert_source_kind_roundtrips() {
    for (c, k) in [
        (FlexSourceKind::Mic, SourceKind::Mic),
        (FlexSourceKind::System, SourceKind::SystemLoopback),
        (FlexSourceKind::Process, SourceKind::ProcessLoopback),
        (FlexSourceKind::Mix, SourceKind::Mix),
    ] {
        assert_eq!(source_kind_from_c(c), k);
        assert_eq!(source_kind_to_c(k), c);
    }
}

#[test]
fn chunk_to_c_keeps_ptr_and_len_consistent() {
    let chunk = AudioChunk {
        data: bits(&[0.1, -0.2, 0.3, -0.4]),
        frames: 2,
        pts_ns: 123,
        seq: 9,
        flags: ChunkFlags::discontinuity(),
        dropped_before: 1,
        peak: 0.4f32.to_bits(),
        rms: 0.25f32.to_bits(),
    };
    let mut fc = chunk_to_c(chunk);
    assert_eq!(fc.len, 4);
    assert_eq!(fc.frames, 2);
    assert_eq!(fc.flags, ChunkFlags::discontinuity().bits());
    assert_eq!(fc.dropped_before, 1);
    assert_eq!(fc.data, Some(bits(&[0.1, -0.2, 0.3, -0.4])));
    free_chunk_data(&mut fc);
    assert!(fc.data.is_none());
    assert_eq!(fc.len, 0);
    free_chunk_data(&mut fc);
    assert_eq!(fc.len, 0);
}

#[test]
fn event_to_c_maps_each_variant() {
    let mut slot = LastError::new();
    assert_eq!(
        event_to_c(Event::ChunkDropped { count: 5 }, &mut slot).kind,
        FlexEventKind::ChunkDropped
    );
    assert_eq!(
        event_to_c(Event::ChunkDropped { count: 5 }, &mut slot).count,
        5
    );
    assert_eq!(
        event_to_c(Event::StreamStalled, &mut slot).kind,
        FlexEventKind::Stalled
    );
    assert_eq!(
        event_to_c(Event::StreamRecovered, &mut slot).kind,
        FlexEventKind::Recovered
    );
    assert_eq!(
        event_to_c(Event::PermissionDenied, &mut slot).kind,
        FlexEventKind::PermissionDenied
    );
    assert_eq!(
        event_to_c(Event::DeviceLost, &mut slot).kind,
        FlexEventKind::DeviceLost
    );
    assert_eq!(slot.get(), None);
    let err = event_to_c(Event::Error("boom".to_string()), &mut slot);
    assert_eq!(err.kind, FlexEventKind::Error);
    assert_eq!(err.count, 0);
    assert_eq!(slot.get(), Some("boom"));
}

#[test]
fn device_info_to_c_and_free_roundtrip() {
    let infos = vec![DeviceInfo {
        id: "id-1".to_string(),
        name: "Mic A".to_string(),
        source_kind: SourceKind::Mic,
        sample_rate: 48_000,
        channels: 2,
        is_loopback: false,
        is_default: true,
    }];
    let boxed: Box<[FlexDeviceInfo]> = infos.into_iter().map(device_info_to_c).collect();
    assert_eq!(boxed.len(), 1);
    let first = &boxed[0];
    assert_eq!(first.source_kind, FlexSourceKind::Mic);
    assert!(first.is_default);
    assert_eq!(first.id, "id-1");
}

#[test]
fn texts_with_a_zero_do_not_reach_c() {
    assert_eq!(string_to_c("a\0b".to_string()), "");
    assert_eq!(string_to_c("ab".to_string()), "ab");
    let mut slot = LastError::new();
    set_last_error(&mut slot, "a\0b".to_string());
    assert_eq!(slot.get(), Some("error message contained a NUL byte"));
    clear_last_error(&mut slot);
    assert_eq!(slot.get(), None);
}

#[test]
fn outcomes_become_codes() {
    let mut slot = LastError::new();
    assert_eq!(finish(Ok(()), &mut slot), FLEX_OK);
    assert_eq!(slot.get(), None);
    assert_eq!(finish(Err(Error::DeviceLost), &mut slot), FLEX_FAILURE);
    assert_eq!(slot.get(), Some("device lost"));
    assert_eq!(
        finish_gain(Err(Error::InvalidArg("gain".into())), &mut slot),
        FLEX_INVALID_ARG
    );
    assert_eq!(slot.get(), Some("invalid argument: gain"));
    assert_eq!(finish_gain(Ok(()), &mut slot), FLEX_OK);
    assert_eq!(
        null_pointer("flexaudio_open", "config", &mut slot),
        FLEX_INVALID_ARG
    );
    assert_eq!(
        slot.get(),
        Some("flexaudio_open: config pointer is null")
    );
    assert_eq!(caught_panic(&mut slot), FLEX_PANIC);
    assert_eq!((poll_code(true), poll_code(false)), (1, 0));
}

use flexaudio::cli::args::{
    config_for_kind, parse_sources, parse_sources_where, plan, plan_where, Cli, EncodingArg,
    ModeArg, Plan, Segment, SourceArg,
};
use flexaudio::cli::recording::{stdout_recording, wav_recording, Recording, Step, Written};
use flexaudio::cli::report::{
    describe_error, destination_line, device_header, device_id_line, device_line, event_line,
    format_line, is_nearly_silent, schedule_line, seconds_line, source_kind_label, source_title,
    switch_failed_line, switched_line, write_chunk, write_wav,
};
use flexaudio::cli::schedule::{SwitchScheduler, SECOND_NS};
use flexaudio::cli::words::{split, trim, truncate};
use flexaudio::types::{
    AudioChunk, ChunkFlags, DeviceEvent, DeviceInfo, Error, OutputFormat, ProcessMode, SourceKind,
};
use std::io::Cursor;

fn bits(values: &[f32]) -> Vec<u32> {
    values.iter().map(|v| v.to_bits()).collect()
}

/// What the command line means without any argument.
fn cli() -> Cli {
    Cli {
        list_devices: false,
        watch_devices: false,
        source: SourceArg::Mic,
        sources: None,
        process_id: None,
        device_id: None,
        mode: ModeArg::Include,
        exclude_self: false,
        seconds: 5,
        out: "out.wav".to_string(),
        encoding: EncodingArg::F32,
        output_rate: 48_000,
        output_channels: 2,
        gain: 1.0f32.to_bits(),
    }
}

#[test]
fn parse_sources_three_segments() {
    let segs = parse_sources("mic:2,system:2,process:2").expect("valid spec");
    assert_eq!(segs.len(), 3);
    assert_eq!(segs[0].kind, SourceKind::Mic);
    assert_eq!(segs[0].secs, 2);
    assert_eq!(segs[1].kind, SourceKind::SystemLoopback);
    assert_eq!(segs[2].kind, SourceKind::ProcessLoopback);
}

#[test]
fn parse_sources_trims_and_varies_secs() {
    let segs = parse_sources(" mic:1 , system:5 ").expect("valid spec");
    assert_eq!(segs.len(), 2);
    assert_eq!(segs[0].kind, SourceKind::Mic);
    assert_eq!(segs[0].secs, 1);
    assert_eq!(segs[1].kind, SourceKind::SystemLoopback);
    assert_eq!(segs[1].secs, 5);
}

#[test]
fn parse_sources_single_segment() {
    let segs = parse_sources("mic:3").expect("valid");
    assert_eq!(segs.len(), 1);
    assert_eq!(segs[0].kind, SourceKind::Mic);
    assert_eq!(segs[0].secs, 3);
}

#[test]
fn parse_sources_rejects_empty_string() {
    assert!(parse_sources("").is_err());
}

#[test]
fn parse_sources_rejects_empty_segment() {
    assert!(parse_sources("mic:2,,system:2").is_err());
}

#[test]
fn parse_sources_rejects_missing_colon() {
    assert!(parse_sources("mic2").is_err());
}

#[test]
fn parse_sources_rejects_unknown_source() {
    assert!(parse_sources("foo:2").is_err());
}

#[test]
fn parse_sources_rejects_non_numeric_secs() {
    assert!(parse_sources("mic:abc").is_err());
}

#[test]
fn parse_sources_rejects_zero_secs() {
    assert!(parse_sources("mic:0").is_err());
}

#[test]
fn parse_sources_says_what_is_wrong() {
    assert_eq!(
        parse_sources("mic:2,,foo:1").unwrap_err(),
        "--sources の 2 番目が空です（形式: <src>:<secs>、例 mic:2）"
    );
    assert_eq!(
        parse_sources("mic2").unwrap_err(),
        "--sources の要素 \"mic2\" は <src>:<secs> 形式である必要があります（例 mic:2）"
    );
    assert_eq!(
        parse_sources("mix:2").unwrap_err(),
        "--sources の未知のソース \"mix\"（mic|system|process のいずれか）"
    );
    assert_eq!(
        parse_sources("mic: -1").unwrap_err(),
        "--sources の秒数 \" -1\" は正の整数である必要があります（例 mic:2）"
    );
    assert_eq!(
        parse_sources("mic:0").unwrap_err(),
        "--sources の秒数は 1 以上である必要があります（要素 \"mic:0\"）"
    );
    assert_eq!(parse_sources("mic:+7").unwrap()[0].secs, 7);
    assert!(parse_sources("mic:4294967296").is_err());
}

#[test]
fn config_for_kind_reflects_cli_settings() {
    let cli = Cli {
        source: SourceArg::Process,
        process_id: Some(4321),
        mode: ModeArg::Exclude,
        output_rate: 16_000,
        output_channels: 1,
        device_id: Some("my-mic".to_string()),
        gain: 2.5f32.to_bits(),
        ..cli()
    };
    let cfg = config_for_kind(&cli, SourceKind::ProcessLoopback);
    assert_eq!(cfg.kind, SourceKind::ProcessLoopback);
    assert_eq!(cfg.target_pid, Some(4321));
    assert_eq!(cfg.mode, ProcessMode::Exclude);
    assert_eq!(cfg.output.sample_rate, 16_000);
    assert_eq!(cfg.output.channels, 1);
    assert_eq!(cfg.device_id.as_deref(), Some("my-mic"));
    assert_eq!(cfg.gain, 2.5f32.to_bits());
    let cfg_mic = config_for_kind(&cli, SourceKind::Mic);
    assert_eq!(cfg_mic.kind, SourceKind::Mic);
    assert_eq!(cfg_mic.output.sample_rate, 16_000);
}

#[test]
fn config_for_kind_reflects_exclude_self() {
    let with = Cli {
        source: SourceArg::System,
        exclude_self: true,
        ..cli()
    };
    let cfg = config_for_kind(&with, SourceKind::SystemLoopback);
    assert!(cfg.exclude_self);
    let without = Cli {
        source: SourceArg::System,
        ..cli()
    };
    assert!(!config_for_kind(&without, SourceKind::SystemLoopback).exclude_self);
}

#[test]
fn config_for_kind_defaults() {
    let cfg = config_for_kind(&cli(), SourceKind::Mic);
    assert_eq!(cfg.output.sample_rate, 48_000);
    assert_eq!(cfg.output.channels, 2);
    assert_eq!(cfg.mode, ProcessMode::Include);
    assert_eq!(cfg.target_pid, None);
    assert!(!cfg.exclude_self);
    assert_eq!(cfg.device_id, None);
    assert_eq!(cfg.gain, 1.0f32.to_bits());
}

#[test]
fn cli_output_format_and_stdout_detection() {
    let file = Cli {
        output_rate: 8_000,
        output_channels: 1,
        ..cli()
    };
    let of = file.output_format();
    assert_eq!(of.sample_rate, 8_000);
    assert_eq!(of.channels, 1);
    assert!(!file.is_stdout_stream());

    let stream = Cli {
        out: "-".to_string(),
        ..cli()
    };
    assert!(stream.is_stdout_stream());
}

#[test]
fn describe_error_maps_known_variants() {
    assert!(describe_error(Error::DeviceNotFound).contains("見つかりません"));
    assert!(describe_error(Error::PermissionDenied).contains("権限"));
    assert!(describe_error(Error::DeviceLost).contains("失われました"));
    let msg = describe_error(Error::Unsupported);
    assert!(msg.contains("ストリーム初期化に失敗しました"));
}

#[test]
fn describe_error_device_not_found_is_source_neutral() {
    let msg = describe_error(Error::DeviceNotFound);
    assert!(!msg.contains("マイク"));
    assert!(!msg.contains("入力デバイス"));
    assert!(msg.contains("--list-devices"));
}

#[test]
fn source_kind_label_is_short() {
    assert_eq!(source_kind_label(SourceKind::Mic), "mic");
    assert_eq!(source_kind_label(SourceKind::SystemLoopback), "system");
    assert_eq!(source_kind_label(SourceKind::ProcessLoopback), "process");
}

#[test]
fn truncate_respects_char_boundary() {
    assert_eq!(truncate("abc", 5), "abc");
    assert_eq!(truncate("abcde", 5), "abcde");
    let t = truncate("abcdefgh", 5);
    assert_eq!(t.chars().count(), 5);
    assert!(t.ends_with('…'));
    assert!(t.starts_with("abcd"));
    let jp = truncate("あいうえおかきくけこ", 3);
    assert_eq!(jp.chars().count(), 3);
    assert!(jp.ends_with('…'));
}

fn chunk_of(data: &[f32]) -> AudioChunk {
    AudioChunk {
        data: bits(data),
        frames: data.len(),
        pts_ns: 0,
        seq: 0,
        flags: ChunkFlags::empty(),
        dropped_before: 0,
        peak: 0,
        rms: 0,
    }
}

#[test]
fn write_wav_header_and_stats() {
    let output = OutputFormat {
        sample_rate: 16_000,
        channels: 1,
    };
    let data: Vec<f32> = (0..320)
        .map(|i| if i % 2 == 0 { 0.5 } else { -0.5 })
        .collect();
    let wav = write_wav(&[chunk_of(&data)]);
    assert!((f32::from_bits(wav.peak) - 0.5).abs() < 1e-6);
    assert_eq!(wav.frames, 320);

    let spec = hound::WavSpec {
        channels: output.channels,
        sample_rate: output.sample_rate,
        bits_per_sample: 16,
        sample_format: hound::SampleFormat::Int,
    };
    let mut file = Cursor::new(Vec::new());
    {
        let mut writer = hound::WavWriter::new(&mut file, spec).expect("start wav");
        for s in &wav.samples {
            writer.write_sample(*s).expect("write sample");
        }
        writer.finalize().expect("finish wav");
    }
    file.set_position(0);
    let reader = hound::WavReader::new(file).expect("open wav");
    let spec = reader.spec();
    assert_eq!(spec.sample_rate, 16_000);
    assert_eq!(spec.channels, 1);
    assert_eq!(spec.bits_per_sample, 16);
    assert_eq!(spec.sample_format, hound::SampleFormat::Int);
    assert_eq!(reader.len(), 320);
    let read: Vec<i16> = reader.into_samples().map(|s| s.unwrap()).collect();
    assert_eq!(read[0], 16_383);
    assert_eq!(read[1], -16_383);
}

#[test]
fn write_chunk_s16_quantizes_and_clamps() {
    let chunk = chunk_of(&[0.0, 1.0, -1.0, 2.0, -2.0]);
    let buf = write_chunk(&chunk, EncodingArg::S16);
    assert_eq!(buf.len(), 10);
    let s = |i: usize| i16::from_le_bytes([buf[i * 2], buf[i * 2 + 1]]);
    assert_eq!(s(0), 0);
    assert_eq!(s(1), 32767);
    assert_eq!(s(2), -32767);
    assert_eq!(s(3), 32767);
    assert_eq!(s(4), -32767);
}

#[test]
fn write_chunk_f32_roundtrips() {
    let chunk = chunk_of(&[0.25, -0.5, 0.75]);
    let buf = write_chunk(&chunk, EncodingArg::F32);
    assert_eq!(buf.len(), 12);
    let f = |i: usize| {
        f32::from_le_bytes([buf[i * 4], buf[i * 4 + 1], buf[i * 4 + 2], buf[i * 4 + 3]])
    };
    assert_eq!(f(0), 0.25);
    assert_eq!(f(1), -0.5);
    assert_eq!(f(2), 0.75);
}

#[test]
fn the_plan_follows_the_arguments() {
    assert!(matches!(
        plan(&Cli {
            list_devices: true,
            watch_devices: true,
            ..cli()
        }),
        Ok(Plan::ListDevices)
    ));
    assert!(matches!(
        plan(&Cli {
            watch_devices: true,
            ..cli()
        }),
        Ok(Plan::WatchDevices)
    ));
    match plan(&cli()) {
        Ok(Plan::Record { kind, segments }) => {
            assert_eq!(kind, SourceKind::Mic);
            assert!(segments.is_none());
        }
        other => panic!("unexpected plan: {other:?}"),
    }
    match plan(&Cli {
        sources: Some("system:1,mic:2".to_string()),
        ..cli()
    }) {
        Ok(Plan::Record { kind, segments }) => {
            assert_eq!(kind, SourceKind::SystemLoopback);
            assert_eq!(segments.unwrap().len(), 2);
        }
        other => panic!("unexpected plan: {other:?}"),
    }
    assert!(plan(&Cli {
        output_channels: 3,
        ..cli()
    })
    .is_err());
    assert!(plan(&Cli {
        source: SourceArg::Process,
        ..cli()
    })
    .is_err());
}

#[test]
fn switches_come_when_their_time_does() {
    let segments = parse_sources("mic:2,system:3,process:1").unwrap();
    assert_eq!(SwitchScheduler::total_duration(&segments), 6);
    let mut s = SwitchScheduler::new(&segments);
    assert!(s.tick(0).is_empty());
    assert!(s.tick(2 * SECOND_NS - 1).is_empty());
    assert_eq!(s.tick(2 * SECOND_NS), vec![SourceKind::SystemLoopback]);
    assert!(s.tick(2 * SECOND_NS).is_empty());
    assert_eq!(s.tick(9 * SECOND_NS), vec![SourceKind::ProcessLoopback]);
    assert!(s.tick(u64::MAX).is_empty());

    let mut late = SwitchScheduler::new(&segments);
    assert_eq!(
        late.tick(u64::MAX),
        vec![SourceKind::SystemLoopback, SourceKind::ProcessLoopback]
    );
}

#[test]
fn a_recording_takes_what_is_left() {
    let mut r = wav_recording(&cli(), None).unwrap();
    assert_eq!(r.total_secs, 5);
    r.check(true, 0);
    assert_eq!(r.step, Step::Chunk);
    r.take_chunk(Some(Written::Whole)).unwrap();
    assert_eq!(r.step, Step::Chunk);
    r.take_chunk(None).unwrap();
    assert_eq!(r.step, Step::Event);
    r.take_event(true);
    r.take_event(false);
    assert_eq!(r.step, Step::Check);
    r.check(true, 1);
    r.take_chunk(None).unwrap();
    r.take_event(false);
    assert_eq!(r.step, Step::Pause);
    r.resume();
    r.check(true, 5 * SECOND_NS);
    assert_eq!(r.step, Step::Stop);
    r.stop();
    assert_eq!(r.step, Step::Rest);
    r.take_chunk(Some(Written::Whole)).unwrap();
    assert_eq!(r.step, Step::Rest);
    r.take_chunk(None).unwrap();
    assert_eq!(r.step, Step::Flush);
    r.flush(Written::Whole).unwrap();
    assert_eq!(r.step, Step::Done);
    assert!(r.finish().is_ok());
    assert_eq!(r.reason(5), "停止理由           : 5 秒経過");
}

#[test]
fn a_recording_ends_with_its_reader() {
    let stream = Cli {
        out: "-".to_string(),
        seconds: 0,
        ..cli()
    };
    let mut r = stdout_recording(&stream, None);
    assert!(r.infinite);
    r.check(true, u64::MAX);
    assert_eq!(r.step, Step::Chunk);
    r.take_chunk(Some(Written::BrokenPipe)).unwrap();
    assert_eq!(r.step, Step::Stop);
    r.stop();
    assert_eq!(r.step, Step::Done);
    assert!(r.finish().is_ok());

    let mut r = stdout_recording(&stream, None);
    r.check(false, 0);
    assert_eq!(r.step, Step::Stop);
    assert!(wav_recording(&stream, None).is_err());

    let mut r = Recording::new(false, 1);
    r.check(true, 0);
    assert_eq!(
        r.take_chunk(Some(Written::Failed("disk".to_string())))
            .unwrap_err(),
        "stdout への書き込みに失敗しました: disk"
    );
    assert!(r.finish().is_err());
}

#[test]
fn schedules_give_the_length() {
    let segments = vec![
        Segment {
            kind: SourceKind::Mic,
            secs: 2,
        },
        Segment {
            kind: SourceKind::SystemLoopback,
            secs: 3,
        },
    ];
    let r = stdout_recording(&Cli { seconds: 0, ..cli() }, Some(&segments));
    assert!(!r.infinite);
    assert_eq!(r.total_secs, 5);
    assert_eq!(
        schedule_line(&segments, 5),
        "スケジュール       : mic:2s -> system:3s（計 5 秒・1 本の連続ストリーム）"
    );
}

#[test]
fn devices_are_shown_in_columns() {
    assert_eq!(
        device_header(),
        "SOURCE  LOOPBACK DEFAULT   RATE  CH  NAME                         ID"
    );
    let info = DeviceInfo {
        id: "sink.a".to_string(),
        name: "Speakers".to_string(),
        source_kind: SourceKind::SystemLoopback,
        sample_rate: 48_000,
        channels: 2,
        is_loopback: true,
        is_default: true,
    };
    assert_eq!(
        device_line(&info),
        "system  yes      *        48000   2  Speakers                     sink.a"
    );
    assert_eq!(
        event_line(&DeviceEvent::Added(info)),
        "[+] ADDED   system  Speakers (sink.a)"
    );
    assert_eq!(
        event_line(&DeviceEvent::Removed {
            id: "x".to_string()
        }),
        "[-] REMOVED x"
    );
    assert_eq!(switched_line(SourceKind::Mic), "[switch] -> mic");
    assert_eq!(
        switch_failed_line(SourceKind::Mic, &Error::DeviceNotFound),
        "[switch] 警告: mic への切替に失敗しました（録音は継続）: device not found"
    );
}

#[test]
fn silence_has_two_limits() {
    let rms = |x: f64| x.to_bits();
    assert!(is_nearly_silent(0.0f32.to_bits(), rms(0.0)));
    assert!(!is_nearly_silent(0.5f32.to_bits(), rms(0.0)));
    assert!(!is_nearly_silent(0.0f32.to_bits(), rms(0.5)));
    assert!(!is_nearly_silent(1e-3f32.to_bits(), rms(0.0)));
    assert!(!is_nearly_silent(0.0f32.to_bits(), rms(1e-4)));
}

#[test]
fn words_are_cut_and_trimmed() {
    assert_eq!(split("a,,b", ','), vec!["a", "", "b"]);
    assert_eq!(split("", ','), vec![""]);
    assert_eq!(trim(" \t a b \u{3000}\n"), "a b");
}

#[test]
fn a_recording_is_announced_line_by_line() {
    let mut c = cli();
    assert_eq!(source_title(SourceKind::Mic), "mic（既定入力デバイス）");
    assert_eq!(
        source_title(SourceKind::SystemLoopback),
        "system（既定出力のループバック）"
    );
    assert_eq!(
        source_title(SourceKind::ProcessLoopback),
        "process（指定 PID の出力）"
    );
    assert_eq!(
        format_line(&c),
        "出力フォーマット   : 48000 Hz / 2 ch / 16-bit PCM WAV"
    );
    assert_eq!(destination_line(&c), "出力パス           : out.wav");
    assert_eq!(device_id_line(&c, SourceKind::Mic), None);
    assert_eq!(seconds_line(5), "キャプチャ秒数     : 5 秒");
    assert_eq!(
        seconds_line(0),
        "キャプチャ秒数     : 無限（Ctrl-C / パイプ切れで停止）"
    );
    c.out = "-".to_string();
    c.device_id = Some("mic-1".to_string());
    c.output_channels = 1;
    c.output_rate = 16_000;
    assert_eq!(
        format_line(&c),
        "出力フォーマット   : 16000 Hz / 1 ch / f32 LE raw PCM（stdout）"
    );
    c.encoding = EncodingArg::S16;
    assert_eq!(
        format_line(&c),
        "出力フォーマット   : 16000 Hz / 1 ch / s16 LE raw PCM（stdout）"
    );
    assert_eq!(
        destination_line(&c),
        "出力先             : stdout（raw PCM ストリーミング）"
    );
    assert_eq!(
        device_id_line(&c, SourceKind::Mic).unwrap(),
        "デバイス ID        : mic-1"
    );
    assert_eq!(
        device_id_line(&c, SourceKind::ProcessLoopback).unwrap(),
        "デバイス ID        : mic-1（注: process では無視されます）"
    );
}

#[test]
fn a_tick_makes_what_is_due() {
    let segments: Vec<Segment> = [(SourceKind::Mic, 2), (SourceKind::SystemLoopback, 3)]
        .iter()
        .chain(&[(SourceKind::Mic, 1), (SourceKind::ProcessLoopback, 4)])
        .map(|(kind, secs)| Segment {
            kind: *kind,
            secs: *secs,
        })
        .collect();
    let boundaries = [2u64, 5, 6];
    for half_seconds in 0..25u64 {
        let elapsed = half_seconds * SECOND_NS / 2;
        let mut s = SwitchScheduler::new(&segments);
        let due = s.tick(elapsed);
        let expected: Vec<SourceKind> = boundaries
            .iter()
            .enumerate()
            .filter(|(_, b)| **b * SECOND_NS <= elapsed)
            .map(|(i, _)| segments[i + 1].kind)
            .collect();
        assert_eq!(due, expected);
        assert!(s.tick(elapsed).is_empty());
    }
}

#[test]
fn what_is_played_needs_a_system_that_can_record_it() {
    assert_eq!(
        parse_sources_where("mic:1,system:2", false).unwrap_err(),
        "--sources の system（システム出力ループバック）は現在 Linux / Windows / macOS のみ対応です。"
    );
    assert_eq!(
        parse_sources_where("process:x", false).unwrap_err(),
        "--sources の process（プロセス出力ループバック）は現在 Linux / Windows / macOS のみ対応です。"
    );
    assert_eq!(parse_sources_where("mic:1", false).unwrap().len(), 1);
    let system = Cli {
        source: SourceArg::System,
        ..cli()
    };
    assert_eq!(
        plan_where(&system, false).unwrap_err(),
        "--source system（システム出力ループバック）は現在 Linux / Windows / macOS のみ対応です。"
    );
    assert!(plan_where(&system, true).is_ok());
    let mut process = Cli {
        source: SourceArg::Process,
        ..cli()
    };
    assert!(plan_where(&process, false)
        .unwrap_err()
        .contains("--process-id"));
    process.process_id = Some(7);
    assert_eq!(
        plan_where(&process, false).unwrap_err(),
        "--source process（プロセス出力ループバック）は現在 Linux / Windows / macOS のみ対応です。"
    );
    assert!(plan_where(&cli(), false).is_ok());
}

#[test]
fn a_failed_write_leaves_the_recording_as_it_was() {
    let mut r = Recording::new(true, 0);
    r.check(true, 0);
    let step = r.step;
    assert!(r
        .take_chunk(Some(Written::Failed("disk full".to_string())))
        .is_err());
    assert_eq!(r.step, step);
    assert!(!r.wrote_any && !r.got_any && !r.broken_pipe);
}

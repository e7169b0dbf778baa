use flexaudio::sample::ONE;
use flexaudio::types::{
    ChunkFlags, DeviceInfo, Error, OutputFormat, ProcessMode, SourceKind, StreamConfig, CHANNELS,
    SAMPLE_RATE,
};

#[test]
fn default_stream_config_matches_contract() {
    let c = StreamConfig::default();
    assert_eq!(c.chunk_ms, 20);
    assert_eq!(c.ring_capacity_chunks, 50);
    assert_eq!(c.mode, ProcessMode::Include);
    assert!(!c.exclude_self);
    assert_eq!(c.kind, SourceKind::Mic);
    assert_eq!(c.device_id, None);
    assert_eq!(c.target_pid, None);
    assert_eq!(c.output.sample_rate, SAMPLE_RATE);
    assert_eq!(c.output.channels, CHANNELS);
    assert_eq!(c.output, OutputFormat::default());
}

#[test]
fn default_gains_are_one() {
    let c = StreamConfig::default();
    assert_eq!(c.gain, ONE);
    assert_eq!(c.mix_mic_gain, 1.0f32.to_bits());
    assert_eq!(c.mix_system_gain, 1.0f32.to_bits());
    assert_eq!(c.mix_mic_device_id, None);
    assert_eq!(c.mix_system_device_id, None);
}

#[test]
fn output_format_chunk_frames_are_time_based() {
    assert_eq!(
        OutputFormat {
            sample_rate: 48_000,
            channels: 2
        }
        .chunk_frames(),
        960
    );
    assert_eq!(
        OutputFormat {
            sample_rate: 16_000,
            channels: 1
        }
        .chunk_frames(),
        320
    );
    assert_eq!(
        OutputFormat {
            sample_rate: 8_000,
            channels: 2
        }
        .chunk_frames(),
        160
    );
}

#[test]
fn chunk_frames_round_down() {
    let format = OutputFormat {
        sample_rate: 44_149,
        channels: 1,
    };
    assert_eq!(format.chunk_frames(), 882);
}

#[test]
fn output_format_validation_rejects_bad_configs() {
    assert!(OutputFormat {
        sample_rate: 48_000,
        channels: 0
    }
    .validate()
    .is_err());
    assert!(OutputFormat {
        sample_rate: 48_000,
        channels: 3
    }
    .validate()
    .is_err());
    assert!(OutputFormat {
        sample_rate: 100,
        channels: 1
    }
    .validate()
    .is_err());
    assert!(OutputFormat {
        sample_rate: 1_000_000,
        channels: 2
    }
    .validate()
    .is_err());
    assert!(OutputFormat {
        sample_rate: 16_000,
        channels: 1
    }
    .validate()
    .is_ok());
    assert!(OutputFormat::default().validate().is_ok());
}

#[test]
fn rejected_formats_say_why() {
    let e = OutputFormat {
        sample_rate: 100,
        channels: 3,
    }
    .validate()
    .unwrap_err();
    assert_eq!(
        e.message(),
        "unsupported output format: output channels must be 1 or 2, got 3"
    );
    let e = OutputFormat {
        sample_rate: 3_999,
        channels: 1,
    }
    .validate()
    .unwrap_err();
    assert_eq!(
        e.message(),
        "unsupported output format: output sample_rate 3999 Hz out of supported range 4000..=384000"
    );
    assert!(OutputFormat {
        sample_rate: 4_000,
        channels: 1
    }
    .validate()
    .is_ok());
    assert!(OutputFormat {
        sample_rate: 384_000,
        channels: 2
    }
    .validate()
    .is_ok());
    assert!(OutputFormat {
        sample_rate: 384_001,
        channels: 2
    }
    .validate()
    .is_err());
}

#[test]
fn device_info_builds_and_clones() {
    let mic = DeviceInfo {
        id: "alsa_input.pci-0000_00_1f.3".into(),
        name: "内蔵マイク".into(),
        source_kind: SourceKind::Mic,
        sample_rate: 48_000,
        channels: 2,
        is_loopback: false,
        is_default: true,
    };
    assert_eq!(mic, mic.clone());
    assert!(!mic.is_loopback);
    assert!(mic.is_default);
    assert_eq!(mic.source_kind, SourceKind::Mic);

    let sys = DeviceInfo {
        source_kind: SourceKind::SystemLoopback,
        is_loopback: true,
        is_default: false,
        ..mic.clone()
    };
    assert!(sys.is_loopback);
    assert_ne!(mic, sys);
}

#[test]
fn process_mode_default_is_include() {
    assert_eq!(ProcessMode::default(), ProcessMode::Include);
    assert_ne!(ProcessMode::Include, ProcessMode::Exclude);
}

#[test]
fn chunk_flags_are_distinct_bits() {
    let all = ChunkFlags::discontinuity() | ChunkFlags::recovered() | ChunkFlags::silence();
    assert_eq!(all.bits(), 0b111);
    assert!(all.contains(ChunkFlags::silence()));
    assert_eq!(ChunkFlags::default(), ChunkFlags::empty());
}

#[test]
fn unions_contain_their_parts_only() {
    let two = ChunkFlags::discontinuity() | ChunkFlags::silence();
    assert!(two.contains(ChunkFlags::discontinuity()));
    assert!(two.contains(ChunkFlags::silence()));
    assert!(!two.contains(ChunkFlags::recovered()));
    assert!(two.contains(ChunkFlags::empty()));
}

#[test]
fn every_error_has_its_text() {
    assert_eq!(Error::InvalidArg("a".into()).message(), "invalid argument: a");
    assert_eq!(Error::InvalidState("b".into()).message(), "invalid state: b");
    assert_eq!(Error::DeviceNotFound.message(), "device not found");
    assert_eq!(Error::PermissionDenied.message(), "permission denied");
    assert_eq!(
        Error::UnsupportedOsVersion.message(),
        "unsupported OS version"
    );
    assert_eq!(Error::DeviceLost.message(), "device lost");
    assert_eq!(Error::Backend("c".into()).message(), "backend error: c");
    assert_eq!(
        Error::UnsupportedFormat("d".into()).message(),
        "unsupported output format: d"
    );
    assert_eq!(Error::Unsupported.message(), "unsupported");
}

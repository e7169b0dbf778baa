use flexaudio::backend::RawSink;
use flexaudio::lifecycle::Launch;
use flexaudio::mic::{
    check_format, fill_scratch, list_devices, resolve_input_device, scratch_capacity,
    CpalMicBackend, InputChoice, InputDevice, MicCallback, SampleFormat, TransientGuard,
    FALLBACK_CHANNELS, FALLBACK_RATE,
};
use flexaudio::raw_ring::raw_ring;
use flexaudio::types::{Error, SourceKind};

fn make_buf(frames: usize, peak: f32) -> Vec<u32> {
    let mut v = Vec::with_capacity(frames * 2);
    for i in 0..frames {
        let s = if i % 2 == 0 { peak } else { -peak };
        v.push(s.to_bits());
        v.push(s.to_bits());
    }
    v
}

#[test]
fn transient_guard_drops_priming_then_latches_open() {
    let frames = 1024;
    let mut g = TransientGuard::new();
    assert!(g.should_drop(&make_buf(frames, 3.3)));
    assert!(g.should_drop(&make_buf(frames, 1.5)));
    assert!(!g.should_drop(&make_buf(frames, 0.88)));
    assert!(!g.should_drop(&make_buf(frames, 3.3)));
}

#[test]
fn transient_guard_passes_clean_audio_from_the_start() {
    let frames = 1024;
    let mut g = TransientGuard::new();
    assert!(!g.should_drop(&make_buf(frames, 1.0)));
    assert!(!g.should_drop(&make_buf(frames, 0.5)));
    assert!(!g.should_drop(&vec![0.0f32.to_bits(); frames * 2]));
}

#[test]
fn transient_guard_handles_empty_buffer() {
    let mut g = TransientGuard::new();
    assert!(!g.should_drop(&[]));
    assert!(!g.should_drop(&make_buf(1024, 3.3)));
}

#[test]
fn transient_guard_has_an_exact_limit() {
    let mut at = TransientGuard::new();
    assert!(!at.should_drop(&[1.001f32.to_bits()]));
    let mut above = TransientGuard::new();
    assert!(above.should_drop(&[(-1.002f32).to_bits()]));
    // Not a number is no peak.
    let mut nan = TransientGuard::new();
    assert!(!nan.should_drop(&[f32::NAN.to_bits()]));
}

#[test]
fn fill_scratch_no_realloc_in_steady_state() {
    let cap = 480 * 2;
    let mut scratch: Vec<u32> = Vec::with_capacity(cap);
    let before = scratch.capacity();

    let data: Vec<i16> = (0..cap as i16).collect();
    for _ in 0..100 {
        fill_scratch(&mut scratch, &data, |s| {
            (s as f32 / -(i16::MIN as f32)).to_bits()
        });
        assert_eq!(scratch.len(), data.len());
        assert_eq!(scratch.capacity(), before, "no growth in the steady state");
    }
    let mut one = Vec::with_capacity(1);
    fill_scratch(&mut one, &[i16::MIN], |s| {
        (s as f32 / -(i16::MIN as f32)).to_bits()
    });
    assert_eq!(one[0], (-1.0f32).to_bits());
}

#[test]
fn lib_new_and_native_format_do_not_panic() {
    let backend = CpalMicBackend::new(None, Some((44_100, 2)));
    let (rate, channels) = backend.native_format();
    assert!(rate > 0);
    assert!(channels > 0);
    assert_eq!((rate, channels), (44_100, 2));

    let backend = CpalMicBackend::new(Some("__no_such_device__".into()), None);
    let (rate, channels) = backend.native_format();
    assert_eq!((rate, channels), (FALLBACK_RATE, FALLBACK_CHANNELS));
    assert_eq!((rate, channels), (48_000, 1));
}

#[test]
fn start_with_unknown_device_id_yields_device_not_found() {
    let names = vec![Some("Mic A".to_string()), None];
    match resolve_input_device(true, Some(&names), Some("__no_such_device__")) {
        Err(Error::DeviceNotFound) => {}
        other => panic!("an unknown device id is not found: {other:?}"),
    }
    let mut backend = CpalMicBackend::new(Some("__no_such_device__".into()), None);
    assert!(backend.must_spawn());
    match backend.launched(Launch::Failed(Error::DeviceNotFound)) {
        Err(Error::DeviceNotFound) => {}
        other => panic!("an unknown device id is not found: {other:?}"),
    }
    assert!(backend.must_spawn());
    assert!(!backend.stop());
}

#[test]
fn devices_are_resolved_by_name() {
    let names = vec![None, Some("Mic A".to_string()), Some("Mic A".to_string())];
    assert_eq!(
        resolve_input_device(true, Some(&names), Some("Mic A")).unwrap(),
        InputChoice::Listed(1)
    );
    assert_eq!(
        resolve_input_device(true, None, None).unwrap(),
        InputChoice::Default
    );
    assert!(matches!(
        resolve_input_device(false, Some(&names), None),
        Err(Error::DeviceNotFound)
    ));
    assert!(matches!(
        resolve_input_device(true, None, Some("Mic A")),
        Err(Error::DeviceNotFound)
    ));
}

#[test]
fn list_devices_never_panics_and_is_consistent() {
    let listed = vec![
        InputDevice {
            name: Some("Mic A".to_string()),
            config: Some((44_100, 2)),
        },
        InputDevice {
            name: None,
            config: Some((8_000, 1)),
        },
        InputDevice {
            name: Some("Mic B".to_string()),
            config: None,
        },
        InputDevice {
            name: Some("Mic C".to_string()),
            config: Some((48_000, 1)),
        },
    ];
    let devices = list_devices(Some("Mic C"), Some(&listed)).expect("never an error");
    assert_eq!(devices.len(), 2);
    for d in &devices {
        assert_eq!(d.source_kind, SourceKind::Mic);
        assert!(!d.is_loopback);
        assert_eq!(d.id, d.name);
        assert!(!d.id.is_empty());
        assert!(d.sample_rate > 0);
        assert!(d.channels > 0);
    }
    assert!(devices.iter().filter(|d| d.is_default).count() <= 1);
    assert_eq!((devices[0].sample_rate, devices[0].channels), (44_100, 2));
    assert!(!devices[0].is_default);
    assert_eq!((devices[1].sample_rate, devices[1].channels), (48_000, 1));
    assert!(devices[1].is_default);
    assert!(list_devices(None, None).unwrap().is_empty());
}

#[test]
fn start_then_stop_tolerates_missing_device() {
    let mut backend = CpalMicBackend::new(None, None);
    assert!(backend.must_spawn());
    assert!(backend.launched(Launch::Ready).is_ok());
    assert!(!backend.must_spawn());
    assert!(backend.stop());
    assert!(!backend.stop());
    assert!(matches!(
        backend.launched(Launch::Failed(Error::DeviceNotFound)),
        Err(Error::DeviceNotFound)
    ));
}

#[test]
fn threads_that_do_not_come_up_are_reported() {
    let mut backend = CpalMicBackend::new(None, None);
    assert!(matches!(
        backend.launched(Launch::SpawnFailed("no memory".to_string())),
        Err(Error::Backend(_))
    ));
    assert!(matches!(
        backend.launched(Launch::Vanished),
        Err(Error::Backend(_))
    ));
    assert!(backend.must_spawn());
}

#[test]
fn callback_converts_and_guards() {
    let (producer, mut consumer) = raw_ring(64);
    let mut callback = MicCallback::new(RawSink::new(producer, 48_000, 1), 48_000);
    assert_eq!(callback.on_samples(&make_buf(4, 3.3), 0), None);
    assert_eq!(callback.on_i16(&[i16::MIN, 0, 16_384], 0), Some(3));
    assert_eq!(callback.on_u16(&[0, 32_768, 65_535], 0), Some(3));
    assert_eq!(callback.on_i32(&[i32::MIN, 1 << 30], 0), Some(2));
    assert_eq!(callback.on_samples(&[3.3f32.to_bits()], 0), Some(1));
    let mut got = [0u32; 16];
    let n = consumer.pop_slice(&mut got);
    let read: Vec<f32> = got[..n].iter().map(|s| f32::from_bits(*s)).collect();
    assert_eq!(
        read,
        vec![-1.0, 0.0, 0.5, -1.0, 0.0, 32_767.0 / 32_768.0, -1.0, 0.5, 3.3]
    );
}

#[test]
fn unknown_sample_formats_are_refused() {
    assert!(matches!(
        check_format(SampleFormat::I16),
        Ok(SampleFormat::I16)
    ));
    match check_format(SampleFormat::Other("F64".to_string())) {
        Err(e) => assert_eq!(
            e.message(),
            "backend error: unsupported cpal sample format: F64"
        ),
        Ok(f) => panic!("accepted {f:?}"),
    }
}

#[test]
fn scratch_holds_a_second() {
    assert_eq!(scratch_capacity(48_000, 2), 96_000);
    assert_eq!(scratch_capacity(0, 2), 1);
}

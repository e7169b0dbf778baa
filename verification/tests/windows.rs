use flexaudio::backend::RawSink;
use flexaudio::lifecycle::Launch;
use flexaudio::macos::{MacProcessBackend, MacSystemBackend};
use flexaudio::raw_ring::raw_ring;
use flexaudio::types::{Error, ProcessMode};
use flexaudio::windows::{
    classify_hr, fixed_process_format, map_hr, map_process_activation_err, next_step,
    parse_mix_format, setup_error, CaptureEvent, CaptureStep, PacketSink, SetupStep,
    SystemLoopback, WasapiProcessBackend, WasapiSystemBackend,
};

#[test]
fn classify_hr_maps_access_denied_to_permission_denied() {
    assert!(matches!(
        classify_hr(0x80070005u32 as i32),
        Some(Error::PermissionDenied)
    ));
    assert!(matches!(
        classify_hr(0x8889000Au32 as i32),
        Some(Error::PermissionDenied)
    ));
    assert!(matches!(
        classify_hr(0x8889000Eu32 as i32),
        Some(Error::PermissionDenied)
    ));
}

#[test]
fn classify_hr_maps_device_codes_to_device_not_found() {
    assert!(matches!(
        classify_hr(0x88890004u32 as i32),
        Some(Error::DeviceNotFound)
    ));
    assert!(matches!(
        classify_hr(0x80070490u32 as i32),
        Some(Error::DeviceNotFound)
    ));
}

#[test]
fn classify_hr_unknown_is_none() {
    assert!(classify_hr(0x80004005u32 as i32).is_none());
    assert!(classify_hr(0).is_none());
    assert!(classify_hr(0x88890008u32 as i32).is_none());
}

#[test]
fn unknown_codes_are_shown() {
    assert_eq!(
        map_hr("Start", 0x80004005u32 as i32, "unspecified").message(),
        "backend error: Start: unspecified"
    );
    assert!(matches!(
        map_process_activation_err("x", 0x80004001u32 as i32, ""),
        Error::UnsupportedOsVersion
    ));
    assert!(matches!(
        map_process_activation_err("x", 0x80070005u32 as i32, ""),
        Error::PermissionDenied
    ));
}

#[test]
fn each_step_has_its_report() {
    assert!(matches!(
        setup_error(SetupStep::Endpoint, 0, ""),
        Error::DeviceNotFound
    ));
    assert_eq!(
        setup_error(SetupStep::Await, 0, "").message(),
        "backend error: process loopback activation timed out"
    );
    assert_eq!(
        setup_error(SetupStep::Client, 1, "why").message(),
        "backend error: IMMDevice::Activate(IAudioClient): why"
    );
}

#[test]
fn only_float_formats_are_read() {
    let f = fixed_process_format();
    assert_eq!(parse_mix_format(Some(&f)).unwrap(), (48_000, 2));
    assert_eq!((f.block_align, f.bytes_per_sec), (8, 384_000));
    let mut pcm = f;
    pcm.tag = 1;
    assert!(parse_mix_format(Some(&pcm)).is_err());
    assert_eq!(
        parse_mix_format(None).unwrap_err().message(),
        "backend error: GetMixFormat returned null format"
    );
}

#[test]
fn the_loop_goes_from_packet_to_packet() {
    assert_eq!(
        next_step(CaptureEvent::Idle { stop: false }),
        CaptureStep::Wait
    );
    assert_eq!(
        next_step(CaptureEvent::Woken { stop: false }),
        CaptureStep::AskSize
    );
    assert_eq!(next_step(CaptureEvent::Size(Some(0))), CaptureStep::Look);
    assert_eq!(next_step(CaptureEvent::Size(Some(9))), CaptureStep::Fetch);
    assert_eq!(next_step(CaptureEvent::Fetched(true)), CaptureStep::TakeIn);
    assert_eq!(next_step(CaptureEvent::Size(None)), CaptureStep::Finish);
    assert_eq!(
        next_step(CaptureEvent::Woken { stop: true }),
        CaptureStep::Finish
    );
}

#[test]
fn silent_packets_are_zeros() {
    let (producer, mut consumer) = raw_ring(16);
    let mut sink = PacketSink::new(RawSink::new(producer, 48_000, 2), 2);
    assert_eq!(sink.on_packet(true, 2, Some(&[9, 9, 9, 9]), 0), Some(4));
    assert_eq!(sink.on_packet(false, 1, Some(&[7, 8]), 0), Some(2));
    assert_eq!(sink.on_packet(false, 1, None, 0), None);
    assert_eq!(sink.on_packet(true, 0, None, 0), None);
    let mut out = [1u32; 8];
    assert_eq!(consumer.pop_slice(&mut out), 6);
    assert_eq!(out, [0, 0, 0, 0, 7, 8, 1, 1]);
}

#[test]
fn new_and_native_format_are_fixed() {
    let backend = WasapiProcessBackend::new(1234, ProcessMode::Include);
    assert_eq!(backend.native_format(), (48_000, 2));
    assert_eq!(backend.target_pid(), 1234);
    assert_eq!(backend.mode(), ProcessMode::Include);
}

#[test]
fn process_new_and_native_format_do_not_panic() {
    let backend = MacProcessBackend::new(1234, false);
    let (rate, channels) = backend.native_format();
    assert!(rate > 0);
    assert!(channels > 0);
    assert_eq!(backend.target_pid(), 1234);
    assert!(!backend.exclude_self());
}

#[test]
fn process_start_then_stop_tolerates_missing_target() {
    let mut backend = WasapiProcessBackend::new(0xFFFF_FFFE, ProcessMode::Include);
    assert!(backend.must_spawn());
    assert!(backend.launched(Launch::Ready).is_ok());
    assert!(backend.stop());
    assert!(!backend.stop());
    assert!(backend
        .launched(Launch::Failed(Error::UnsupportedOsVersion))
        .is_err());

    let mut backend = MacProcessBackend::new(0xFFFF_FFFE, false);
    assert!(matches!(backend.begin(14, 4), Ok(true)));
    assert!(backend.launched(Launch::Ready).is_ok());
    assert!(backend.stop());
    assert!(!backend.stop());
    assert!(backend
        .launched(Launch::Failed(Error::DeviceNotFound))
        .is_err());
}

#[test]
fn system_new_and_native_format_do_not_panic() {
    let backend = MacSystemBackend::new(false);
    let (rate, channels) = backend.native_format();
    assert!(rate > 0);
    assert!(channels > 0);

    let backend = WasapiSystemBackend::new(false, None);
    let (rate, channels) = backend.native_format();
    assert!(rate > 0);
    assert!(channels > 0);
    let backend = WasapiSystemBackend::new(false, Some((44_100, 6)));
    assert_eq!(backend.native_format(), (44_100, 6));
}

#[test]
fn new_exclude_self_native_is_fixed() {
    let backend = WasapiSystemBackend::new(true, Some((44_100, 6)));
    assert_eq!(backend.native_format(), (48_000, 2));
}

#[test]
fn start_then_stop_tolerates_missing_endpoint() {
    let mut backend = WasapiSystemBackend::new(false, None);
    assert_eq!(backend.begin(5), Some(SystemLoopback::Endpoint));
    assert!(backend.launched(Launch::Ready).is_ok());
    assert_eq!(backend.begin(5), None);
    assert!(backend.stop());
    assert!(!backend.stop());
    assert!(backend
        .launched(Launch::Failed(Error::DeviceNotFound))
        .is_err());
}

#[test]
fn start_then_stop_exclude_self_tolerates_failure() {
    let mut backend = WasapiSystemBackend::new(true, None);
    assert_eq!(
        backend.begin(5),
        Some(SystemLoopback::Process(5, ProcessMode::Exclude))
    );
    assert!(backend.launched(Launch::Ready).is_ok());
    assert!(backend.stop());
    assert!(!backend.stop());
    assert!(backend.launched(Launch::Vanished).is_err());
}

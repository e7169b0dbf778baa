use flexaudio::lifecycle::Launch;
use flexaudio::macos::{
    ensure_process_tap_supported, interleave, map_os_status, meets_min_version, process_tap,
    system_tap, tap_label, tap_native_format, translated_object, MacProcessBackend,
    MacSystemBackend, TapChain, TapKind, TapPart, FALLBACK_FORMAT, NO_ERR,
};
use flexaudio::types::Error;

#[test]
fn map_os_status_maps_known_codes() {
    assert!(matches!(
        map_os_status("x", 0x6e6f7065),
        Error::PermissionDenied
    ));
    assert!(matches!(map_os_status("x", 0x73746f70), Error::Backend(_)));
    let e = map_os_status("ctx", i32::from_be_bytes(*b"abcd"));
    assert!(e.message().contains("abcd"));
}

#[test]
fn unreadable_statuses_are_shown_as_numbers() {
    assert_eq!(
        map_os_status("ctx", -50).message(),
        "backend error: ctx: OSStatus -50"
    );
    assert_eq!(
        map_os_status("ctx", i32::from_be_bytes(*b"abcd")).message(),
        "backend error: ctx: OSStatus 'abcd' (1633837924)"
    );
}

#[test]
fn fallback_format_is_48k_stereo() {
    assert_eq!(FALLBACK_FORMAT, (48_000, 2));
}

#[test]
fn version_14_3_is_unsupported() {
    assert!(!meets_min_version(14, 3));
    assert!(!meets_min_version(14, 0));
    assert!(!meets_min_version(13, 9));
}

#[test]
fn version_14_4_is_supported() {
    assert!(meets_min_version(14, 4));
}

#[test]
fn newer_versions_are_supported() {
    assert!(meets_min_version(14, 5));
    assert!(meets_min_version(15, 0));
    assert!(meets_min_version(26, 6));
}

#[test]
fn higher_major_with_low_minor_is_supported() {
    assert!(meets_min_version(15, 0));
    assert!(meets_min_version(99, 0));
}

#[test]
fn old_systems_are_refused() {
    assert!(ensure_process_tap_supported(14, 4).is_ok());
    assert!(matches!(
        ensure_process_tap_supported(14, 3),
        Err(Error::UnsupportedOsVersion)
    ));
    let backend = MacSystemBackend::new(false);
    assert!(matches!(
        backend.begin(14, 3),
        Err(Error::UnsupportedOsVersion)
    ));
}

#[test]
fn start_then_stop_tolerates_failure() {
    let mut backend = MacSystemBackend::new(false);
    assert!(matches!(backend.begin(14, 4), Ok(true)));
    assert!(backend.launched(Launch::Ready).is_ok());
    assert!(matches!(backend.begin(14, 4), Ok(false)));
    assert!(backend.stop());
    assert!(!backend.stop());
    assert!(matches!(
        backend.launched(Launch::Failed(Error::PermissionDenied)),
        Err(Error::PermissionDenied)
    ));
}

#[test]
fn new_exclude_self_start_then_stop_tolerates_failure() {
    let mut backend = MacSystemBackend::new(true);
    let (rate, channels) = backend.native_format();
    assert!(rate > 0);
    assert!(channels > 0);
    assert!(backend.exclude_self());
    assert!(matches!(backend.begin(15, 0), Ok(true)));
    assert!(backend.launched(Launch::Ready).is_ok());
    assert!(backend.stop());
    assert!(!backend.stop());
    assert!(backend.launched(Launch::Vanished).is_err());
}

#[test]
fn a_process_backend_keeps_its_target() {
    let backend = MacProcessBackend::new(7, true);
    assert_eq!(backend.target_pid(), 7);
    assert!(backend.exclude_self());
}

#[test]
fn taps_take_what_they_are_told() {
    assert!(matches!(
        process_tap(Ok(0), false),
        Err(Error::DeviceNotFound)
    ));
    assert_eq!(
        process_tap(Ok(5), false).unwrap(),
        TapKind::IncludeProcesses(vec![5])
    );
    assert_eq!(
        process_tap(Ok(5), true).unwrap(),
        TapKind::ExcludeProcesses(vec![5])
    );
    assert_eq!(
        system_tap(false, Ok(5)).unwrap(),
        TapKind::ExcludeProcesses(vec![])
    );
    assert_eq!(
        system_tap(true, Ok(5)).unwrap(),
        TapKind::ExcludeProcesses(vec![5])
    );
    assert_eq!(
        system_tap(true, Ok(0)).unwrap(),
        TapKind::ExcludeProcesses(vec![])
    );
    assert!(matches!(
        system_tap(true, translated_object(0x6e6f7065, 5)),
        Err(Error::PermissionDenied)
    ));
    assert_eq!(translated_object(NO_ERR, 9).unwrap(), 9);
    assert_eq!(
        tap_label(&TapKind::IncludeProcesses(vec![])),
        "flexaudio-process-tap"
    );
    assert_eq!(
        tap_label(&TapKind::ExcludeProcesses(vec![])),
        "flexaudio-system-tap"
    );
}

#[test]
fn tap_formats_must_make_sense() {
    assert_eq!(tap_native_format(NO_ERR, 44_100, 2), Some((44_100, 2)));
    assert_eq!(tap_native_format(NO_ERR, 0, 2), None);
    assert_eq!(tap_native_format(NO_ERR, 44_100, 0), None);
    assert_eq!(tap_native_format(-1, 44_100, 2), None);
}

#[test]
fn a_chain_comes_down_as_it_went_up() {
    let mut chain = TapChain::new();
    let mut made = Vec::new();
    while let Some(part) = chain.next() {
        chain.report(NO_ERR, 10 + made.len() as u32).unwrap();
        made.push(part);
    }
    assert_eq!(
        made,
        vec![
            TapPart::Tap,
            TapPart::Aggregate,
            TapPart::Callback,
            TapPart::Running
        ]
    );
    assert_eq!((chain.tap_id(), chain.aggregate_id()), (10, 11));
    made.reverse();
    assert_eq!(chain.teardown(), made);
    assert!(chain.teardown().is_empty());
}

#[test]
fn a_failed_part_leaves_what_stands() {
    let mut chain = TapChain::new();
    chain.report(NO_ERR, 3).unwrap();
    assert_eq!(
        chain.report(NO_ERR, 0).unwrap_err().message(),
        "backend error: AudioHardwareCreateAggregateDevice returned null device id"
    );
    assert_eq!(chain.next(), Some(TapPart::Aggregate));
    assert_eq!(chain.teardown(), vec![TapPart::Tap]);
}

#[test]
fn planar_buffers_are_interleaved() {
    let buffers = vec![Some(vec![1, 2, 3]), Some(vec![4, 5, 6])];
    assert_eq!(interleave(&buffers), Some(vec![1, 4, 2, 5, 3, 6]));
    let one = vec![Some(vec![1, 2, 3])];
    assert_eq!(interleave(&one), Some(vec![1, 2, 3]));
    assert_eq!(interleave(&vec![]), None);
}

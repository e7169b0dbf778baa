use flexaudio::stream::StreamState;
use flexaudio::types::{ChunkFlags, Error, OutputFormat};

fn output(sample_rate: u32, channels: u16) -> OutputFormat {
    OutputFormat {
        sample_rate,
        channels,
    }
}

#[test]
fn a_switch_keeps_numbers_and_gain() {
    let mut s = StreamState::new(output(48_000, 2), 0.5f32.to_bits(), "0.5").unwrap();
    assert_eq!(s.next_chunk(), (0, ChunkFlags::empty()));
    assert_eq!(s.next_chunk(), (1, ChunkFlags::empty()));
    assert!(s.accept_switch(output(48_000, 2)).is_ok());
    s.switched();
    assert_eq!(s.gain(), 0.5f32.to_bits());
    assert_eq!(s.next_chunk(), (2, ChunkFlags::discontinuity()));
    assert_eq!(s.next_chunk(), (3, ChunkFlags::empty()));
}

#[test]
fn another_output_format_is_refused() {
    let s = StreamState::new(output(48_000, 2), 1.0f32.to_bits(), "1").unwrap();
    for other in [output(16_000, 2), output(48_000, 1)] {
        match s.accept_switch(other) {
            Err(Error::InvalidArg(m)) => assert_eq!(m, "output format cannot change on switch"),
            r => panic!("unexpected outcome: {r:?}"),
        }
    }
}

#[test]
fn a_pause_shows_in_the_next_chunk() {
    let mut s = StreamState::new(output(48_000, 2), 1.0f32.to_bits(), "1").unwrap();
    s.resume();
    assert_eq!(s.next_chunk(), (0, ChunkFlags::empty()));
    s.pause();
    assert!(s.is_paused());
    s.resume();
    assert!(!s.is_paused());
    assert_eq!(s.next_chunk(), (1, ChunkFlags::discontinuity()));
}

#[test]
fn a_gain_is_finite_and_not_negative() {
    for bad in [f32::NAN, f32::INFINITY, -0.5] {
        match StreamState::new(output(48_000, 2), bad.to_bits(), "that") {
            Err(Error::InvalidArg(m)) => {
                assert_eq!(m, "gain must be finite and >= 0.0, got that")
            }
            r => panic!("unexpected outcome: {r:?}"),
        }
    }
    let mut s = StreamState::new(output(48_000, 2), 0.0f32.to_bits(), "0").unwrap();
    assert!(s.set_gain((-1.0f32).to_bits(), "-1").is_err());
    assert_eq!(s.gain(), 0);
    assert!(s.set_gain(2.0f32.to_bits(), "2").is_ok());
    assert_eq!(s.gain(), 2.0f32.to_bits());
}

use flexaudio::normalizer::{mix_to_stereo, Normalizer, Stage, CHUNK_FRAMES};
use flexaudio::types::OutputFormat;
use rubato::audioadapter_buffers::direct::InterleavedSlice;
use rubato::{
    Async, FixedAsync, Resampler, SincInterpolationParameters, SincInterpolationType,
    WindowFunction,
};
use std::f32::consts::PI;

/// A normalizer together with the filters that do its work.
struct Pipeline {
    n: Normalizer,
    first: Option<Async<f32>>,
    second: Option<Async<f32>>,
    out_channels: usize,
}

fn filter(from: u32, to: u32, frames: usize, channels: usize) -> Async<f32> {
    let params = SincInterpolationParameters {
        sinc_len: 128,
        f_cutoff: Some(0.95),
        interpolation: SincInterpolationType::Linear,
        oversampling_factor: 128,
        window: WindowFunction::BlackmanHarris2,
    };
    Async::<f32>::new_sinc(
        to as f64 / from as f64,
        1.0,
        &params,
        frames,
        channels,
        FixedAsync::Input,
    )
    .unwrap()
}

fn run(filter: &mut Async<f32>, block: &[u32], channels: usize) -> Vec<u32> {
    let input: Vec<f32> = block.iter().map(|s| f32::from_bits(*s)).collect();
    let frames = input.len() / channels;
    let max = filter.output_frames_max();
    let mut output = vec![0.0f32; max * channels];
    let written = {
        let from = InterleavedSlice::new(&input[..], channels, frames).unwrap();
        let mut to = InterleavedSlice::new_mut(&mut output[..], channels, max).unwrap();
        let (_, written) = filter.process_into_buffer(&from, &mut to, None).unwrap();
        written
    };
    output[..written * channels]
        .iter()
        .map(|s| s.to_bits())
        .collect()
}

impl Pipeline {
    fn new(rate: u32, channels: u16, output: OutputFormat) -> Pipeline {
        let block = (rate as usize / 50).max(64);
        Pipeline {
            n: Normalizer::new(rate, channels, output),
            first: if rate == 48_000 {
                None
            } else {
                Some(filter(rate, 48_000, block, 2))
            },
            second: if output.sample_rate == 48_000 {
                None
            } else {
                Some(filter(
                    48_000,
                    output.sample_rate,
                    960,
                    output.channels as usize,
                ))
            },
            out_channels: output.channels as usize,
        }
    }

    fn push(&mut self, samples: &[f32], pts: i64) {
        let bits: Vec<u32> = samples.iter().map(|s| s.to_bits()).collect();
        let inner = self.n.total_inner_frames() as f64;
        let input = (inner * (self.n.in_sample_rate() as f64 / 48_000.0)) as u64;
        let ratio = self.n.output().sample_rate as f64 / self.n.in_sample_rate() as f64;
        self.n.push(&bits, pts, (input as f64 * ratio) as u64);
        while let Some(work) = self.n.next_work() {
            let done = match work.stage {
                Stage::Input => run(self.first.as_mut().unwrap(), &work.block, 2),
                Stage::Output => run(
                    self.second.as_mut().unwrap(),
                    &work.block,
                    self.out_channels,
                ),
            };
            self.n.complete(done);
        }
    }

    fn pop_chunk(&mut self) -> Option<(Vec<f32>, i64)> {
        let (chunk, pts) = self.n.pop_chunk()?;
        Some((chunk.iter().map(|s| f32::from_bits(*s)).collect(), pts))
    }
}

fn default_out() -> OutputFormat {
    OutputFormat::default()
}

#[test]
fn mono_48k_to_stereo_duplicates_channels() {
    let mut n = Pipeline::new(48_000, 1, default_out());
    assert!(n.n.is_passthrough());
    assert!(n.n.is_output_passthrough());
    let mono: Vec<f32> = (0..CHUNK_FRAMES).map(|i| (i as f32) * 0.001).collect();
    n.push(&mono, 0);
    let (chunk, _pts) = n.pop_chunk().expect("one chunk");
    assert_eq!(chunk.len(), CHUNK_FRAMES * 2);
    for f in 0..CHUNK_FRAMES {
        assert_eq!(chunk[f * 2], chunk[f * 2 + 1], "L==R at frame {f}");
        assert_eq!(chunk[f * 2], mono[f]);
    }
}

#[test]
fn passthrough_preserves_frame_count() {
    let mut n = Pipeline::new(48_000, 2, default_out());
    assert!(n.n.is_passthrough());
    assert!(n.n.is_output_passthrough());
    let frames = CHUNK_FRAMES * 2 + 100;
    let stereo: Vec<f32> = (0..frames * 2).map(|i| (i as f32) * 1e-4).collect();
    n.push(&stereo, 0);

    let mut got_frames = 0usize;
    while let Some((c, _)) = n.pop_chunk() {
        assert_eq!(c.len(), CHUNK_FRAMES * 2);
        got_frames += CHUNK_FRAMES;
    }
    assert_eq!(got_frames, CHUNK_FRAMES * 2);
    assert_eq!(n.n.buffered_out_frames(), 100);
}

#[test]
fn stereo_44100_to_48000_yields_about_50_chunks_per_second() {
    let mut n = Pipeline::new(44_100, 2, default_out());
    assert!(!n.n.is_passthrough());

    let in_frames = 44_100;
    let freq = 440.0_f32;
    let mut interleaved = Vec::with_capacity(in_frames * 2);
    for i in 0..in_frames {
        let s = (2.0 * PI * freq * (i as f32) / 44_100.0).sin() * 0.5;
        interleaved.push(s);
        interleaved.push(s);
    }

    let mut pts = 0i64;
    for block in interleaved.chunks(441 * 2) {
        n.push(block, pts);
        pts += (block.len() as i64 / 2) * 1_000_000_000 / 44_100;
    }

    let mut chunks = 0usize;
    while let Some((c, _pts)) = n.pop_chunk() {
        assert_eq!(c.len(), CHUNK_FRAMES * 2);
        chunks += 1;
    }
    assert!(
        (47..=50).contains(&chunks),
        "expected ~50 chunks, got {chunks}"
    );
}

#[test]
fn pts_increases_monotonically_across_chunks() {
    let mut n = Pipeline::new(48_000, 2, default_out());
    let frames = CHUNK_FRAMES * 3;
    let stereo = vec![0.0f32; frames * 2];
    n.push(&stereo, 100_000_000);

    let mut last = i64::MIN;
    let mut count = 0;
    while let Some((_, pts)) = n.pop_chunk() {
        assert!(pts >= last, "pts must be non-decreasing");
        last = pts;
        count += 1;
    }
    assert_eq!(count, 3);
}

#[test]
fn output_16k_mono_yields_320_frame_mono_chunks() {
    let out = OutputFormat {
        sample_rate: 16_000,
        channels: 1,
    };
    let mut n = Pipeline::new(48_000, 2, out);
    assert!(n.n.is_passthrough());
    assert!(!n.n.is_output_passthrough());

    let in_frames = 48_000;
    let freq = 440.0_f32;
    let mut pts = 0i64;
    for blk in 0..(in_frames / 480) {
        let mut block = Vec::with_capacity(480 * 2);
        for j in 0..480 {
            let i = blk * 480 + j;
            let s = (2.0 * PI * freq * (i as f32) / 48_000.0).sin() * 0.5;
            block.push(s);
            block.push(s);
        }
        n.push(&block, pts);
        pts += 480 * 1_000_000_000 / 48_000;
    }

    let mut chunks = 0usize;
    while let Some((c, _)) = n.pop_chunk() {
        assert_eq!(c.len(), 320, "16k mono 20ms = 320 sample (mono)");
        chunks += 1;
    }
    assert!((47..=50).contains(&chunks), "expected ~50 chunks, got {chunks}");
}

#[test]
fn output_16k_stereo_yields_320_frame_640_sample_chunks() {
    let out = OutputFormat {
        sample_rate: 16_000,
        channels: 2,
    };
    let mut n = Pipeline::new(48_000, 2, out);
    let in_frames = 48_000;
    let stereo: Vec<f32> = (0..in_frames * 2)
        .map(|i| ((i / 2) as f32 * 0.0001).sin() * 0.3)
        .collect();
    for block in stereo.chunks(480 * 2) {
        n.push(block, 0);
    }
    let mut chunks = 0usize;
    while let Some((c, _)) = n.pop_chunk() {
        assert_eq!(c.len(), 640, "16k stereo 20ms = 320 frame * 2 = 640 sample");
        chunks += 1;
    }
    assert!((47..=50).contains(&chunks), "expected ~50 chunks, got {chunks}");
}

#[test]
fn output_8k_stereo_yields_160_frame_chunks() {
    let out = OutputFormat {
        sample_rate: 8_000,
        channels: 2,
    };
    let mut n = Pipeline::new(48_000, 2, out);
    let stereo: Vec<f32> = (0..48_000 * 2)
        .map(|i| (i as f32 * 1e-5).sin() * 0.2)
        .collect();
    for block in stereo.chunks(480 * 2) {
        n.push(block, 0);
    }
    let mut chunks = 0usize;
    while let Some((c, _)) = n.pop_chunk() {
        assert_eq!(c.len(), 320, "8k stereo 20ms = 160 frame * 2 = 320 sample");
        chunks += 1;
    }
    assert!((47..=50).contains(&chunks), "expected ~50 chunks, got {chunks}");
}

#[test]
fn stereo_to_mono_is_lr_average() {
    let out = OutputFormat {
        sample_rate: 48_000,
        channels: 1,
    };
    let mut n = Pipeline::new(48_000, 2, out);
    let mut stereo = Vec::with_capacity(CHUNK_FRAMES * 2);
    for _ in 0..CHUNK_FRAMES {
        stereo.push(0.5);
        stereo.push(-0.5);
    }
    n.push(&stereo, 0);
    let (chunk, _) = n.pop_chunk().expect("one mono chunk");
    assert_eq!(chunk.len(), CHUNK_FRAMES);
    for &s in &chunk {
        assert!(s.abs() < 1e-6, "{s}");
    }
}

#[test]
fn mono_output_is_half_of_the_sum() {
    let out = OutputFormat {
        sample_rate: 48_000,
        channels: 1,
    };
    let mut n = Pipeline::new(48_000, 2, out);
    let stereo: Vec<f32> = (0..CHUNK_FRAMES * 2)
        .map(|i| (i as f32 * 0.37).sin() * 0.9)
        .collect();
    n.push(&stereo, 0);
    let (chunk, _) = n.pop_chunk().unwrap();
    for f in 0..CHUNK_FRAMES {
        assert_eq!(chunk[f], (stereo[2 * f] + stereo[2 * f + 1]) * 0.5);
    }
}

#[test]
fn more_than_two_channels_keep_the_front_pair() {
    let mixed = mix_to_stereo(&[1, 2, 3, 4, 5, 6, 7, 8, 9, 10, 11], 5);
    assert_eq!(mixed, vec![1, 2, 6, 7]);
    assert_eq!(mix_to_stereo(&[1, 2, 3], 1), vec![1, 1, 2, 2, 3, 3]);
    assert_eq!(mix_to_stereo(&[1, 2, 3], 2), vec![1, 2]);
}

#[test]
fn chunk_times_follow_the_anchor() {
    let mut n = Normalizer::new(48_000, 2, default_out());
    n.push(&vec![0u32; CHUNK_FRAMES * 2 * 2], 5_000_000, 0);
    assert_eq!(n.pop_chunk().unwrap().1, 5_000_000);
    // One frame lasts 20833 ns in whole nanoseconds.
    assert_eq!(n.pop_chunk().unwrap().1, 5_000_000 + 960 * 20_833);
    assert!(n.pop_chunk().is_none());
    n.push(&vec![0u32; CHUNK_FRAMES * 2], 50_000_000, 1920);
    assert_eq!(n.pop_chunk().unwrap().1, 50_000_000);
}

#[test]
fn a_push_of_less_than_a_frame_changes_nothing() {
    let mut n = Normalizer::new(48_000, 4, default_out());
    n.push(&[1, 2, 3], 7, 0);
    n.push(&[], 7, 0);
    assert_eq!(n.buffered_out_frames(), 0);
    assert_eq!(n.total_inner_frames(), 0);
}

#[test]
fn work_comes_in_whole_blocks() {
    let mut n = Normalizer::new(44_100, 2, default_out());
    n.push(&vec![9u32; 881 * 2], 0, 0);
    assert!(n.next_work().is_none());
    n.push(&vec![9u32; 2], 0, 0);
    let work = n.next_work().unwrap();
    assert_eq!(work.stage, Stage::Input);
    assert_eq!(work.block.len(), 882 * 2);
    // One block is out at a time.
    assert!(n.next_work().is_none());
    n.complete(vec![3u32; 960 * 2]);
    assert_eq!(n.total_inner_frames(), 960);
    let (chunk, _) = n.pop_chunk().unwrap();
    assert_eq!(chunk, vec![3u32; 1920]);
}

#[test]
fn slow_devices_still_get_blocks_of_64_frames() {
    let mut n = Normalizer::new(1_000, 1, default_out());
    n.push(&vec![1u32; 63], 0, 0);
    assert!(n.next_work().is_none());
    n.push(&vec![1u32; 1], 0, 0);
    assert_eq!(n.next_work().unwrap().block.len(), 128);
}

#[test]
fn how_the_input_is_cut_does_not_matter() {
    for (rate, channels, output) in [
        (48_000, 2, default_out()),
        (
            44_100,
            1,
            OutputFormat {
                sample_rate: 16_000,
                channels: 1,
            },
        ),
        (
            48_000,
            6,
            OutputFormat {
                sample_rate: 8_000,
                channels: 2,
            },
        ),
    ] {
        let width = channels as usize;
        let samples: Vec<f32> = (0..9_000 * width)
            .map(|i| ((i % 97) as f32 - 48.0) / 64.0)
            .collect();
        let mut once = Pipeline::new(rate, channels, output);
        once.push(&samples, 0);
        let waiting = once.n.buffered_out_frames();
        let mut expected = Vec::new();
        while let Some((chunk, _)) = once.pop_chunk() {
            expected.push(chunk);
        }
        for cut in [0usize, 1, 883, 4_000, 9_000] {
            let mut twice = Pipeline::new(rate, channels, output);
            twice.push(&samples[..cut * width], 0);
            twice.push(&[], 5);
            twice.push(&samples[cut * width..], 7);
            assert_eq!(twice.n.buffered_out_frames(), waiting);
            let mut got = Vec::new();
            while let Some((chunk, _)) = twice.pop_chunk() {
                got.push(chunk);
            }
            assert_eq!(got, expected, "rate {rate}, cut at {cut}");
        }
    }
}

use flexaudio::vad::config::{ConfigIssue, VadConfig};
use flexaudio::vad::segmenter::{Segment, Segmenter};
use flexaudio::vad::stream::{
    get_speech_timestamps, invalid_config, segment_events, whole_frames, Vad, VadError, VadEvent,
    STATE_LEN,
};
use flexaudio::vad::threshold::derive_neg_threshold;

fn run_probs(config: &VadConfig, probs: &[f32]) -> Vec<Segment> {
    let mut seg = Segmenter::new(config);
    let mut out = Vec::new();
    for &p in probs {
        seg.feed(p.to_bits(), &mut out);
    }
    seg.flush(&mut out);
    out
}

fn base_config() -> VadConfig {
    VadConfig {
        threshold: 0.5f32.to_bits(),
        neg_threshold: Some(0.35f32.to_bits()),
        min_speech_ms: 0,
        min_silence_ms: 0,
        speech_pad_ms: 0,
        max_speech_ms: 0,
        sample_rate: 16000,
    }
}

/// Gives samples and concludes every whole frame with what `model` answers.
fn process(vad: &mut Vad, samples: &[f32], model: fn(&[u32]) -> f32) -> Vec<VadEvent> {
    let bits: Vec<u32> = samples.iter().map(|s| s.to_bits()).collect();
    let mut segments = Vec::new();
    vad.give(&bits);
    while let Some(frame) = vad.next_frame() {
        let input = vad.model_input(&frame);
        let answer = model(&input).to_bits();
        let prob = vad
            .accept_output(&frame, Some(answer), vec![0; STATE_LEN])
            .unwrap_or(0);
        vad.conclude(prob, &mut segments);
    }
    segment_events(&segments)
}

fn quiet(_input: &[u32]) -> f32 {
    0.01
}

#[test]
fn neg_threshold_default_formula() {
    let mut c = VadConfig::default();
    assert_eq!(
        c.resolved_neg_threshold(),
        (0.5 - 0.15_f32).max(0.01).to_bits()
    );
    c.threshold = 0.1f32.to_bits();
    assert_eq!(c.resolved_neg_threshold(), 0.01f32.to_bits());
    c.neg_threshold = Some(0.2f32.to_bits());
    assert_eq!(c.resolved_neg_threshold(), 0.2f32.to_bits());
}

#[test]
fn derived_thresholds_are_those_of_the_formula() {
    for i in 0..=1000 {
        let t = i as f32 / 1000.0;
        assert_eq!(
            f32::from_bits(derive_neg_threshold(t.to_bits())),
            (t - 0.15).max(0.01),
            "at {t}"
        );
    }
}

#[test]
fn presets_have_their_thresholds() {
    assert_eq!(VadConfig::aggressive().threshold, 0.35f32.to_bits());
    assert_eq!(VadConfig::balanced().threshold, 0.5f32.to_bits());
    assert_eq!(VadConfig::conservative().threshold, 0.6f32.to_bits());
    assert_eq!(VadConfig::default(), VadConfig::balanced());
}

#[test]
fn simple_speech_then_silence() {
    let mut c = base_config();
    c.min_silence_ms = 32;
    let mut probs = vec![0.9f32; 20];
    probs.extend(vec![0.1f32; 30]);
    let segs = run_probs(&c, &probs);
    assert_eq!(segs.len(), 1, "exactly one segment");
    let s = segs[0];
    assert_eq!(s.start_sample, 0);
    assert_eq!(s.end_sample, 20 * 512);
}

#[test]
fn min_speech_discards_short_segment() {
    let mut c = base_config();
    c.min_silence_ms = 32;
    c.min_speech_ms = 250;
    let mut probs = vec![0.9f32; 5];
    probs.extend(vec![0.1f32; 10]);
    let segs = run_probs(&c, &probs);
    assert!(segs.is_empty(), "short segment must be discarded, got {segs:?}");

    let mut probs2 = vec![0.9f32; 10];
    probs2.extend(vec![0.1f32; 10]);
    let segs2 = run_probs(&c, &probs2);
    assert_eq!(segs2.len(), 1);
    assert_eq!(segs2[0].len_samples(), 10 * 512);
}

#[test]
fn min_silence_boundary_keeps_segment_together() {
    let mut c = base_config();
    c.min_silence_ms = 192;
    let mut probs = vec![0.9f32; 10];
    probs.extend(vec![0.1f32; 3]);
    probs.extend(vec![0.9f32; 10]);
    probs.extend(vec![0.1f32; 10]);
    let segs = run_probs(&c, &probs);
    assert_eq!(segs.len(), 1, "short gap must NOT split, got {segs:?}");
    assert_eq!(segs[0].start_sample, 0);
    assert_eq!(segs[0].end_sample, 23 * 512);
}

#[test]
fn min_silence_just_over_splits() {
    let mut c = base_config();
    c.min_silence_ms = 64;
    let mut probs = vec![0.9f32; 5];
    probs.extend(vec![0.1f32; 3]);
    probs.extend(vec![0.9f32; 5]);
    probs.extend(vec![0.1f32; 5]);
    let segs = run_probs(&c, &probs);
    assert_eq!(segs.len(), 2, "long gap must split into two, got {segs:?}");
    assert_eq!(segs[0].start_sample, 0);
    assert_eq!(segs[0].end_sample, 5 * 512);
}

#[test]
fn speech_pad_extends_and_clamps() {
    let mut c = base_config();
    c.min_silence_ms = 32;
    c.speech_pad_ms = 32;
    let mut probs = vec![0.1f32; 2];
    probs.extend(vec![0.9f32; 4]);
    probs.extend(vec![0.1f32; 5]);
    let segs = run_probs(&c, &probs);
    assert_eq!(segs.len(), 1);
    assert_eq!(segs[0].start_sample, 1024 - 512);
    assert_eq!(segs[0].end_sample, 6 * 512 + 512);
}

#[test]
fn speech_pad_start_clamps_at_zero() {
    let mut c = base_config();
    c.min_silence_ms = 32;
    c.speech_pad_ms = 64;
    let mut probs = vec![0.9f32; 5];
    probs.extend(vec![0.1f32; 5]);
    let segs = run_probs(&c, &probs);
    assert_eq!(segs.len(), 1);
    assert_eq!(segs[0].start_sample, 0, "start pad must clamp to 0");
}

#[test]
fn pad_does_not_overlap_previous_segment() {
    let mut c = base_config();
    c.min_silence_ms = 64;
    c.speech_pad_ms = 192;
    let mut probs = vec![0.9f32; 5];
    probs.extend(vec![0.1f32; 3]);
    probs.extend(vec![0.9f32; 5]);
    probs.extend(vec![0.1f32; 5]);
    let segs = run_probs(&c, &probs);
    assert_eq!(segs.len(), 2);
    assert!(
        segs[1].start_sample >= segs[0].end_sample,
        "seg1.start ({}) must be >= seg0.end ({})",
        segs[1].start_sample,
        segs[0].end_sample
    );
}

#[test]
fn max_speech_forces_split_when_no_silence() {
    let mut c = base_config();
    c.max_speech_ms = 192;
    c.min_silence_ms = 32;
    let probs = vec![0.9f32; 20];
    let segs = run_probs(&c, &probs);
    assert!(segs.len() >= 2, "max_speech must force at least one split, got {segs:?}");
    for s in &segs {
        assert!(
            s.len_samples() <= c.ms_to_samples(c.max_speech_ms) + 512,
            "segment {s:?} exceeds max_speech by more than one frame"
        );
    }
}

#[test]
fn gray_zone_keeps_triggered() {
    let mut c = base_config();
    c.min_silence_ms = 32;
    let mut probs = vec![0.9f32; 5];
    probs.extend(vec![0.4f32; 5]);
    probs.extend(vec![0.9f32; 5]);
    probs.extend(vec![0.1f32; 5]);
    let segs = run_probs(&c, &probs);
    assert_eq!(segs.len(), 1, "gray zone must not split, got {segs:?}");
    assert_eq!(segs[0].end_sample, 15 * 512);
}

#[test]
fn process_streams_across_calls() {
    let mut vad = Vad::new(VadConfig::default()).unwrap();
    let total = 2048usize;
    let chunk = vec![0.0f32; 300];
    let mut fed = 0usize;
    let mut total_probs = 0usize;
    while fed < total {
        let take = chunk.len().min(total - fed);
        process(&mut vad, &chunk[..take], quiet);
        total_probs += vad.last_frame_probabilities().len();
        fed += take;
    }
    assert_eq!(total_probs, total / 512, "all complete frames must be inferred");
}

#[test]
fn reset_clears_state() {
    let mut vad = Vad::new(VadConfig::default()).unwrap();
    process(&mut vad, &vec![0.0f32; 1000], quiet);
    vad.reset();
    assert_eq!(vad.last_frame_probabilities().len(), 0);
    assert_eq!(vad.config().sample_rate, 16000);
    assert!(vad.next_frame().is_none());
    assert_eq!(vad.state(), &[0u32; STATE_LEN][..]);
}

#[test]
fn invalid_sample_rate_rejected() {
    let c = VadConfig {
        sample_rate: 44100,
        ..VadConfig::default()
    };
    let r = Vad::new(c).map_err(|issue| invalid_config(issue, ""));
    assert!(matches!(r, Err(VadError::InvalidConfig(_))));
}

#[test]
fn settings_are_checked_in_order() {
    let mut c = VadConfig {
        sample_rate: 44100,
        threshold: 1.5f32.to_bits(),
        neg_threshold: Some((-0.1f32).to_bits()),
        ..VadConfig::default()
    };
    assert_eq!(c.validate(), Err(ConfigIssue::SampleRate(44100)));
    assert_eq!(
        invalid_config(ConfigIssue::SampleRate(44100), "").message(),
        "invalid config: sample_rate must be 8000 or 16000, got 44100"
    );
    c.sample_rate = 8000;
    assert_eq!(c.validate(), Err(ConfigIssue::Threshold(1.5f32.to_bits())));
    assert_eq!(
        invalid_config(c.validate().unwrap_err(), "1.5").message(),
        "invalid config: threshold must be within [0.0, 1.0], got 1.5"
    );
    c.threshold = f32::NAN.to_bits();
    assert!(c.validate().is_err());
    c.threshold = 1.0f32.to_bits();
    assert_eq!(
        invalid_config(c.validate().unwrap_err(), "-0.1").message(),
        "invalid config: neg_threshold must be within [0.0, 1.0], got -0.1"
    );
    c.neg_threshold = Some((-0.0f32).to_bits());
    assert_eq!(c.validate(), Ok(()));
}

#[test]
fn silence_yields_no_segments() {
    let probs = vec![0.01f32.to_bits(); 16000 / 512];
    let segs = get_speech_timestamps(&VadConfig::default(), &probs).unwrap();
    assert!(segs.is_empty(), "silence yields no segments, got {segs:?}");
}

#[test]
fn speech_at_the_end_is_kept() {
    let mut c = base_config();
    c.min_silence_ms = 32;
    let probs = vec![0.9f32.to_bits(); 7];
    let segs = get_speech_timestamps(&c, &probs).unwrap();
    assert_eq!(
        segs,
        vec![Segment {
            start_sample: 0,
            end_sample: 7 * 512
        }]
    );
    c.sample_rate = 1;
    assert!(get_speech_timestamps(&c, &probs).is_err());
}

#[test]
fn stream_and_whole_input_agree() {
    let mut c = base_config();
    c.min_silence_ms = 64;
    c.min_speech_ms = 64;
    c.speech_pad_ms = 30;
    c.max_speech_ms = 320;
    let mut seed = 7u32;
    let mut probs: Vec<f32> = Vec::new();
    for _ in 0..400 {
        seed = seed.wrapping_mul(1_103_515_245).wrapping_add(12_345);
        probs.push(((seed >> 16) % 1000) as f32 / 1000.0);
    }
    let bits: Vec<u32> = probs.iter().map(|p| p.to_bits()).collect();
    let whole = get_speech_timestamps(&c, &bits).unwrap();
    assert_eq!(whole, run_probs(&c, &probs));
    for w in whole.windows(2) {
        assert!(w[0].end_sample <= w[1].start_sample);
    }
    for s in &whole {
        assert!(s.len_samples() >= c.ms_to_samples(64));
    }
}

#[test]
fn the_end_of_a_frame_is_the_next_context() {
    let mut vad = Vad::new(VadConfig::default()).unwrap();
    let samples: Vec<u32> = (0..1024).collect();
    vad.give(&samples);
    let first = vad.next_frame().unwrap();
    let input = vad.model_input(&first);
    assert_eq!(input.len(), 576);
    assert_eq!(input[..64].to_vec(), vec![0u32; 64]);
    assert_eq!(input[64..].to_vec(), samples[..512].to_vec());
    let state: Vec<u32> = (0..STATE_LEN as u32).collect();
    assert_eq!(
        vad.accept_output(&first, Some(5), state.clone()),
        Ok(5)
    );
    assert_eq!(vad.state().to_vec(), state);
    let mut out = Vec::new();
    vad.conclude(5, &mut out);
    let second = vad.next_frame().unwrap();
    let input = vad.model_input(&second);
    assert_eq!(input, samples[448..].to_vec());
}

#[test]
fn a_wrong_answer_changes_nothing() {
    let mut vad = Vad::new(VadConfig::default()).unwrap();
    vad.give(&[1; 512]);
    let frame = vad.next_frame().unwrap();
    assert_eq!(
        vad.accept_output(&frame, None, vec![1; STATE_LEN]),
        Err(VadError::Inference("empty output tensor".to_string()))
    );
    let err = vad.accept_output(&frame, Some(0), vec![1; 12]).unwrap_err();
    assert_eq!(
        err.message(),
        "inference error: unexpected state length 12 (expected 256)"
    );
    assert_eq!(vad.state().to_vec(), vec![0u32; STATE_LEN]);
    assert_eq!(
        VadError::ModelLoad("x".to_string()).message(),
        "model load error: x"
    );
}

#[test]
fn segments_become_pairs_of_events() {
    let segs = [
        Segment {
            start_sample: 16,
            end_sample: 48,
        },
        Segment {
            start_sample: 64,
            end_sample: 80,
        },
    ];
    assert_eq!(
        segment_events(&segs),
        vec![
            VadEvent::SpeechStart { at_sample: 16 },
            VadEvent::SpeechEnd { at_sample: 48 },
            VadEvent::SpeechStart { at_sample: 64 },
            VadEvent::SpeechEnd { at_sample: 80 },
        ]
    );
    assert_eq!(segs[0].start_ms(16000), 1);
    assert_eq!(segs[0].end_ms(8000), 6);
    assert_eq!(segs[0].start_ms(0), 16_000);
}

#[test]
fn frames_depend_on_the_rate() {
    let mut c = VadConfig::default();
    assert_eq!((c.frame_size(), c.context_size()), (512, 64));
    c.sample_rate = 8000;
    assert_eq!((c.frame_size(), c.context_size()), (256, 32));
    assert_eq!(c.ms_to_samples(33), 264);
}

#[test]
fn whole_frames_leave_the_rest_out() {
    let mut c = base_config();
    let samples: Vec<u32> = (0..1100).collect();
    let frames = whole_frames(&samples, &c);
    assert_eq!(frames, vec![samples[..512].to_vec(), samples[512..1024].to_vec()]);
    assert_eq!(frames, whole_frames(&samples[..1024], &c));
    assert!(whole_frames(&samples[..511], &c).is_empty());
    c.sample_rate = 8000;
    assert_eq!(whole_frames(&samples, &c).len(), 4);
    assert_eq!(get_speech_timestamps(&c, &[]), Ok(vec![]));
}

fn loud_where_positive(input: &[u32]) -> f32 {
    let last = f32::from_bits(input[input.len() - 1]);
    if last > 0.0 {
        0.9
    } else {
        0.1
    }
}

#[test]
fn two_calls_report_what_one_does() {
    let c = base_config();
    let mut samples = vec![-1.0f32; 700];
    samples.extend(vec![1.0f32; 2000]);
    samples.extend(vec![-1.0f32; 2500]);
    samples.extend(vec![1.0f32; 1500]);
    samples.extend(vec![-1.0f32; 900]);
    let mut once = Vad::new(c.clone()).unwrap();
    let whole = process(&mut once, &samples, loud_where_positive);
    assert!(!whole.is_empty() && whole.len() % 2 == 0);
    for cut in [0usize, 1, 511, 512, 513, 3000, 7599, 7600] {
        let mut twice = Vad::new(c.clone()).unwrap();
        let mut events = process(&mut twice, &samples[..cut], loud_where_positive);
        let first = twice.last_frame_probabilities().len();
        events.extend(process(&mut twice, &samples[cut..], loud_where_positive));
        let second = twice.last_frame_probabilities().len();
        assert_eq!(events, whole, "cut at {cut}");
        assert_eq!(first + second, samples.len() / 512);
    }
}

//! Settings of the voice activity detector.

use crate::sample::{at_least, Sample, ONE, ZERO};
use crate::vad::segmenter::SegmenterView;
use crate::vad::threshold::derive_neg_threshold;
use vstd::prelude::*;

verus! {

/// Bit pattern of `0.35`.
pub const THRESHOLD_AGGRESSIVE: Sample = 0x3eb3_3333;

/// Bit pattern of `0.5`.
pub const THRESHOLD_BALANCED: Sample = 0x3f00_0000;

/// Bit pattern of `0.6`.
pub const THRESHOLD_CONSERVATIVE: Sample = 0x3f19_999a;

/// Settings of the voice activity detector.
#[derive(Debug, Clone, PartialEq)]
pub struct VadConfig {
    /// Probability from which a frame is speech.
    pub threshold: Sample,
    /// Probability below which a frame is silence; `None` for 0.15 less than the threshold,
    /// but at least 0.01.
    pub neg_threshold: Option<Sample>,
    /// Shortest speech that is kept, in ms.
    pub min_speech_ms: u32,
    /// Silence that ends speech, in ms.
    pub min_silence_ms: u32,
    /// Padding on each side of a segment, in ms.
    pub speech_pad_ms: u32,
    /// Longest speech before it is cut, in ms; 0 for no limit.
    pub max_speech_ms: u32,
    /// Rate in Hz: 8000 or 16000.
    pub sample_rate: u32,
}

/// Why settings are rejected.
#[derive(Debug, Clone, Copy, PartialEq, Eq, Structural)]
pub enum ConfigIssue {
    /// The rate is neither 8000 nor 16000.
    SampleRate(u32),
    /// The threshold is not within 0 and 1.
    Threshold(Sample),
    /// The silence threshold is not within 0 and 1.
    NegThreshold(Sample),
}

/// Whether a probability is within 0 and 1.
pub open spec fn is_probability(p: Sample) -> bool {
    crate::sample::ge_value(p, ZERO) && crate::sample::ge_value(ONE, p)
}

fn within_unit(p: Sample) -> (r: bool)
    ensures
        r == is_probability(p),
{
    at_least(p, ZERO) && at_least(ONE, p)
}

impl Default for VadConfig {
    fn default() -> (config: VadConfig)
        ensures
            config == (VadConfig {
                threshold: THRESHOLD_BALANCED,
                neg_threshold: None,
                min_speech_ms: 250,
                min_silence_ms: 100,
                speech_pad_ms: 30,
                max_speech_ms: 0,
                sample_rate: 16000,
            }),
            config.issue() is None,
    {
        VadConfig {
            threshold: THRESHOLD_BALANCED,
            neg_threshold: None,
            min_speech_ms: 250,
            min_silence_ms: 100,
            speech_pad_ms: 30,
            max_speech_ms: 0,
            sample_rate: 16000,
        }
    }
}

impl VadConfig {
    /// A preset that misses little speech.
    pub fn aggressive() -> (config: VadConfig)
        ensures
            config == (VadConfig {
                threshold: THRESHOLD_AGGRESSIVE,
                neg_threshold: None,
                min_speech_ms: 200,
                min_silence_ms: 150,
                speech_pad_ms: 50,
                max_speech_ms: 0,
                sample_rate: 16000,
            }),
            config.issue() is None,
    {
        VadConfig {
            threshold: THRESHOLD_AGGRESSIVE,
            neg_threshold: None,
            min_speech_ms: 200,
            min_silence_ms: 150,
            speech_pad_ms: 50,
            max_speech_ms: 0,
            sample_rate: 16000,
        }
    }

    /// The default settings.
    pub fn balanced() -> (config: VadConfig)
        ensures
            config == (VadConfig {
                threshold: THRESHOLD_BALANCED,
                neg_threshold: None,
                min_speech_ms: 250,
                min_silence_ms: 100,
                speech_pad_ms: 30,
                max_speech_ms: 0,
                sample_rate: 16000,
            }),
            config.issue() is None,
    {
        VadConfig::default()
    }

    /// A preset that takes little else for speech.
    pub fn conservative() -> (config: VadConfig)
        ensures
            config == (VadConfig {
                threshold: THRESHOLD_CONSERVATIVE,
                neg_threshold: None,
                min_speech_ms: 300,
                min_silence_ms: 300,
                speech_pad_ms: 30,
                max_speech_ms: 0,
                sample_rate: 16000,
            }),
            config.issue() is None,
    {
        VadConfig {
            threshold: THRESHOLD_CONSERVATIVE,
            neg_threshold: None,
            min_speech_ms: 300,
            min_silence_ms: 300,
            speech_pad_ms: 30,
            max_speech_ms: 0,
            sample_rate: 16000,
        }
    }

    /// The silence threshold in force.
    pub open spec fn neg(self) -> Sample {
        match self.neg_threshold {
            Some(v) => v,
            None => crate::vad::threshold::default_neg_threshold(self.threshold),
        }
    }

    /// The silence threshold in force: the one that was set, or the one that follows from
    /// the threshold.
    pub fn resolved_neg_threshold(&self) -> (t: Sample)
        ensures
            t == self.neg(),
    {
        match self.neg_threshold {
            Some(v) => v,
            None => derive_neg_threshold(self.threshold),
        }
    }

    /// Samples per frame of the model: 256 at 8 kHz, else 512.
    pub open spec fn spec_frame_size(self) -> int {
        if self.sample_rate == 8000 {
            256
        } else {
            512
        }
    }

    /// Samples per frame of the model: 256 at 8 kHz, else 512.
    pub fn frame_size(&self) -> (n: usize)
        ensures
            n == self.spec_frame_size(),
    {
        if self.sample_rate == 8000 {
            256
        } else {
            512
        }
    }

    /// Samples of the frame before that the model sees again: 32 at 8 kHz, else 64.
    pub open spec fn spec_context_size(self) -> int {
        if self.sample_rate == 8000 {
            32
        } else {
            64
        }
    }

    /// Samples of the frame before that the model sees again: 32 at 8 kHz, else 64.
    pub fn context_size(&self) -> (n: usize)
        ensures
            n == self.spec_context_size(),
    {
        if self.sample_rate == 8000 {
            32
        } else {
            64
        }
    }

    /// Samples in `ms` milliseconds, rounded down.
    pub open spec fn samples_in(self, ms: u32) -> int {
        ms * self.sample_rate / 1000
    }

    /// Samples in `ms` milliseconds, rounded down.
    pub fn ms_to_samples(&self, ms: u32) -> (n: u64)
        ensures
            n == self.samples_in(ms),
            n <= u64::MAX / 1000,
    {
        proof {
            assert(ms * self.sample_rate <= 0xffff_ffff * 0xffff_ffff) by (nonlinear_arith)
                requires
                    0 <= ms <= 0xffff_ffff,
                    0 <= self.sample_rate <= 0xffff_ffff,
            ;
        }
        (ms as u64 * self.sample_rate as u64) / 1000
    }

    /// The first thing that is wrong with the settings.
    pub open spec fn issue(self) -> Option<ConfigIssue> {
        if self.sample_rate != 8000 && self.sample_rate != 16000 {
            Some(ConfigIssue::SampleRate(self.sample_rate))
        } else if !is_probability(self.threshold) {
            Some(ConfigIssue::Threshold(self.threshold))
        } else {
            match self.neg_threshold {
                Some(t) => if is_probability(t) {
                    None
                } else {
                    Some(ConfigIssue::NegThreshold(t))
                },
                None => None,
            }
        }
    }

    /// Checks the rate, then the threshold, then the silence threshold.
    pub fn validate(&self) -> (r: Result<(), ConfigIssue>)
        ensures
            r == (match self.issue() {
                Some(issue) => Err::<(), ConfigIssue>(issue),
                None => Ok::<(), ConfigIssue>(()),
            }),
    {
        if self.sample_rate != 8000 && self.sample_rate != 16000 {
            return Err(ConfigIssue::SampleRate(self.sample_rate));
        }
        if !within_unit(self.threshold) {
            return Err(ConfigIssue::Threshold(self.threshold));
        }
        if let Some(t) = self.neg_threshold {
            if !within_unit(t) {
                return Err(ConfigIssue::NegThreshold(t));
            }
        }
        Ok(())
    }

    /// The segmenter of these settings at position 0.
    pub open spec fn segmenter(self) -> SegmenterView {
        SegmenterView {
            threshold: self.threshold,
            neg_threshold: self.neg(),
            min_speech: self.samples_in(self.min_speech_ms),
            min_silence: self.samples_in(self.min_silence_ms),
            pad: self.samples_in(self.speech_pad_ms),
            max_speech: self.samples_in(self.max_speech_ms),
            frame: self.spec_frame_size(),
            triggered: false,
            start: 0,
            silence: 0,
            pos: 0,
            prev_end: 0,
        }
    }
}

/// The settings take effect as they are named: each duration as its samples at the rate,
/// rounded down, speech from the threshold on, frames of 256 samples at 8 kHz and of 512
/// otherwise, and nothing heard yet.
pub proof fn lemma_settings_take_effect(config: VadConfig)
    ensures
        ({
            let s = config.segmenter();
            let rate = config.sample_rate as int;
            &&& s.threshold == config.threshold
            &&& config.neg_threshold matches Some(t) ==> s.neg_threshold == t
            &&& s.min_speech * 1000 <= config.min_speech_ms * rate < s.min_speech * 1000 + 1000
            &&& s.min_silence * 1000 <= config.min_silence_ms * rate < s.min_silence * 1000 + 1000
            &&& s.pad * 1000 <= config.speech_pad_ms * rate < s.pad * 1000 + 1000
            &&& s.max_speech * 1000 <= config.max_speech_ms * rate < s.max_speech * 1000 + 1000
            &&& rate == 8_000 ==> s.frame == 256
            &&& rate != 8_000 ==> s.frame == 512
            &&& config.spec_context_size() * 8 == config.spec_frame_size()
            &&& config.spec_frame_size() == s.frame
            &&& !s.triggered && s.pos == 0 && s.prev_end == 0 && s.start == 0 && s.silence == 0
        }),
{
}

/// Settings are valid exactly where the rate is 8000 or 16000 Hz and every threshold lies
/// within 0 and 1, in patterns: at most that of 1, or that of minus 0. The first of these that
/// does not hold is what is wrong.
pub proof fn lemma_valid_settings(config: VadConfig)
    ensures
        ({
            let rate = config.sample_rate == 8_000 || config.sample_rate == 16_000;
            let speech = config.threshold <= 0x3f80_0000 || config.threshold == 0x8000_0000;
            let silence = config.neg_threshold matches Some(t) ==> t <= 0x3f80_0000 || t
                == 0x8000_0000;
            &&& config.issue() is None <==> rate && speech && silence
            &&& config.issue() is Some && !rate ==> config.issue() == Some(
                ConfigIssue::SampleRate(config.sample_rate),
            )
            &&& rate && !speech ==> config.issue() == Some(
                ConfigIssue::Threshold(config.threshold),
            )
            &&& rate && speech && !silence ==> config.issue() == Some(
                ConfigIssue::NegThreshold(config.neg_threshold->0),
            )
        }),
{
}

/// Without a silence threshold of its own, silence is below the one that follows from the speech
/// threshold; a rate of 8 or 16 kHz is checked first, then the thresholds.
pub proof fn lemma_silence_has_a_threshold(config: VadConfig, r: Result<(), ConfigIssue>)
    requires
        call_ensures(VadConfig::validate, (&config,), r),
    ensures
        config.neg_threshold is None ==> config.segmenter().neg_threshold
            == crate::vad::threshold::default_neg_threshold(config.threshold),
        config.neg_threshold is Some ==> config.segmenter().neg_threshold
            == config.neg_threshold->0,
        r is Ok <==> (config.sample_rate == 8_000 || config.sample_rate == 16_000) && (
        config.threshold <= 0x3f80_0000 || config.threshold == 0x8000_0000) && (
        config.neg_threshold matches Some(t) ==> t <= 0x3f80_0000 || t == 0x8000_0000),
{
    lemma_valid_settings(config);
}

/// The presets: every one listens at 16 kHz without a limit, and with a silence threshold that
/// follows from its own; the eager one hears speech from 0.35 on, the default from 0.5 and the
/// cautious one from 0.6.
pub proof fn lemma_what_the_presets_are(
    eager: VadConfig,
    usual: VadConfig,
    balanced: VadConfig,
    cautious: VadConfig,
)
    requires
        call_ensures(VadConfig::aggressive, (), eager),
        call_ensures(<VadConfig as Default>::default, (), usual),
        call_ensures(VadConfig::balanced, (), balanced),
        call_ensures(VadConfig::conservative, (), cautious),
    ensures
        eager.threshold == 0x3eb3_3333 && eager.min_speech_ms == 200 && eager.min_silence_ms == 150
            && eager.speech_pad_ms == 50,
        usual.threshold == 0x3f00_0000 && usual.min_speech_ms == 250 && usual.min_silence_ms == 100
            && usual.speech_pad_ms == 30,
        balanced == usual,
        cautious.threshold == 0x3f19_999a && cautious.min_speech_ms == 300
            && cautious.min_silence_ms == 300 && cautious.speech_pad_ms == 30,
        eager.sample_rate == 16_000 && usual.sample_rate == 16_000 && cautious.sample_rate
            == 16_000,
        eager.max_speech_ms == 0 && usual.max_speech_ms == 0 && cautious.max_speech_ms == 0,
        eager.neg_threshold is None && usual.neg_threshold is None && cautious.neg_threshold
            is None,
{
}

} // verus!

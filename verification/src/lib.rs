//! Audio capture for desktops: microphones, what a system plays, and what single processes
//! play, as one kind of chunk.
//!
//! Inside, sound is interleaved binary32 samples at 48 kHz in stereo. A stream leaves in the
//! rate and channels of its [`OutputFormat`], in chunks of 20 ms whatever the rate. There are
//! no callbacks: capture threads only push, without ever waiting, and the consumer polls.
//!
//! ```text
//! capture callback -> raw_ring -> Normalizer -> chunk_ring -> poll
//! ```
//!
//! A sample is held as the bit pattern of its binary32 number ([`sample::Sample`]), and what is
//! computed on samples here, [`arith`] computes exactly on these patterns. What needs a
//! floating-point unit is left to the caller, who hands the result back: the resampling
//! filters, and the voice detection model.
//!
//! - [`types`], [`clock`], [`raw_ring`], [`chunk_ring`], [`normalizer`], [`filtering`],
//!   [`backend`], [`stream`]: the pipeline, the same on every system.
//! - [`linux`], [`macos`], [`windows`], [`mic`], [`lifecycle`]: what the backends decide; the
//!   system calls are outside.
//! - [`vad`]: voice activity detection around a model.
//! - [`cli`], [`ffi`], [`bindings`]: what the command line, C, Node.js and Python see.
//! - [`sample`], [`rounding`], [`arith`], [`encode`], [`text`]: numbers, bytes and texts.

pub mod arith;
pub mod backend;
pub mod bindings;
pub mod chunk_ring;
pub mod cli;
pub mod clock;
pub mod encode;
pub mod ffi;
pub mod filtering;
pub mod lifecycle;
pub mod linux;
pub mod macos;
pub mod mic;
pub mod normalizer;
pub mod raw_ring;
pub mod rounding;
pub mod sample;
pub mod stream;
pub mod text;
pub mod types;
pub mod vad;
pub mod windows;

pub use backend::{CaptureBackend, RawSink};
pub use chunk_ring::{chunk_ring, ChunkConsumer, ChunkProducer};
pub use clock::{monotonic_now_ns, ClockNormalizer};
pub use normalizer::{Normalizer, CHUNK_FRAMES};
pub use raw_ring::{raw_ring, RawConsumer, RawProducer};
pub use types::{
    AudioChunk, ChunkFlags, DeviceEvent, DeviceInfo, Error, Event, OutputFormat, SourceKind,
    StreamConfig, CHANNELS, SAMPLE_RATE,
};

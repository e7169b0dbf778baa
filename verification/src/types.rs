//! The vocabulary of the pipeline: the internal normal form, chunks and their flags,
//! devices, sources, stream settings, events and errors.
//!
//! The internal normal form is interleaved binary32 samples at 48000 Hz in stereo, cut into
//! chunks of 20 ms (960 frames). What leaves the pipeline has the rate and the channels of
//! an [`OutputFormat`]; its chunks always last 20 ms.

use crate::sample::{Sample, ONE};
use crate::text::{joined, owned, push_decimal};
use vstd::prelude::*;

verus! {

/// Sample rate of the internal normal form, in Hz.
pub const SAMPLE_RATE: u32 = 48_000;

/// Channels of the internal normal form: always stereo.
pub const CHANNELS: u16 = 2;

/// Lowest output rate that is accepted, in Hz.
pub const MIN_RATE: u32 = 4_000;

/// Highest output rate that is accepted, in Hz.
pub const MAX_RATE: u32 = 384_000;

/// State flags of one [`AudioChunk`], as a set of bits of fixed width.
#[derive(Debug, Clone, Copy, PartialEq, Eq, Structural, Hash)]
pub struct ChunkFlags {
    bits: u32,
}

impl ChunkFlags {
    /// The bits of the set.
    pub closed spec fn spec_bits(self) -> u32 {
        self.bits
    }

    /// The stream was interrupted just before this chunk.
    pub fn discontinuity() -> (flags: ChunkFlags)
        ensures
            flags.spec_bits() == 1,
    {
        ChunkFlags { bits: 1 }
    }

    /// First chunk after an automatic recovery.
    pub fn recovered() -> (flags: ChunkFlags)
        ensures
            flags.spec_bits() == 2,
    {
        ChunkFlags { bits: 2 }
    }

    /// Synthesised silence.
    pub fn silence() -> (flags: ChunkFlags)
        ensures
            flags.spec_bits() == 4,
    {
        ChunkFlags { bits: 4 }
    }

    /// No flag.
    pub fn empty() -> (flags: ChunkFlags)
        ensures
            flags.spec_bits() == 0,
    {
        ChunkFlags { bits: 0 }
    }

    /// The bits as a number.
    pub fn bits(&self) -> (bits: u32)
        ensures
            bits == self.spec_bits(),
    {
        self.bits
    }

    /// Whether every flag of `other` is set.
    pub fn contains(&self, other: ChunkFlags) -> (r: bool)
        ensures
            r == (self.spec_bits() & other.spec_bits() == other.spec_bits()),
    {
        self.bits & other.bits == other.bits
    }
}

impl std::ops::BitOr for ChunkFlags {
    type Output = ChunkFlags;

    fn bitor(self, other: ChunkFlags) -> (flags: ChunkFlags) {
        ChunkFlags { bits: self.bits | other.bits }
    }
}

impl vstd::std_specs::ops::BitOrSpecImpl for ChunkFlags {
    open spec fn obeys_bitor_spec() -> bool {
        true
    }

    open spec fn bitor_req(self, rhs: ChunkFlags) -> bool {
        true
    }

    closed spec fn bitor_spec(self, rhs: ChunkFlags) -> ChunkFlags {
        ChunkFlags { bits: self.bits | rhs.bits }
    }
}

impl Default for ChunkFlags {
    fn default() -> (flags: ChunkFlags)
        ensures
            flags.spec_bits() == 0,
    {
        ChunkFlags::empty()
    }
}

/// The union of two sets of flags contains both of them, and nothing that neither holds.
pub proof fn lemma_union_of_flags(a: ChunkFlags, b: ChunkFlags)
    ensures
        ({
            let u: ChunkFlags = vstd::std_specs::ops::BitOrSpec::bitor_spec(a, b);
            &&& u.spec_bits() & a.spec_bits() == a.spec_bits()
            &&& u.spec_bits() & b.spec_bits() == b.spec_bits()
            &&& u.spec_bits() & !(a.spec_bits() | b.spec_bits()) == 0
        }),
{
    let x: u32 = a.bits;
    let y: u32 = b.bits;
    assert((x | y) & x == x && (x | y) & y == y && (x | y) & !(x | y) == 0) by (bit_vector);
}

/// The three flags occupy three different bits.
pub proof fn lemma_flags_are_distinct()
    ensures
        1u32 & 2u32 == 0,
        1u32 & 4u32 == 0,
        2u32 & 4u32 == 0,
        1u32 | 2u32 | 4u32 == 7u32,
{
    assert(1u32 & 2u32 == 0 && 1u32 & 4u32 == 0 && 2u32 & 4u32 == 0 && 1u32 | 2u32 | 4u32 == 7u32)
        by (bit_vector);
}

/// One normalised chunk of 20 ms.
#[derive(Debug, Clone, PartialEq)]
pub struct AudioChunk {
    /// Interleaved samples, `frames` times the output channels.
    pub data: Vec<Sample>,
    /// Frames in the chunk.
    pub frames: usize,
    /// Time of the first frame on the monotonic clock, in ns.
    pub pts_ns: i64,
    /// Sequence number given by the stream.
    pub seq: u64,
    /// State flags.
    pub flags: ChunkFlags,
    /// Chunks dropped so far, counted up to this chunk's entry.
    pub dropped_before: u32,
    /// Largest absolute sample value.
    pub peak: Sample,
    /// Root mean square of the samples.
    pub rms: Sample,
}

/// What kind of source is captured.
#[derive(Debug, Clone, Copy, PartialEq, Eq, Structural, Hash)]
pub enum SourceKind {
    /// A recording device.
    Mic,
    /// Everything that the system plays.
    SystemLoopback,
    /// What one process plays.
    ProcessLoopback,
    /// Microphone and system audio mixed into one stream.
    Mix,
}

/// What [`SourceKind::ProcessLoopback`] does with its target process. Only process sources
/// look at it; system sources look at [`StreamConfig::exclude_self`] instead, and the two
/// are never combined.
#[derive(Debug, Clone, Copy, PartialEq, Eq, Structural)]
pub enum ProcessMode {
    /// Record the target process tree only.
    Include,
    /// Record everything but the target process tree.
    Exclude,
}

impl Default for ProcessMode {
    fn default() -> (mode: ProcessMode)
        ensures
            mode == ProcessMode::Include,
    {
        ProcessMode::Include
    }
}

/// One device as the enumeration reports it.
#[derive(Debug, PartialEq, Eq)]
pub struct DeviceInfo {
    /// Stable key, usable as [`StreamConfig::device_id`].
    pub id: String,
    /// Name to show.
    pub name: String,
    /// How the device is captured.
    pub source_kind: SourceKind,
    /// Native rate in Hz.
    pub sample_rate: u32,
    /// Native channels.
    pub channels: u16,
    /// Whether this is a monitor of something that plays.
    pub is_loopback: bool,
    /// Whether the system uses it by default.
    pub is_default: bool,
}

/// A [`DeviceInfo`] with its texts as sequences.
pub ghost struct DeviceInfoView {
    pub id: Seq<char>,
    pub name: Seq<char>,
    pub source_kind: SourceKind,
    pub sample_rate: u32,
    pub channels: u16,
    pub is_loopback: bool,
    pub is_default: bool,
}

impl View for DeviceInfo {
    type V = DeviceInfoView;

    open spec fn view(&self) -> DeviceInfoView {
        DeviceInfoView {
            id: self.id@,
            name: self.name@,
            source_kind: self.source_kind,
            sample_rate: self.sample_rate,
            channels: self.channels,
            is_loopback: self.is_loopback,
            is_default: self.is_default,
        }
    }
}

impl Clone for DeviceInfo {
    fn clone(&self) -> (copy: DeviceInfo)
        ensures
            copy@ == self@,
    {
        DeviceInfo {
            id: self.id.clone(),
            name: self.name.clone(),
            source_kind: self.source_kind,
            sample_rate: self.sample_rate,
            channels: self.channels,
            is_loopback: self.is_loopback,
            is_default: self.is_default,
        }
    }
}

/// A device came, went, or became the default.
#[derive(Debug, Clone, PartialEq, Eq)]
#[non_exhaustive]
pub enum DeviceEvent {
    /// A device appeared.
    Added(DeviceInfo),
    /// A device disappeared.
    Removed {
        /// Its stable key.
        id: String,
    },
    /// The default device of a kind changed.
    DefaultChanged {
        /// [`SourceKind::Mic`] for the default source, [`SourceKind::SystemLoopback`] for
        /// the default sink.
        kind: SourceKind,
        /// Key of the new default.
        id: String,
    },
}

/// A [`DeviceEvent`] with its texts as sequences.
pub ghost enum DeviceEventView {
    Added(DeviceInfoView),
    Removed { id: Seq<char> },
    DefaultChanged { kind: SourceKind, id: Seq<char> },
}

impl View for DeviceEvent {
    type V = DeviceEventView;

    open spec fn view(&self) -> DeviceEventView {
        match *self {
            DeviceEvent::Added(info) => DeviceEventView::Added(info@),
            DeviceEvent::Removed { id } => DeviceEventView::Removed { id: id@ },
            DeviceEvent::DefaultChanged { kind, id } => DeviceEventView::DefaultChanged {
                kind,
                id: id@,
            },
        }
    }
}

/// Rate and channels of the chunks that leave the pipeline.
#[derive(Debug, Clone, Copy, PartialEq, Eq, Structural)]
pub struct OutputFormat {
    /// Rate in Hz.
    pub sample_rate: u32,
    /// 1 for mono, 2 for stereo.
    pub channels: u16,
}

/// What an [`OutputFormat`] is rejected for.
pub open spec fn bad_channels_text(channels: u16) -> Seq<char> {
    "output channels must be 1 or 2, got "@ + crate::text::decimal(channels as nat)
}

/// What an [`OutputFormat`] is rejected for.
pub open spec fn bad_rate_text(rate: u32) -> Seq<char> {
    "output sample_rate "@ + crate::text::decimal(rate as nat) + " Hz out of supported range "@ + crate::text::decimal(
        MIN_RATE as nat,
    ) + "..="@ + crate::text::decimal(MAX_RATE as nat)
}

impl OutputFormat {
    /// Whether the pipeline can produce this format.
    pub open spec fn supported(self) -> bool {
        (self.channels == 1 || self.channels == 2) && MIN_RATE <= self.sample_rate <= MAX_RATE
    }

    /// What an unsupported format is rejected for: its channels before its rate.
    pub open spec fn rejection(self) -> Seq<char> {
        if self.channels != 1 && self.channels != 2 {
            bad_channels_text(self.channels)
        } else {
            bad_rate_text(self.sample_rate)
        }
    }

    /// Frames of 20 ms at the output rate.
    pub open spec fn spec_chunk_frames(self) -> int {
        self.sample_rate * 20 / 1000
    }

    /// Accepts mono and stereo at 4000 to 384000 Hz. Anything else is
    /// [`Error::UnsupportedFormat`], with the channels checked before the rate.
    pub fn validate(&self) -> (r: Result<(), Error>)
        ensures
            r is Ok <==> self.supported(),
            r matches Err(e) ==> e matches Error::UnsupportedFormat(m) && m@ == self.rejection(),
    {
        if self.channels != 1 && self.channels != 2 {
            let mut text: String = owned("output channels must be 1 or 2, got ");
            push_decimal(&mut text, self.channels as u64);
            return Err(Error::UnsupportedFormat(text));
        }
        if self.sample_rate < MIN_RATE || self.sample_rate > MAX_RATE {
            let mut text: String = owned("output sample_rate ");
            push_decimal(&mut text, self.sample_rate as u64);
            text.append(" Hz out of supported range ");
            push_decimal(&mut text, MIN_RATE as u64);
            text.append("..=");
            push_decimal(&mut text, MAX_RATE as u64);
            return Err(Error::UnsupportedFormat(text));
        }
        Ok(())
    }

    /// Frames of 20 ms at the output rate: 960 at 48 kHz, 320 at 16 kHz, 160 at 8 kHz.
    pub fn chunk_frames(&self) -> (frames: usize)
        requires
            self.sample_rate * 20 <= usize::MAX,
        ensures
            frames == self.spec_chunk_frames(),
    {
        (self.sample_rate as usize * 20) / 1000
    }
}

impl Default for OutputFormat {
    fn default() -> (format: OutputFormat)
        ensures
            format == (OutputFormat { sample_rate: SAMPLE_RATE, channels: CHANNELS }),
            format.supported(),
    {
        OutputFormat { sample_rate: SAMPLE_RATE, channels: CHANNELS }
    }
}

/// A chunk of a supported format lasts 20 ms: its frames are the rate over 50, rounded down,
/// and exactly that wherever 50 divides the rate.
pub proof fn lemma_chunks_last_20_ms(format: OutputFormat)
    requires
        format.supported(),
    ensures
        format.spec_chunk_frames() == format.sample_rate / 50,
        format.sample_rate % 50 == 0 ==> format.spec_chunk_frames() * 50 == format.sample_rate,
        80 <= format.spec_chunk_frames() <= 7_680,
{
}

/// How one stream is opened.
#[derive(Debug, Clone, PartialEq)]
pub struct StreamConfig {
    /// Device to capture; `None` for the default one.
    pub device_id: Option<String>,
    /// Kind of source.
    pub kind: SourceKind,
    /// Chunk length in ms.
    pub chunk_ms: u32,
    /// Chunks that the ring holds before it drops the oldest.
    pub ring_capacity_chunks: usize,
    /// Target of a process source.
    pub target_pid: Option<u32>,
    /// Process sources only: what happens to the target.
    pub mode: ProcessMode,
    /// System sources only: leave out what this process plays.
    pub exclude_self: bool,
    /// Format of the chunks.
    pub output: OutputFormat,
    /// Linear input gain.
    pub gain: Sample,
    /// Mix sources only: microphone to capture.
    pub mix_mic_device_id: Option<String>,
    /// Mix sources only: output device to capture.
    pub mix_system_device_id: Option<String>,
    /// Mix sources only: gain of the microphone.
    pub mix_mic_gain: Sample,
    /// Mix sources only: gain of the system audio.
    pub mix_system_gain: Sample,
}

/// An optional text as an optional sequence.
pub open spec fn text_view(t: Option<String>) -> Option<Seq<char>> {
    match t {
        Some(s) => Some(s@),
        None => None,
    }
}

/// A [`StreamConfig`] with its texts as sequences.
pub ghost struct StreamConfigView {
    pub device_id: Option<Seq<char>>,
    pub kind: SourceKind,
    pub chunk_ms: u32,
    pub ring_capacity_chunks: usize,
    pub target_pid: Option<u32>,
    pub mode: ProcessMode,
    pub exclude_self: bool,
    pub output: OutputFormat,
    pub gain: Sample,
    pub mix_mic_device_id: Option<Seq<char>>,
    pub mix_system_device_id: Option<Seq<char>>,
    pub mix_mic_gain: Sample,
    pub mix_system_gain: Sample,
}

impl View for StreamConfig {
    type V = StreamConfigView;

    open spec fn view(&self) -> StreamConfigView {
        StreamConfigView {
            device_id: text_view(self.device_id),
            kind: self.kind,
            chunk_ms: self.chunk_ms,
            ring_capacity_chunks: self.ring_capacity_chunks,
            target_pid: self.target_pid,
            mode: self.mode,
            exclude_self: self.exclude_self,
            output: self.output,
            gain: self.gain,
            mix_mic_device_id: text_view(self.mix_mic_device_id),
            mix_system_device_id: text_view(self.mix_system_device_id),
            mix_mic_gain: self.mix_mic_gain,
            mix_system_gain: self.mix_system_gain,
        }
    }
}

/// The settings of a stream that nobody changed.
pub open spec fn default_config() -> StreamConfigView {
    StreamConfigView {
        device_id: None,
        kind: SourceKind::Mic,
        chunk_ms: 20,
        ring_capacity_chunks: 50,
        target_pid: None,
        mode: ProcessMode::Include,
        exclude_self: false,
        output: OutputFormat { sample_rate: SAMPLE_RATE, channels: CHANNELS },
        gain: ONE,
        mix_mic_device_id: None,
        mix_system_device_id: None,
        mix_mic_gain: ONE,
        mix_system_gain: ONE,
    }
}

impl Default for StreamConfig {
    fn default() -> (config: StreamConfig)
        ensures
            config@ == default_config(),
    {
        StreamConfig {
            device_id: None,
            kind: SourceKind::Mic,
            chunk_ms: 20,
            ring_capacity_chunks: 50,
            target_pid: None,
            mode: ProcessMode::Include,
            exclude_self: false,
            output: OutputFormat::default(),
            gain: ONE,
            mix_mic_device_id: None,
            mix_system_device_id: None,
            mix_mic_gain: ONE,
            mix_system_gain: ONE,
        }
    }
}

/// What a running stream tells its consumer.
#[derive(Debug, Clone, PartialEq, Eq)]
#[non_exhaustive]
pub enum Event {
    /// The chunk ring was full and chunks were dropped.
    ChunkDropped {
        /// How many.
        count: u64,
    },
    /// No data arrives any more.
    StreamStalled,
    /// Data arrives again.
    StreamRecovered,
    /// A permission is missing.
    PermissionDenied,
    /// The device is gone.
    DeviceLost,
    /// Anything else, with a description.
    Error(String),
}

/// What can go wrong.
#[derive(Debug)]
#[non_exhaustive]
pub enum Error {
    /// An argument is invalid.
    InvalidArg(String),
    /// The operation is impossible in the present state.
    InvalidState(String),
    /// The device does not exist.
    DeviceNotFound,
    /// Permission was denied.
    PermissionDenied,
    /// The running system is too old for the operation.
    UnsupportedOsVersion,
    /// The device went away.
    DeviceLost,
    /// The platform's audio system failed.
    Backend(String),
    /// The output format is not supported.
    UnsupportedFormat(String),
    /// Not supported here.
    Unsupported,
}

impl Error {
    /// The text that describes the error.
    pub open spec fn text(self) -> Seq<char> {
        match self {
            Error::InvalidArg(m) => "invalid argument: "@ + m@,
            Error::InvalidState(m) => "invalid state: "@ + m@,
            Error::DeviceNotFound => "device not found"@,
            Error::PermissionDenied => "permission denied"@,
            Error::UnsupportedOsVersion => "unsupported OS version"@,
            Error::DeviceLost => "device lost"@,
            Error::Backend(m) => "backend error: "@ + m@,
            Error::UnsupportedFormat(m) => "unsupported output format: "@ + m@,
            Error::Unsupported => "unsupported"@,
        }
    }

    /// The text that describes the error.
    pub fn message(&self) -> (text: String)
        ensures
            text@ == self.text(),
    {
        match self {
            Error::InvalidArg(m) => joined("invalid argument: ", m.as_str()),
            Error::InvalidState(m) => joined("invalid state: ", m.as_str()),
            Error::DeviceNotFound => owned("device not found"),
            Error::PermissionDenied => owned("permission denied"),
            Error::UnsupportedOsVersion => owned("unsupported OS version"),
            Error::DeviceLost => owned("device lost"),
            Error::Backend(m) => joined("backend error: ", m.as_str()),
            Error::UnsupportedFormat(m) => joined("unsupported output format: ", m.as_str()),
            Error::Unsupported => owned("unsupported"),
        }
    }
}

/// Mono and stereo from 4000 to 384000 Hz are accepted and nothing else is. A wrong number of
/// channels is reported before a wrong rate, each with the number.
pub proof fn lemma_what_formats_are_accepted(format: OutputFormat, r: Result<(), Error>)
    requires
        call_ensures(OutputFormat::validate, (&format,), r),
    ensures
        r is Ok <==> (format.channels == 1 || format.channels == 2) && 4_000 <= format.sample_rate
            <= 384_000,
        r matches Err(e) ==> e is UnsupportedFormat,
        format.channels == 0 || format.channels > 2 ==> r is Err && (r->Err_0)->UnsupportedFormat_0@
            == "output channels must be 1 or 2, got "@ + crate::text::decimal(
            format.channels as nat,
        ),
        (format.channels == 1 || format.channels == 2) && (format.sample_rate < 4_000
            || format.sample_rate > 384_000) ==> r is Err && (r->Err_0)->UnsupportedFormat_0@
            == "output sample_rate "@ + crate::text::decimal(format.sample_rate as nat)
            + " Hz out of supported range "@ + crate::text::decimal(4_000) + "..="@
            + crate::text::decimal(384_000),
        format.supported() <==> r is Ok,
{
}

/// A chunk holds a fiftieth of a second, at every rate.
pub proof fn lemma_fifty_chunks_make_a_second(format: OutputFormat)
    ensures
        50 * format.spec_chunk_frames() <= format.sample_rate < 50 * format.spec_chunk_frames()
            + 50,
{
}

/// A set of flags contains another one exactly where no bit of that one is missing: so a union
/// contains both, and nothing is contained in a set that shares no bit with it.
pub proof fn lemma_contained_flags(a: ChunkFlags, b: ChunkFlags, r: bool)
    requires
        call_ensures(ChunkFlags::contains, (&a, b), r),
    ensures
        r <==> !a.spec_bits() & b.spec_bits() == 0,
        b.spec_bits() == 0 ==> r,
        a.spec_bits() == b.spec_bits() ==> r,
        a.spec_bits() & b.spec_bits() == 0 && b.spec_bits() != 0 ==> !r,
{
    let x: u32 = a.spec_bits();
    let y: u32 = b.spec_bits();
    assert((x & y == y) == (!x & y == 0)) by (bit_vector);
    assert(y == 0 ==> x & y == y) by (bit_vector);
    assert(x == y ==> x & y == y) by (bit_vector);
}

/// The bits of the flags.
pub proof fn lemma_bits_of_the_flags(
    broken: ChunkFlags,
    recovered: ChunkFlags,
    silent: ChunkFlags,
    none: ChunkFlags,
)
    requires
        call_ensures(ChunkFlags::discontinuity, (), broken),
        call_ensures(ChunkFlags::recovered, (), recovered),
        call_ensures(ChunkFlags::silence, (), silent),
        call_ensures(ChunkFlags::empty, (), none),
    ensures
        broken.spec_bits() == 1,
        recovered.spec_bits() == 2,
        silent.spec_bits() == 4,
        none.spec_bits() == 0,
{
}

/// Settings that nobody changed record the default microphone in stereo at 48000 Hz, unchanged
/// in level, and keep a second of chunks.
pub proof fn lemma_settings_nobody_changed()
    ensures
        ({
            let c = default_config();
            &&& c.kind == SourceKind::Mic && c.device_id is None && c.target_pid is None
            &&& c.mode == ProcessMode::Include && !c.exclude_self
            &&& c.output.sample_rate == 48_000 && c.output.channels == 2
            &&& c.chunk_ms * c.ring_capacity_chunks == 1_000 && c.chunk_ms == 20
            &&& c.gain == 0x3f80_0000 && c.mix_mic_gain == 0x3f80_0000 && c.mix_system_gain
                == 0x3f80_0000
            &&& c.mix_mic_device_id is None && c.mix_system_device_id is None
        }),
{
}

/// Every error says what it is, and what it was given to say behind that.
pub proof fn lemma_errors_say_what_they_are(m: String)
    ensures
        Error::InvalidArg(m).text() == "invalid argument: "@ + m@,
        Error::InvalidState(m).text() == "invalid state: "@ + m@,
        Error::Backend(m).text() == "backend error: "@ + m@,
        Error::UnsupportedFormat(m).text() == "unsupported output format: "@ + m@,
        Error::DeviceNotFound.text() == "device not found"@,
        Error::PermissionDenied.text() == "permission denied"@,
        Error::UnsupportedOsVersion.text() == "unsupported OS version"@,
        Error::DeviceLost.text() == "device lost"@,
        Error::Unsupported.text() == "unsupported"@,
        text_view(Some(m)) == Some(m@),
        text_view(None) is None,
{
}

} // verus!

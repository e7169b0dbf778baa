//! The rules of the C interface: how settings with sentinels become stream settings, how
//! chunks, events and devices look from C, and what is reported of a call. Pointers are
//! outside.

use crate::sample::{equal, Sample, ONE, ZERO};
use crate::text::{holds, joined, owned, text_from_utf8, to_signed};
use crate::types::{
    AudioChunk, DeviceInfo, Error, Event, OutputFormat, ProcessMode, SourceKind, StreamConfig,
    StreamConfigView,
};
use vstd::prelude::*;

verus! {

/// Success.
pub const FLEX_OK: i32 = 0;

/// An argument is invalid.
pub const FLEX_INVALID_ARG: i32 = -1;

/// The operation failed.
pub const FLEX_FAILURE: i32 = -2;

/// A panic was caught.
pub const FLEX_PANIC: i32 = -3;

/// Kind of source.
#[derive(Debug, Clone, Copy, PartialEq, Eq, Structural)]
pub enum FlexSourceKind {
    /// A recording device.
    Mic,
    /// Everything that the system plays.
    System,
    /// What one process plays.
    Process,
    /// Microphone and system audio mixed.
    Mix,
}

/// What happens to the target process.
#[derive(Debug, Clone, Copy, PartialEq, Eq, Structural)]
pub enum FlexProcessMode {
    /// Record it only.
    Include,
    /// Record everything else.
    Exclude,
}

/// Settings as C hands them over: 0 stands for the default, a missing text for none. Texts are
/// the bytes before the terminating zero.
#[derive(Debug)]
pub struct FlexConfig {
    /// Kind of source.
    pub kind: FlexSourceKind,
    /// Device to capture.
    pub device_id: Option<Vec<u8>>,
    /// Target process; 0 for none.
    pub process_id: u32,
    /// What happens to it.
    pub mode: FlexProcessMode,
    /// Leave out what this process plays.
    pub exclude_self: bool,
    /// Output rate; 0 for 48000 Hz.
    pub output_rate: u32,
    /// Output channels; 0 for stereo.
    pub output_channels: u16,
    /// Chunk length; 0 for 20 ms.
    pub chunk_ms: u32,
    /// Input gain; 0 for 1.
    pub gain: Sample,
    /// Microphone of a mix.
    pub mix_mic_device_id: Option<Vec<u8>>,
    /// Output device of a mix.
    pub mix_system_device_id: Option<Vec<u8>>,
    /// Gain of the microphone of a mix; 0 for 1.
    pub mix_mic_gain: Sample,
    /// Gain of the system audio of a mix; 0 for 1.
    pub mix_system_gain: Sample,
}

/// One chunk as C sees it.
#[derive(Debug)]
pub struct FlexChunk {
    /// The samples; nothing once they were freed.
    pub data: Option<Vec<Sample>>,
    /// How many samples.
    pub len: usize,
    /// Frames.
    pub frames: u32,
    /// Time of the first frame.
    pub pts_ns: i64,
    /// Sequence number.
    pub seq: u64,
    /// Flags as bits.
    pub flags: u32,
    /// Chunks dropped so far.
    pub dropped_before: u32,
    /// Largest absolute sample value.
    pub peak: Sample,
    /// Root mean square.
    pub rms: Sample,
}

/// Kind of event.
#[derive(Debug, Clone, Copy, PartialEq, Eq, Structural)]
pub enum FlexEventKind {
    /// Chunks were dropped.
    ChunkDropped,
    /// No data arrives any more.
    Stalled,
    /// Data arrives again.
    Recovered,
    /// A permission is missing.
    PermissionDenied,
    /// The device is gone.
    DeviceLost,
    /// Anything else; the message is the last error.
    Error,
    /// An event of no known kind.
    Unknown,
}

/// One event as C sees it.
#[derive(Debug, Clone, Copy, PartialEq, Eq, Structural)]
pub struct FlexEvent {
    /// Its kind.
    pub kind: FlexEventKind,
    /// How many chunks were dropped; 0 for the other kinds.
    pub count: i64,
}

/// One device as C sees it. Its texts hold no zero character.
#[derive(Debug, PartialEq, Eq)]
pub struct FlexDeviceInfo {
    /// Stable key.
    pub id: String,
    /// Name to show.
    pub name: String,
    /// How the device is captured.
    pub source_kind: FlexSourceKind,
    /// Native rate.
    pub sample_rate: u32,
    /// Native channels.
    pub channels: u16,
    /// Whether this is a monitor.
    pub is_loopback: bool,
    /// Whether the system uses it by default.
    pub is_default: bool,
}

/// The message of the last failure of a thread.
#[derive(Debug)]
pub struct LastError {
    message: Option<String>,
}

impl View for LastError {
    type V = Option<Seq<char>>;

    closed spec fn view(&self) -> Option<Seq<char>> {
        crate::types::text_view(self.message)
    }
}

/// What is recorded of a message: C cannot take a zero character inside a text.
pub open spec fn recorded(message: Seq<char>) -> Seq<char> {
    if message.contains('\0') {
        "error message contained a NUL byte"@
    } else {
        message
    }
}

impl LastError {
    /// No message.
    pub fn new() -> (slot: LastError)
        ensures
            slot@ is None,
    {
        LastError { message: None }
    }

    /// The message, where there is one.
    pub fn get(&self) -> (message: Option<&str>)
        ensures
            match message {
                Some(m) => self@ == Some(m@),
                None => self@ is None,
            },
    {
        match &self.message {
            Some(m) => Some(m.as_str()),
            None => None,
        }
    }
}

/// Records a message.
pub fn set_last_error(slot: &mut LastError, message: String)
    ensures
        final(slot)@ == Some(recorded(message@)),
{
    if holds(message.as_str(), '\0') {
        slot.message = Some(owned("error message contained a NUL byte"));
    } else {
        slot.message = Some(message);
    }
}

/// Forgets the message: every call begins with that.
pub fn clear_last_error(slot: &mut LastError)
    ensures
        final(slot)@ is None,
{
    slot.message = None;
}

/// The kind of source that C means.
pub open spec fn source_kind_of(kind: FlexSourceKind) -> SourceKind {
    match kind {
        FlexSourceKind::Mic => SourceKind::Mic,
        FlexSourceKind::System => SourceKind::SystemLoopback,
        FlexSourceKind::Process => SourceKind::ProcessLoopback,
        FlexSourceKind::Mix => SourceKind::Mix,
    }
}

/// The kind of source that C means.
pub fn source_kind_from_c(kind: FlexSourceKind) -> (r: SourceKind)
    ensures
        r == source_kind_of(kind),
{
    match kind {
        FlexSourceKind::Mic => SourceKind::Mic,
        FlexSourceKind::System => SourceKind::SystemLoopback,
        FlexSourceKind::Process => SourceKind::ProcessLoopback,
        FlexSourceKind::Mix => SourceKind::Mix,
    }
}

/// A kind of source for C.
pub open spec fn c_kind_of(kind: SourceKind) -> FlexSourceKind {
    match kind {
        SourceKind::Mic => FlexSourceKind::Mic,
        SourceKind::SystemLoopback => FlexSourceKind::System,
        SourceKind::ProcessLoopback => FlexSourceKind::Process,
        SourceKind::Mix => FlexSourceKind::Mix,
    }
}

/// A kind of source for C.
pub fn source_kind_to_c(kind: SourceKind) -> (r: FlexSourceKind)
    ensures
        r == c_kind_of(kind),
{
    match kind {
        SourceKind::Mic => FlexSourceKind::Mic,
        SourceKind::SystemLoopback => FlexSourceKind::System,
        SourceKind::ProcessLoopback => FlexSourceKind::Process,
        SourceKind::Mix => FlexSourceKind::Mix,
    }
}

/// The two conversions of kinds undo each other.
pub proof fn lemma_kinds_go_round(c: FlexSourceKind, kind: SourceKind)
    ensures
        c_kind_of(source_kind_of(c)) == c,
        source_kind_of(c_kind_of(kind)) == kind,
{
}

/// The mode that C means.
pub open spec fn mode_of(mode: FlexProcessMode) -> ProcessMode {
    match mode {
        FlexProcessMode::Include => ProcessMode::Include,
        FlexProcessMode::Exclude => ProcessMode::Exclude,
    }
}

/// The mode that C means.
pub fn process_mode_from_c(mode: FlexProcessMode) -> (r: ProcessMode)
    ensures
        r == mode_of(mode),
{
    match mode {
        FlexProcessMode::Include => ProcessMode::Include,
        FlexProcessMode::Exclude => ProcessMode::Exclude,
    }
}

/// Whether a text of C can be read: there is none, or it is valid UTF-8.
pub open spec fn is_text(bytes: Option<Vec<u8>>) -> bool {
    bytes matches Some(b) ==> vstd::utf8::valid_utf8(b@)
}

/// What a text of C says.
pub open spec fn text_of(bytes: Option<Vec<u8>>) -> Option<Seq<char>> {
    match bytes {
        Some(b) => Some(vstd::utf8::decode_utf8(b@)),
        None => None,
    }
}

/// What is recorded of a text that cannot be read.
pub open spec fn bad_text(field: Seq<char>) -> Seq<char> {
    recorded(field + " is not valid UTF-8"@)
}

/// Reads a text of C.
pub fn opt_string_from_c(bytes: &Option<Vec<u8>>, field: &str, slot: &mut LastError) -> (r: Result<
    Option<String>,
    (),
>)
    ensures
        r is Ok <==> is_text(*bytes),
        match r {
            Ok(text) => crate::types::text_view(text) == text_of(*bytes) && final(slot)@
                == old(slot)@,
            Err(_) => final(slot)@ == Some(bad_text(field@)),
        },
{
    match bytes {
        None => Ok(None),
        Some(b) => {
            let copy: Vec<u8> = b.clone();
            assert(copy@ =~= b@);
            match text_from_utf8(copy) {
                Some(s) => Ok(Some(s)),
                None => {
                    set_last_error(slot, joined(field, " is not valid UTF-8"));
                    Err(())
                },
            }
        },
    }
}

/// A gain with its sentinel resolved: both zeros stand for 1.
pub open spec fn gain_of(gain: Sample) -> Sample {
    if crate::sample::eq_value(gain, ZERO) {
        ONE
    } else {
        gain
    }
}

/// A gain with its sentinel resolved.
pub fn gain_or_default(gain: Sample) -> (r: Sample)
    ensures
        r == gain_of(gain),
{
    if equal(gain, ZERO) {
        ONE
    } else {
        gain
    }
}

impl FlexConfig {
    /// Whether all texts can be read.
    pub open spec fn readable(self) -> bool {
        is_text(self.device_id) && is_text(self.mix_mic_device_id) && is_text(
            self.mix_system_device_id,
        )
    }

    /// The field that is complained about: the first text that cannot be read.
    pub open spec fn bad_field(self) -> Seq<char> {
        if !is_text(self.device_id) {
            "device_id"@
        } else if !is_text(self.mix_mic_device_id) {
            "mix_mic_device_id"@
        } else {
            "mix_system_device_id"@
        }
    }

    /// The stream settings that are meant. The capacity of the ring is not for C to choose.
    pub open spec fn meant(self) -> StreamConfigView {
        StreamConfigView {
            device_id: text_of(self.device_id),
            kind: source_kind_of(self.kind),
            chunk_ms: if self.chunk_ms == 0 {
                20
            } else {
                self.chunk_ms
            },
            ring_capacity_chunks: crate::types::default_config().ring_capacity_chunks,
            target_pid: if self.process_id == 0 {
                None
            } else {
                Some(self.process_id)
            },
            mode: mode_of(self.mode),
            exclude_self: self.exclude_self,
            output: OutputFormat {
                sample_rate: if self.output_rate == 0 {
                    48_000
                } else {
                    self.output_rate
                },
                channels: if self.output_channels == 0 {
                    2
                } else {
                    self.output_channels
                },
            },
            gain: gain_of(self.gain),
            mix_mic_device_id: text_of(self.mix_mic_device_id),
            mix_system_device_id: text_of(self.mix_system_device_id),
            mix_mic_gain: gain_of(self.mix_mic_gain),
            mix_system_gain: gain_of(self.mix_system_gain),
        }
    }
}

/// The stream settings that are meant. A text that cannot be read is recorded.
pub fn build_config(config: &FlexConfig, slot: &mut LastError) -> (r: Result<StreamConfig, ()>)
    ensures
        r is Ok <==> config.readable(),
        match r {
            Ok(c) => c@ == config.meant() && final(slot)@ == old(slot)@,
            Err(_) => final(slot)@ == Some(bad_text(config.bad_field())),
        },
{
    let device_id: Option<String> = match opt_string_from_c(&config.device_id, "device_id", slot) {
        Ok(t) => t,
        Err(_) => return Err(()),
    };
    let mix_mic_device_id: Option<String> = match opt_string_from_c(
        &config.mix_mic_device_id,
        "mix_mic_device_id",
        slot,
    ) {
        Ok(t) => t,
        Err(_) => return Err(()),
    };
    let mix_system_device_id: Option<String> = match opt_string_from_c(
        &config.mix_system_device_id,
        "mix_system_device_id",
        slot,
    ) {
        Ok(t) => t,
        Err(_) => return Err(()),
    };
    let defaults: StreamConfig = StreamConfig::default();
    Ok(
        StreamConfig {
            device_id,
            kind: source_kind_from_c(config.kind),
            chunk_ms: if config.chunk_ms == 0 {
                20
            } else {
                config.chunk_ms
            },
            ring_capacity_chunks: defaults.ring_capacity_chunks,
            target_pid: if config.process_id == 0 {
                None
            } else {
                Some(config.process_id)
            },
            mode: process_mode_from_c(config.mode),
            exclude_self: config.exclude_self,
            output: OutputFormat {
                sample_rate: if config.output_rate == 0 {
                    48_000
                } else {
                    config.output_rate
                },
                channels: if config.output_channels == 0 {
                    2
                } else {
                    config.output_channels
                },
            },
            gain: gain_or_default(config.gain),
            mix_mic_device_id,
            mix_system_device_id,
            mix_mic_gain: gain_or_default(config.mix_mic_gain),
            mix_system_gain: gain_or_default(config.mix_system_gain),
        },
    )
}

/// With every sentinel in place the meant settings are the default ones.
pub proof fn lemma_sentinels_mean_defaults(config: FlexConfig)
    requires
        config.kind == FlexSourceKind::Mic,
        config.device_id is None,
        config.process_id == 0,
        config.mode == FlexProcessMode::Include,
        !config.exclude_self,
        config.output_rate == 0,
        config.output_channels == 0,
        config.chunk_ms == 0,
        config.gain == ZERO,
        config.mix_mic_device_id is None,
        config.mix_system_device_id is None,
        config.mix_mic_gain == ZERO,
        config.mix_system_gain == ZERO,
    ensures
        config.readable(),
        config.meant() == crate::types::default_config(),
{
}

/// A chunk for C. A number of frames that needs more than 32 bits is cut to them.
pub fn chunk_to_c(chunk: AudioChunk) -> (c: FlexChunk)
    ensures
        c.data matches Some(d) && d@ == chunk.data@,
        c.len == chunk.data@.len(),
        c.frames == chunk.frames as int % 0x1_0000_0000,
        c.pts_ns == chunk.pts_ns,
        c.seq == chunk.seq,
        c.flags == chunk.flags.spec_bits(),
        c.dropped_before == chunk.dropped_before,
        c.peak == chunk.peak,
        c.rms == chunk.rms,
{
    let len: usize = chunk.data.len();
    FlexChunk {
        len,
        frames: (chunk.frames as u64 % 0x1_0000_0000) as u32,
        pts_ns: chunk.pts_ns,
        seq: chunk.seq,
        flags: chunk.flags.bits(),
        dropped_before: chunk.dropped_before,
        peak: chunk.peak,
        rms: chunk.rms,
        data: Some(chunk.data),
    }
}

/// Frees the samples of a chunk. Freeing them again does nothing.
pub fn free_chunk_data(chunk: &mut FlexChunk)
    ensures
        final(chunk).data is None,
        old(chunk).data is Some ==> final(chunk).len == 0,
        old(chunk).data is None ==> *final(chunk) == *old(chunk),
        final(chunk).frames == old(chunk).frames,
        final(chunk).pts_ns == old(chunk).pts_ns,
        final(chunk).seq == old(chunk).seq,
        final(chunk).flags == old(chunk).flags,
        final(chunk).dropped_before == old(chunk).dropped_before,
        final(chunk).peak == old(chunk).peak,
        final(chunk).rms == old(chunk).rms,
{
    if chunk.data.is_some() {
        chunk.data = None;
        chunk.len = 0;
    }
}

/// An event for C.
pub open spec fn c_event_of(event: Event) -> FlexEvent {
    match event {
        Event::ChunkDropped { count } => FlexEvent {
            kind: FlexEventKind::ChunkDropped,
            count: crate::text::signed_count(count) as i64,
        },
        Event::StreamStalled => FlexEvent { kind: FlexEventKind::Stalled, count: 0 },
        Event::StreamRecovered => FlexEvent { kind: FlexEventKind::Recovered, count: 0 },
        Event::PermissionDenied => FlexEvent { kind: FlexEventKind::PermissionDenied, count: 0 },
        Event::DeviceLost => FlexEvent { kind: FlexEventKind::DeviceLost, count: 0 },
        Event::Error(_) => FlexEvent { kind: FlexEventKind::Error, count: 0 },
    }
}

/// An event for C. The message of an error becomes the last error.
pub fn event_to_c(event: Event, slot: &mut LastError) -> (c: FlexEvent)
    ensures
        c == c_event_of(event),
        final(slot)@ == (match event {
            Event::Error(m) => Some(recorded(m@)),
            _ => old(slot)@,
        }),
{
    match event {
        Event::ChunkDropped { count } => FlexEvent {
            kind: FlexEventKind::ChunkDropped,
            count: to_signed(count),
        },
        Event::StreamStalled => FlexEvent { kind: FlexEventKind::Stalled, count: 0 },
        Event::StreamRecovered => FlexEvent { kind: FlexEventKind::Recovered, count: 0 },
        Event::PermissionDenied => FlexEvent { kind: FlexEventKind::PermissionDenied, count: 0 },
        Event::DeviceLost => FlexEvent { kind: FlexEventKind::DeviceLost, count: 0 },
        Event::Error(message) => {
            set_last_error(slot, message);
            FlexEvent { kind: FlexEventKind::Error, count: 0 }
        },
    }
}

/// A text that C can take: one with a zero character inside becomes empty.
pub open spec fn c_text(s: Seq<char>) -> Seq<char> {
    if s.contains('\0') {
        seq![]
    } else {
        s
    }
}

/// A text that C can take.
pub fn string_to_c(s: String) -> (r: String)
    ensures
        r@ == c_text(s@),
        !r@.contains('\0'),
{
    if holds(s.as_str(), '\0') {
        let empty: String = String::new();
        assert(empty@ =~= seq![]);
        empty
    } else {
        s
    }
}

/// A device for C.
pub fn device_info_to_c(info: DeviceInfo) -> (c: FlexDeviceInfo)
    ensures
        c.id@ == c_text(info.id@),
        c.name@ == c_text(info.name@),
        c.source_kind == c_kind_of(info.source_kind),
        c.sample_rate == info.sample_rate,
        c.channels == info.channels,
        c.is_loopback == info.is_loopback,
        c.is_default == info.is_default,
{
    FlexDeviceInfo {
        id: string_to_c(info.id),
        name: string_to_c(info.name),
        source_kind: source_kind_to_c(info.source_kind),
        sample_rate: info.sample_rate,
        channels: info.channels,
        is_loopback: info.is_loopback,
        is_default: info.is_default,
    }
}

/// Reports an operation that failed.
pub fn fail(error: Error, slot: &mut LastError) -> (code: i32)
    ensures
        code == FLEX_FAILURE,
        final(slot)@ == Some(recorded(error.text())),
{
    set_last_error(slot, error.message());
    FLEX_FAILURE
}

/// Reports what came of an operation.
pub fn finish(outcome: Result<(), Error>, slot: &mut LastError) -> (code: i32)
    ensures
        match outcome {
            Ok(_) => code == FLEX_OK && final(slot)@ == old(slot)@,
            Err(e) => code == FLEX_FAILURE && final(slot)@ == Some(recorded(e.text())),
        },
{
    match outcome {
        Ok(_) => FLEX_OK,
        Err(e) => fail(e, slot),
    }
}

/// Reports what came of setting a gain: only its value can be wrong.
pub fn finish_gain(outcome: Result<(), Error>, slot: &mut LastError) -> (code: i32)
    ensures
        match outcome {
            Ok(_) => code == FLEX_OK && final(slot)@ == old(slot)@,
            Err(e) => code == FLEX_INVALID_ARG && final(slot)@ == Some(recorded(e.text())),
        },
{
    match outcome {
        Ok(_) => FLEX_OK,
        Err(e) => {
            set_last_error(slot, e.message());
            FLEX_INVALID_ARG
        },
    }
}

/// Reports a pointer that must not be null: `what` of the function `function`.
pub fn null_pointer(function: &str, what: &str, slot: &mut LastError) -> (code: i32)
    ensures
        code == FLEX_INVALID_ARG,
        final(slot)@ == Some(recorded(function@ + ": "@ + what@ + " pointer is null"@)),
{
    let mut text: String = joined(function, ": ");
    text.append(what);
    text.append(" pointer is null");
    set_last_error(slot, text);
    FLEX_INVALID_ARG
}

/// Reports a panic that was caught before it reached C.
pub fn caught_panic(slot: &mut LastError) -> (code: i32)
    ensures
        code == FLEX_PANIC,
        final(slot)@ == Some(recorded("panic caught at FFI boundary"@)),
{
    set_last_error(slot, owned("panic caught at FFI boundary"));
    FLEX_PANIC
}

/// What a poll returns: 1 where something was there.
pub fn poll_code(found: bool) -> (code: i32)
    ensures
        code == (if found {
            1i32
        } else {
            0i32
        }),
{
    if found {
        1
    } else {
        0
    }
}

/// Nothing that is recorded holds a zero character, so that C sees all of it.
pub proof fn lemma_recorded_texts_reach_c(message: Seq<char>)
    ensures
        !recorded(message).contains('\0'),
        c_text(recorded(message)) == recorded(message),
{
    reveal_strlit("error message contained a NUL byte");
}

/// Every kind and every mode of C means the one of the same name.
pub proof fn lemma_names_mean_the_same()
    ensures
        source_kind_of(FlexSourceKind::Mic) == SourceKind::Mic,
        source_kind_of(FlexSourceKind::System) == SourceKind::SystemLoopback,
        source_kind_of(FlexSourceKind::Process) == SourceKind::ProcessLoopback,
        source_kind_of(FlexSourceKind::Mix) == SourceKind::Mix,
        mode_of(FlexProcessMode::Include) == ProcessMode::Include,
        mode_of(FlexProcessMode::Exclude) == ProcessMode::Exclude,
{
}

/// What C sets is meant as it is set, each field for itself: only 0 and a missing text stand for
/// something else, which is the default.
pub proof fn lemma_what_c_sets_is_meant(config: FlexConfig)
    ensures
        ({
            let m = config.meant();
            &&& config.chunk_ms != 0 ==> m.chunk_ms == config.chunk_ms
            &&& config.chunk_ms == 0 ==> m.chunk_ms == 20
            &&& config.process_id != 0 ==> m.target_pid == Some(config.process_id)
            &&& config.process_id == 0 ==> m.target_pid is None
            &&& config.output_rate != 0 ==> m.output.sample_rate == config.output_rate
            &&& config.output_rate == 0 ==> m.output.sample_rate == 48_000
            &&& config.output_channels != 0 ==> m.output.channels == config.output_channels
            &&& config.output_channels == 0 ==> m.output.channels == 2
            &&& m.exclude_self == config.exclude_self
            &&& m.ring_capacity_chunks == 50
            &&& config.kind == FlexSourceKind::Mic <==> m.kind == SourceKind::Mic
            &&& config.kind == FlexSourceKind::System <==> m.kind == SourceKind::SystemLoopback
            &&& config.kind == FlexSourceKind::Process <==> m.kind == SourceKind::ProcessLoopback
            &&& config.mode == FlexProcessMode::Exclude <==> m.mode == ProcessMode::Exclude
            &&& config.device_id matches Some(b) ==> m.device_id == Some(
                vstd::utf8::decode_utf8(b@),
            )
            &&& config.mix_mic_device_id matches Some(b) ==> m.mix_mic_device_id == Some(
                vstd::utf8::decode_utf8(b@),
            )
            &&& config.mix_system_device_id matches Some(b) ==> m.mix_system_device_id == Some(
                vstd::utf8::decode_utf8(b@),
            )
            &&& config.device_id is None ==> m.device_id is None
            &&& config.mix_mic_device_id is None ==> m.mix_mic_device_id is None
            &&& config.mix_system_device_id is None ==> m.mix_system_device_id is None
            &&& config.gain != 0 && config.gain != 0x8000_0000 ==> m.gain == config.gain
            &&& config.gain == 0 || config.gain == 0x8000_0000 ==> m.gain == 0x3f80_0000
            &&& config.mix_mic_gain != 0 && config.mix_mic_gain != 0x8000_0000 ==> m.mix_mic_gain
                == config.mix_mic_gain
            &&& config.mix_mic_gain == 0 ==> m.mix_mic_gain == 0x3f80_0000
            &&& config.mix_system_gain != 0 && config.mix_system_gain != 0x8000_0000
                ==> m.mix_system_gain == config.mix_system_gain
            &&& config.mix_system_gain == 0 ==> m.mix_system_gain == 0x3f80_0000
        }),
{
}

/// Settings are refused exactly where a text is not valid UTF-8, and the first such text is the
/// one that is complained about.
pub proof fn lemma_bad_texts_are_complained_about(
    config: &FlexConfig,
    slot: &mut LastError,
    r: Result<StreamConfig, ()>,
)
    requires
        call_ensures(build_config, (config, slot), r),
    ensures
        ({
            let a = config.device_id matches Some(b) ==> vstd::utf8::valid_utf8(b@);
            let b = config.mix_mic_device_id matches Some(b) ==> vstd::utf8::valid_utf8(b@);
            let c = config.mix_system_device_id matches Some(b) ==> vstd::utf8::valid_utf8(b@);
            &&& r is Ok <==> a && b && c
            &&& !a ==> final(slot)@ == Some("device_id"@ + " is not valid UTF-8"@)
            &&& a && !b ==> final(slot)@ == Some("mix_mic_device_id"@ + " is not valid UTF-8"@)
            &&& a && b && !c ==> final(slot)@ == Some(
                "mix_system_device_id"@ + " is not valid UTF-8"@,
            )
            &&& r is Ok ==> final(slot)@ == old(slot)@
        }),
{
    reveal_strlit("device_id");
    reveal_strlit("mix_mic_device_id");
    reveal_strlit("mix_system_device_id");
    reveal_strlit(" is not valid UTF-8");
    assert(!("device_id"@ + " is not valid UTF-8"@).contains('\0'));
    assert(!("mix_mic_device_id"@ + " is not valid UTF-8"@).contains('\0'));
    assert(!("mix_system_device_id"@ + " is not valid UTF-8"@).contains('\0'));
}

/// A message without a zero character is recorded as it is, and a text without one reaches C as
/// it is; a text with one becomes empty, and of a message with one that is said.
pub proof fn lemma_messages_are_recorded(message: Seq<char>)
    ensures
        !message.contains('\0') ==> recorded(message) == message && c_text(message) == message,
        message.contains('\0') ==> recorded(message) == "error message contained a NUL byte"@
            && c_text(message).len() == 0,
{
}

/// Every event reaches C as the kind of the same name; only dropped chunks are counted, and only
/// an error leaves a message.
pub proof fn lemma_events_reach_c(event: Event, slot: &mut LastError, c: FlexEvent)
    requires
        call_ensures(event_to_c, (event, slot), c),
    ensures
        c.kind == FlexEventKind::ChunkDropped <==> event is ChunkDropped,
        c.kind == FlexEventKind::Stalled <==> event is StreamStalled,
        c.kind == FlexEventKind::Recovered <==> event is StreamRecovered,
        c.kind == FlexEventKind::PermissionDenied <==> event is PermissionDenied,
        c.kind == FlexEventKind::DeviceLost <==> event is DeviceLost,
        c.kind == FlexEventKind::Error <==> event is Error,
        event matches Event::ChunkDropped { count } ==> count <= i64::MAX ==> c.count == count,
        event !is ChunkDropped ==> c.count == 0,
        event matches Event::Error(m) ==> !m@.contains('\0') ==> final(slot)@ == Some(m@),
        event !is Error ==> final(slot)@ == old(slot)@,
{
}

/// Success is 0 and leaves the last message alone; a failure is -2, a wrong gain -1, and both
/// leave the text of the error. Whatever is found by a poll is 1, and nothing is 0.
pub proof fn lemma_codes_tell_what_came_of_it(
    outcome: Result<(), Error>,
    slot: &mut LastError,
    gain_slot: &mut LastError,
    code: i32,
    gain_code: i32,
    found: bool,
    polled: i32,
)
    requires
        call_ensures(finish, (outcome, slot), code),
        call_ensures(finish_gain, (outcome, gain_slot), gain_code),
        call_ensures(poll_code, (found,), polled),
    ensures
        outcome is Ok ==> code == 0 && gain_code == 0 && final(slot)@ == old(slot)@ && final(
            gain_slot)@ == old(gain_slot)@,
        outcome matches Err(e) ==> code == -2 && gain_code == -1 && (!e.text().contains('\0')
            ==> final(slot)@ == Some(e.text()) && final(gain_slot)@ == Some(e.text())),
        polled == 1 <==> found,
        polled == 0 <==> !found,
{
}

/// A null pointer is a wrong argument, and a panic has a code of its own.
pub proof fn lemma_faults_have_codes(
    function: &str,
    what: &str,
    slot: &mut LastError,
    code: i32,
    panic_slot: &mut LastError,
    panic_code: i32,
)
    requires
        call_ensures(null_pointer, (function, what, slot), code),
        call_ensures(caught_panic, (panic_slot,), panic_code),
    ensures
        code == -1,
        panic_code == -3,
        final(slot)@ is Some,
        !(function@ + ": "@ + what@ + " pointer is null"@).contains('\0') ==> final(slot)@ == Some(
            function@ + ": "@ + what@ + " pointer is null"@,
        ),
        final(panic_slot)@ == Some("panic caught at FFI boundary"@),
{
    reveal_strlit("panic caught at FFI boundary");
    assert(!"panic caught at FFI boundary"@.contains('\0'));
}

/// A chunk reaches C with everything that it has, and its samples are freed once.
pub proof fn lemma_chunks_reach_c(chunk: AudioChunk, c: FlexChunk, freed: &mut FlexChunk)
    requires
        call_ensures(chunk_to_c, (chunk,), c),
        call_ensures(free_chunk_data, (freed,), ()),
    ensures
        c.data is Some && (c.data->0)@ == chunk.data@ && c.len == chunk.data@.len(),
        chunk.frames <= u32::MAX ==> c.frames == chunk.frames,
        c.pts_ns == chunk.pts_ns && c.seq == chunk.seq && c.flags == chunk.flags.spec_bits(),
        c.dropped_before == chunk.dropped_before && c.peak == chunk.peak && c.rms == chunk.rms,
        final(freed).data is None,
        old(freed).data is Some ==> final(freed).len == 0,
        final(freed).seq == old(freed).seq,
{
}

/// A device reaches C with everything that it has; a text that C cannot take is empty.
pub proof fn lemma_devices_reach_c(info: DeviceInfo, c: FlexDeviceInfo)
    requires
        call_ensures(device_info_to_c, (info,), c),
    ensures
        !info.id@.contains('\0') ==> c.id@ == info.id@,
        info.id@.contains('\0') ==> c.id@.len() == 0,
        !info.name@.contains('\0') ==> c.name@ == info.name@,
        info.source_kind == SourceKind::Mic <==> c.source_kind == FlexSourceKind::Mic,
        info.source_kind == SourceKind::SystemLoopback <==> c.source_kind
            == FlexSourceKind::System,
        c.sample_rate == info.sample_rate && c.channels == info.channels,
        c.is_loopback == info.is_loopback && c.is_default == info.is_default,
{
}

} // verus!

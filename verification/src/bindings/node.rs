//! The rules of the Node.js binding: how option objects become stream settings, how chunks,
//! events and devices look from JavaScript, and what a stream's bridge thread does from turn to
//! turn.

use crate::bindings::{kind_named, mode_named, source_kind_str};
use crate::sample::{below, finite, Sample, ONE, ZERO};
use crate::text::{joined, owned, quote, to_signed};
use crate::types::{
    AudioChunk, DeviceEvent, DeviceInfo, Error, Event, OutputFormat, ProcessMode, SourceKind,
    StreamConfig, StreamConfigView,
};
use vstd::prelude::*;

verus! {

/// How an exception is classed.
#[derive(Debug, Clone, Copy, PartialEq, Eq, Structural)]
pub enum Status {
    /// An argument is invalid.
    InvalidArg,
    /// Anything else.
    GenericFailure,
}

/// An exception.
#[derive(Debug, PartialEq, Eq)]
pub struct NapiError {
    /// How it is classed.
    pub status: Status,
    /// Its message.
    pub reason: String,
}

/// One device as JavaScript sees it.
#[derive(Debug, PartialEq, Eq)]
pub struct JsDeviceInfo {
    /// Stable key.
    pub id: String,
    /// Name to show.
    pub name: String,
    /// How the device is captured, as a word.
    pub source_kind: String,
    /// Native rate.
    pub sample_rate: u32,
    /// Native channels.
    pub channels: u16,
    /// Whether this is a monitor.
    pub is_loopback: bool,
    /// Whether the system uses it by default.
    pub is_default: bool,
}

/// One chunk as JavaScript sees it.
#[derive(Debug, PartialEq, Eq)]
pub struct JsAudioChunk {
    /// Interleaved samples.
    pub data: Vec<Sample>,
    /// Frames.
    pub frames: u32,
    /// Time of the first frame.
    pub pts_ns: i64,
    /// Sequence number, in full.
    pub seq: u64,
    /// Flags as bits.
    pub flags: u32,
    /// Chunks dropped so far.
    pub dropped_before: u32,
    /// Largest absolute sample value.
    pub peak: Sample,
    /// Root mean square.
    pub rms: Sample,
}

/// One event as JavaScript sees it.
#[derive(Debug, PartialEq, Eq)]
pub struct JsStreamEvent {
    /// Its kind, as a word.
    pub kind: String,
    /// How many chunks were dropped.
    pub count: Option<i64>,
    /// The message of an error.
    pub message: Option<String>,
}

/// One device event as JavaScript sees it.
#[derive(Debug, PartialEq, Eq)]
pub struct JsDeviceEvent {
    /// Its kind, as a word.
    pub kind: String,
    /// The device that appeared.
    pub device: Option<JsDeviceInfo>,
    /// Key of the device that disappeared or became the default.
    pub id: Option<String>,
    /// Of which kind it became the default.
    pub source_kind: Option<String>,
}

/// Options for opening a stream; what is missing is the default.
#[derive(Debug)]
pub struct OpenOptions {
    /// Kind of source, as a word.
    pub kind: String,
    /// Device to capture.
    pub device_id: Option<String>,
    /// Target process.
    pub process_id: Option<u32>,
    /// What happens to it, as a word.
    pub mode: Option<String>,
    /// Leave out what this process plays.
    pub exclude_self: Option<bool>,
    /// Output rate.
    pub output_rate: Option<u32>,
    /// Output channels.
    pub output_channels: Option<u16>,
    /// Chunk length.
    pub chunk_ms: Option<u32>,
    /// Input gain.
    pub gain: Option<Sample>,
    /// Microphone of a mix.
    pub mic_device_id: Option<String>,
    /// Output device of a mix.
    pub system_device_id: Option<String>,
    /// Gain of the microphone of a mix.
    pub mic_gain: Option<Sample>,
    /// Gain of the system audio of a mix.
    pub system_gain: Option<Sample>,
}

/// The exception of an error.
pub fn to_napi_err(error: Error) -> (e: NapiError)
    ensures
        e.status == Status::GenericFailure,
        e.reason@ == error.text(),
{
    NapiError { status: Status::GenericFailure, reason: error.message() }
}

/// What is said of a word that stands for no kind of source.
pub open spec fn unknown_kind_text(word: Seq<char>) -> Seq<char> {
    "unknown kind: "@ + crate::text::quoted(word) + " (expected mic|system|process|mix)"@
}

/// What is said of a word that stands for no process mode.
pub open spec fn unknown_mode_text(word: Seq<char>) -> Seq<char> {
    "unknown mode: "@ + crate::text::quoted(word) + " (expected include|exclude)"@
}

/// Reads a kind of source.
pub fn parse_source_kind(word: &str) -> (r: Result<SourceKind, NapiError>)
    ensures
        match r {
            Ok(k) => crate::bindings::kind_of_word(word@) == Some(k),
            Err(e) => crate::bindings::kind_of_word(word@) is None && e.status
                == Status::InvalidArg && e.reason@ == unknown_kind_text(word@),
        },
{
    match kind_named(word) {
        Some(kind) => Ok(kind),
        None => {
            let quoted: String = quote(word);
            let mut reason: String = joined("unknown kind: ", quoted.as_str());
            reason.append(" (expected mic|system|process|mix)");
            Err(NapiError { status: Status::InvalidArg, reason })
        },
    }
}

/// Whether an optional word stands for a mode; a missing one does.
pub open spec fn mode_of(word: Option<Seq<char>>) -> Option<ProcessMode> {
    match word {
        None => Some(ProcessMode::Include),
        Some(w) => crate::bindings::mode_of_word(w),
    }
}

/// Reads a process mode; without one it is to include.
pub fn parse_process_mode(word: Option<&str>) -> (r: Result<ProcessMode, NapiError>)
    ensures
        ({
            let w: Option<Seq<char>> = match word {
                Some(s) => Some(s@),
                None => None,
            };
            match r {
                Ok(m) => mode_of(w) == Some(m),
                Err(e) => w is Some && mode_of(w) is None && e.status == Status::InvalidArg
                    && e.reason@ == unknown_mode_text(w->0),
            }
        }),
{
    match word {
        None => Ok(ProcessMode::Include),
        Some(word) => match mode_named(word) {
            Some(mode) => Ok(mode),
            None => {
                let quoted: String = quote(word);
                let mut reason: String = joined("unknown mode: ", quoted.as_str());
                reason.append(" (expected include|exclude)");
                Err(NapiError { status: Status::InvalidArg, reason })
            },
        },
    }
}

/// A device for JavaScript.
pub open spec fn is_js_device(js: JsDeviceInfo, info: DeviceInfo) -> bool {
    &&& js.id@ == info.id@
    &&& js.name@ == info.name@
    &&& js.source_kind@ == crate::bindings::kind_word(info.source_kind)
    &&& js.sample_rate == info.sample_rate
    &&& js.channels == info.channels
    &&& js.is_loopback == info.is_loopback
    &&& js.is_default == info.is_default
}

/// A device for JavaScript.
pub fn device_info_to_js(info: DeviceInfo) -> (js: JsDeviceInfo)
    ensures
        is_js_device(js, info),
{
    JsDeviceInfo {
        id: info.id,
        name: info.name,
        source_kind: source_kind_str(info.source_kind),
        sample_rate: info.sample_rate,
        channels: info.channels,
        is_loopback: info.is_loopback,
        is_default: info.is_default,
    }
}

/// A chunk for JavaScript. A number of frames that needs more than 32 bits is cut to them.
pub fn chunk_to_js(chunk: AudioChunk) -> (js: JsAudioChunk)
    ensures
        js.data@ == chunk.data@,
        js.frames == chunk.frames as int % 0x1_0000_0000,
        js.pts_ns == chunk.pts_ns,
        js.seq == chunk.seq,
        js.flags == chunk.flags.spec_bits(),
        js.dropped_before == chunk.dropped_before,
        js.peak == chunk.peak,
        js.rms == chunk.rms,
{
    JsAudioChunk {
        frames: (chunk.frames as u64 % 0x1_0000_0000) as u32,
        pts_ns: chunk.pts_ns,
        seq: chunk.seq,
        flags: chunk.flags.bits(),
        dropped_before: chunk.dropped_before,
        peak: chunk.peak,
        rms: chunk.rms,
        data: chunk.data,
    }
}

/// The word for a kind of event.
pub open spec fn event_word(event: Event) -> Seq<char> {
    match event {
        Event::ChunkDropped { .. } => "chunkDropped"@,
        Event::StreamStalled => "stalled"@,
        Event::StreamRecovered => "recovered"@,
        Event::PermissionDenied => "permissionDenied"@,
        Event::DeviceLost => "deviceLost"@,
        Event::Error(_) => "error"@,
    }
}

/// The message of an event.
pub open spec fn event_message(event: Event) -> Option<Seq<char>> {
    match event {
        Event::Error(m) => Some(m@),
        _ => None,
    }
}

/// The word for a kind of event.
pub(crate) fn word_for_event(event: &Event) -> (word: String)
    ensures
        word@ == event_word(*event),
{
    match event {
        Event::ChunkDropped { .. } => owned("chunkDropped"),
        Event::StreamStalled => owned("stalled"),
        Event::StreamRecovered => owned("recovered"),
        Event::PermissionDenied => owned("permissionDenied"),
        Event::DeviceLost => owned("deviceLost"),
        Event::Error(_) => owned("error"),
    }
}

/// An event for JavaScript.
pub fn event_to_js(event: Event) -> (js: JsStreamEvent)
    ensures
        js.kind@ == event_word(event),
        js.count == (match event {
            Event::ChunkDropped { count } => Some(crate::text::signed_count(count) as i64),
            _ => None,
        }),
        crate::types::text_view(js.message) == event_message(event),
{
    let kind: String = word_for_event(&event);
    match event {
        Event::ChunkDropped { count } => JsStreamEvent {
            kind,
            count: Some(to_signed(count)),
            message: None,
        },
        Event::Error(message) => JsStreamEvent { kind, count: None, message: Some(message) },
        _ => JsStreamEvent { kind, count: None, message: None },
    }
}

/// A device event for JavaScript.
pub fn device_event_to_js(event: DeviceEvent) -> (js: JsDeviceEvent)
    ensures
        match event {
            DeviceEvent::Added(info) => {
                &&& js.kind@ == "added"@
                &&& js.device matches Some(d) && is_js_device(d, info)
                &&& js.id is None
                &&& js.source_kind is None
            },
            DeviceEvent::Removed { id } => {
                &&& js.kind@ == "removed"@
                &&& js.device is None
                &&& js.id matches Some(i) && i@ == id@
                &&& js.source_kind is None
            },
            DeviceEvent::DefaultChanged { kind, id } => {
                &&& js.kind@ == "defaultChanged"@
                &&& js.device is None
                &&& js.id matches Some(i) && i@ == id@
                &&& js.source_kind matches Some(k) && k@ == crate::bindings::kind_word(kind)
            },
        },
{
    match event {
        DeviceEvent::Added(info) => JsDeviceEvent {
            kind: owned("added"),
            device: Some(device_info_to_js(info)),
            id: None,
            source_kind: None,
        },
        DeviceEvent::Removed { id } => JsDeviceEvent {
            kind: owned("removed"),
            device: None,
            id: Some(id),
            source_kind: None,
        },
        DeviceEvent::DefaultChanged { kind, id } => JsDeviceEvent {
            kind: owned("defaultChanged"),
            device: None,
            id: Some(id),
            source_kind: Some(source_kind_str(kind)),
        },
    }
}

/// An optional value, or its default.
pub open spec fn or_default<T>(value: Option<T>, default: T) -> T {
    match value {
        Some(v) => v,
        None => default,
    }
}

impl OpenOptions {
    /// The mode, where the word for it is one.
    pub open spec fn mode_asked(self) -> Option<ProcessMode> {
        mode_of(crate::types::text_view(self.mode))
    }

    /// The stream settings that are meant, where both words are known.
    pub open spec fn meant(self) -> StreamConfigView {
        StreamConfigView {
            device_id: crate::types::text_view(self.device_id),
            kind: crate::bindings::kind_of_word(self.kind@)->0,
            chunk_ms: or_default(self.chunk_ms, crate::types::default_config().chunk_ms),
            ring_capacity_chunks: crate::types::default_config().ring_capacity_chunks,
            target_pid: self.process_id,
            mode: self.mode_asked()->0,
            exclude_self: or_default(self.exclude_self, false),
            output: OutputFormat {
                sample_rate: or_default(self.output_rate, 48_000u32),
                channels: or_default(self.output_channels, 2u16),
            },
            gain: or_default(self.gain, ONE),
            mix_mic_device_id: crate::types::text_view(self.mic_device_id),
            mix_system_device_id: crate::types::text_view(self.system_device_id),
            mix_mic_gain: or_default(self.mic_gain, ONE),
            mix_system_gain: or_default(self.system_gain, ONE),
        }
    }
}

fn copied(text: &Option<String>) -> (copy: Option<String>)
    ensures
        crate::types::text_view(copy) == crate::types::text_view(*text),
{
    match text {
        Some(t) => Some(t.clone()),
        None => None,
    }
}

/// The stream settings that are meant. The kind is checked before the mode.
pub fn build_config(options: &OpenOptions) -> (r: Result<StreamConfig, NapiError>)
    ensures
        match r {
            Ok(c) => {
                &&& crate::bindings::kind_of_word(options.kind@) is Some
                &&& options.mode_asked() is Some
                &&& c@ == options.meant()
            },
            Err(e) => {
                &&& e.status == Status::InvalidArg
                &&& if crate::bindings::kind_of_word(options.kind@) is None {
                    e.reason@ == unknown_kind_text(options.kind@)
                } else {
                    options.mode_asked() is None && options.mode is Some && e.reason@
                        == unknown_mode_text(options.mode->0@)
                }
            },
        },
{
    let kind: SourceKind = match parse_source_kind(options.kind.as_str()) {
        Ok(k) => k,
        Err(e) => return Err(e),
    };
    let word: Option<&str> = match &options.mode {
        Some(m) => Some(m.as_str()),
        None => None,
    };
    let mode: ProcessMode = match parse_process_mode(word) {
        Ok(m) => m,
        Err(e) => return Err(e),
    };
    let defaults: StreamConfig = StreamConfig::default();
    Ok(
        StreamConfig {
            device_id: copied(&options.device_id),
            kind,
            chunk_ms: match options.chunk_ms {
                Some(ms) => ms,
                None => defaults.chunk_ms,
            },
            ring_capacity_chunks: defaults.ring_capacity_chunks,
            target_pid: options.process_id,
            mode,
            exclude_self: match options.exclude_self {
                Some(b) => b,
                None => false,
            },
            output: OutputFormat {
                sample_rate: match options.output_rate {
                    Some(r) => r,
                    None => 48_000,
                },
                channels: match options.output_channels {
                    Some(c) => c,
                    None => 2,
                },
            },
            gain: match options.gain {
                Some(g) => g,
                None => ONE,
            },
            mix_mic_device_id: copied(&options.mic_device_id),
            mix_system_device_id: copied(&options.system_device_id),
            mix_mic_gain: match options.mic_gain {
                Some(g) => g,
                None => ONE,
            },
            mix_system_gain: match options.system_gain {
                Some(g) => g,
                None => ONE,
            },
        },
    )
}

/// What came of handing a command to the bridge thread.
#[derive(Debug)]
pub enum Reply {
    /// It could not be handed over: the thread does not run.
    NotRunning,
    /// The thread ended before it answered.
    Dropped,
    /// The thread answered.
    Answered(Result<(), String>),
}

/// A stream's handle: whether its bridge thread can still be asked.
#[derive(Debug)]
pub struct FlexStream {
    open: bool,
}

impl FlexStream {
    /// Whether the stream was not stopped yet.
    pub closed spec fn is_open(self) -> bool {
        self.open
    }

    /// The handle of a stream whose bridge thread was just started.
    pub fn spawned() -> (s: FlexStream)
        ensures
            s.is_open(),
    {
        FlexStream { open: true }
    }

    /// Accepts a command only while the stream is open.
    pub fn accept(&self) -> (r: Result<(), NapiError>)
        ensures
            r is Ok <==> self.is_open(),
            r matches Err(e) ==> e.status == Status::GenericFailure && e.reason@
                == "stream already stopped"@,
    {
        if self.open {
            Ok(())
        } else {
            Err(
                NapiError {
                    status: Status::GenericFailure,
                    reason: owned("stream already stopped"),
                },
            )
        }
    }

    /// Accepts a switch to other settings: the options are checked before the stream.
    pub fn accept_switch(&self, options: &OpenOptions) -> (r: Result<StreamConfig, NapiError>)
        ensures
            ({
                let known = crate::bindings::kind_of_word(options.kind@) is Some
                    && options.mode_asked() is Some;
                match r {
                    Ok(c) => known && self.is_open() && c@ == options.meant(),
                    Err(e) => if known {
                        !self.is_open() && e.status == Status::GenericFailure && e.reason@
                            == "stream already stopped"@
                    } else {
                        &&& e.status == Status::InvalidArg
                        &&& if crate::bindings::kind_of_word(options.kind@) is None {
                            e.reason@ == unknown_kind_text(options.kind@)
                        } else {
                            options.mode is Some && e.reason@ == unknown_mode_text(
                                options.mode->0@,
                            )
                        }
                    },
                }
            }),
    {
        let config: StreamConfig = match build_config(options) {
            Ok(c) => c,
            Err(e) => return Err(e),
        };
        match self.accept() {
            Ok(_) => Ok(config),
            Err(e) => Err(e),
        }
    }

    /// Accepts a gain that is finite and not negative, while the stream is open. The gain is
    /// checked first; `shown` is the gain as text.
    pub fn accept_gain(&self, gain: Sample, shown: &str) -> (r: Result<(), NapiError>)
        ensures
            ({
                let good = crate::sample::is_finite(gain) && !crate::sample::lt_value(gain, ZERO);
                &&& r is Ok <==> good && self.is_open()
                &&& r matches Err(e) ==> if good {
                    e.status == Status::GenericFailure && e.reason@ == "stream already stopped"@
                } else {
                    e.status == Status::InvalidArg && e.reason@
                        == "gain must be finite and >= 0.0, got "@ + shown@
                }
            }),
    {
        if !finite(gain) || below(gain, ZERO) {
            return Err(
                NapiError {
                    status: Status::InvalidArg,
                    reason: joined("gain must be finite and >= 0.0, got ", shown),
                },
            );
        }
        self.accept()
    }

    /// Stops. Returns whether there is a thread to join.
    pub fn stop(&mut self) -> (join: bool)
        ensures
            join == old(self).is_open(),
            !final(self).is_open(),
    {
        let join: bool = self.open;
        self.open = false;
        join
    }
}

/// What is reported of a reply.
pub fn answer(reply: Reply) -> (r: Result<(), NapiError>)
    ensures
        match reply {
            Reply::Answered(Ok(_)) => r is Ok,
            Reply::Answered(Err(m)) => r matches Err(e) && e.status == Status::GenericFailure
                && e.reason@ == m@,
            Reply::NotRunning => r matches Err(e) && e.status == Status::GenericFailure
                && e.reason@ == "bridge thread is not running"@,
            Reply::Dropped => r matches Err(e) && e.status == Status::GenericFailure && e.reason@
                == "bridge thread dropped before responding"@,
        },
{
    match reply {
        Reply::Answered(outcome) => match outcome {
            Ok(_) => Ok(()),
            Err(reason) => Err(NapiError { status: Status::GenericFailure, reason }),
        },
        Reply::NotRunning => Err(
            NapiError {
                status: Status::GenericFailure,
                reason: owned("bridge thread is not running"),
            },
        ),
        Reply::Dropped => Err(
            NapiError {
                status: Status::GenericFailure,
                reason: owned("bridge thread dropped before responding"),
            },
        ),
    }
}

/// What a bridge thread does next.
#[derive(Debug, Clone, Copy, PartialEq, Eq, Structural)]
pub enum BridgeStep {
    /// Look for a command and carry it out.
    Command,
    /// Look for a chunk and deliver it.
    Chunk,
    /// Look for an event and deliver it.
    Event,
    /// Sleep for a moment.
    Sleep,
    /// Look for a chunk that is left after the stop, and deliver it.
    LastChunk,
    /// Stop the stream and end.
    Stop,
}

/// What follows a step: `found` says whether it found something, `stop` whether the thread was
/// told to stop. Each step goes on until it finds nothing more; a stop is looked for once a
/// turn, after the sleep.
pub open spec fn bridge_after(step: BridgeStep, found: bool, stop: bool) -> BridgeStep {
    match step {
        BridgeStep::Command => if found {
            BridgeStep::Command
        } else {
            BridgeStep::Chunk
        },
        BridgeStep::Chunk => if found {
            BridgeStep::Chunk
        } else {
            BridgeStep::Event
        },
        BridgeStep::Event => if found {
            BridgeStep::Event
        } else {
            BridgeStep::Sleep
        },
        BridgeStep::Sleep => bridge_first(stop),
        BridgeStep::LastChunk => if found {
            BridgeStep::LastChunk
        } else {
            BridgeStep::Stop
        },
        BridgeStep::Stop => BridgeStep::Stop,
    }
}

/// The first step of a turn.
pub open spec fn bridge_first(stop: bool) -> BridgeStep {
    if stop {
        BridgeStep::LastChunk
    } else {
        BridgeStep::Command
    }
}

/// The first step of a turn.
pub fn first_step(stop: bool) -> (step: BridgeStep)
    ensures
        step == bridge_first(stop),
{
    if stop {
        BridgeStep::LastChunk
    } else {
        BridgeStep::Command
    }
}

/// What a bridge thread does after a step.
pub fn next_step(step: BridgeStep, found: bool, stop: bool) -> (next: BridgeStep)
    ensures
        next == bridge_after(step, found, stop),
{
    match step {
        BridgeStep::Command => if found {
            BridgeStep::Command
        } else {
            BridgeStep::Chunk
        },
        BridgeStep::Chunk => if found {
            BridgeStep::Chunk
        } else {
            BridgeStep::Event
        },
        BridgeStep::Event => if found {
            BridgeStep::Event
        } else {
            BridgeStep::Sleep
        },
        BridgeStep::Sleep => first_step(stop),
        BridgeStep::LastChunk => if found {
            BridgeStep::LastChunk
        } else {
            BridgeStep::Stop
        },
        BridgeStep::Stop => BridgeStep::Stop,
    }
}

/// A stream is stopped only once no chunk is left: the step before the stop looked for one and
/// found none.
pub proof fn lemma_no_chunk_is_left_behind(step: BridgeStep, found: bool, stop: bool)
    requires
        step != BridgeStep::Stop,
        bridge_after(step, found, stop) == BridgeStep::Stop,
    ensures
        step == BridgeStep::LastChunk && !found,
{
}

/// What is asked for is meant as it is asked for, each option for itself; what is missing is the
/// default.
pub proof fn lemma_what_is_asked_for_is_meant(options: OpenOptions)
    ensures
        ({
            let m = options.meant();
            &&& options.kind@ == "mic"@ ==> m.kind == SourceKind::Mic
            &&& options.kind@ == "system"@ ==> m.kind == SourceKind::SystemLoopback
            &&& options.kind@ == "process"@ ==> m.kind == SourceKind::ProcessLoopback
            &&& options.kind@ == "mix"@ ==> m.kind == SourceKind::Mix
            &&& options.mode matches Some(w) ==> w@ == "exclude"@ ==> m.mode
                == ProcessMode::Exclude
            &&& options.mode matches Some(w) ==> w@ == "include"@ ==> m.mode
                == ProcessMode::Include
            &&& options.mode is None ==> m.mode == ProcessMode::Include
            &&& m.target_pid == options.process_id
            &&& options.exclude_self is Some ==> m.exclude_self == options.exclude_self->0
            &&& options.exclude_self is None ==> !m.exclude_self
            &&& options.output_rate is Some ==> m.output.sample_rate == options.output_rate->0
            &&& options.output_rate is None ==> m.output.sample_rate == 48_000
            &&& options.output_channels is Some ==> m.output.channels == options.output_channels->0
            &&& options.output_channels is None ==> m.output.channels == 2
            &&& options.chunk_ms is Some ==> m.chunk_ms == options.chunk_ms->0
            &&& options.chunk_ms is None ==> m.chunk_ms == 20
            &&& options.gain is Some ==> m.gain == options.gain->0
            &&& options.gain is None ==> m.gain == 0x3f80_0000
            &&& options.mic_gain is Some ==> m.mix_mic_gain == options.mic_gain->0
            &&& options.mic_gain is None ==> m.mix_mic_gain == 0x3f80_0000
            &&& options.system_gain is Some ==> m.mix_system_gain == options.system_gain->0
            &&& options.system_gain is None ==> m.mix_system_gain == 0x3f80_0000
            &&& options.device_id matches Some(t) ==> m.device_id == Some(t@)
            &&& options.device_id is None ==> m.device_id is None
            &&& options.mic_device_id matches Some(t) ==> m.mix_mic_device_id == Some(t@)
            &&& options.mic_device_id is None ==> m.mix_mic_device_id is None
            &&& options.system_device_id matches Some(t) ==> m.mix_system_device_id == Some(t@)
            &&& options.system_device_id is None ==> m.mix_system_device_id is None
            &&& m.ring_capacity_chunks == 50
        }),
{
    crate::bindings::lemma_the_words_for_kinds(options.kind@);
    crate::bindings::lemma_the_words_for_modes(options.kind@);
}

/// Options are accepted exactly where the kind is one of the four words and the mode one of the
/// two, or missing. A wrong argument is classed as one.
pub proof fn lemma_known_words_are_accepted(
    options: &OpenOptions,
    r: Result<StreamConfig, NapiError>,
)
    requires
        call_ensures(build_config, (options,), r),
    ensures
        r is Ok <==> (options.kind@ == "mic"@ || options.kind@ == "system"@ || options.kind@
            == "process"@ || options.kind@ == "mix"@) && (options.mode matches Some(w) ==> w@
            == "include"@ || w@ == "exclude"@),
        r matches Err(e) ==> e.status == Status::InvalidArg,
{
    crate::bindings::lemma_the_words_for_kinds(options.kind@);
    match options.mode {
        Some(w) => crate::bindings::lemma_the_words_for_modes(w@),
        None => {},
    }
}

/// A device reaches JavaScript with everything that it has, its kind as a word.
pub proof fn lemma_devices_reach_javascript(info: DeviceInfo, js: JsDeviceInfo)
    requires
        call_ensures(device_info_to_js, (info,), js),
    ensures
        js.id@ == info.id@,
        js.name@ == info.name@,
        info.source_kind == SourceKind::Mic ==> js.source_kind@ == "mic"@,
        info.source_kind == SourceKind::SystemLoopback ==> js.source_kind@ == "system"@,
        js.sample_rate == info.sample_rate,
        js.channels == info.channels,
        js.is_loopback == info.is_loopback,
        js.is_default == info.is_default,
{
}

/// Every event reaches JavaScript under its word; only dropped chunks are counted, and only an
/// error has a message.
pub proof fn lemma_events_reach_javascript(event: Event, js: JsStreamEvent)
    requires
        call_ensures(event_to_js, (event,), js),
    ensures
        event is ChunkDropped ==> js.kind@ == "chunkDropped"@,
        event is StreamStalled ==> js.kind@ == "stalled"@,
        event is StreamRecovered ==> js.kind@ == "recovered"@,
        event is PermissionDenied ==> js.kind@ == "permissionDenied"@,
        event is DeviceLost ==> js.kind@ == "deviceLost"@,
        event is Error ==> js.kind@ == "error"@,
        event matches Event::ChunkDropped { count } ==> js.count is Some && (count <= i64::MAX
            ==> js.count->0 == count),
        event !is ChunkDropped ==> js.count is None,
        event matches Event::Error(m) ==> js.message is Some && (js.message->0)@ == m@,
        event !is Error ==> js.message is None,
{
    crate::text::lemma_signed_counts_wrap(match event {
        Event::ChunkDropped { count } => count,
        _ => 0,
    });
}

/// A turn of the bridge goes from commands to chunks to events to a sleep, and each step is
/// repeated for as long as it finds something. A stop is seen after the sleep and at the start;
/// it takes what is left first.
pub proof fn lemma_a_turn_of_the_bridge(found: bool, stop: bool)
    ensures
        bridge_after(BridgeStep::Command, true, stop) == BridgeStep::Command,
        bridge_after(BridgeStep::Command, false, stop) == BridgeStep::Chunk,
        bridge_after(BridgeStep::Chunk, true, stop) == BridgeStep::Chunk,
        bridge_after(BridgeStep::Chunk, false, stop) == BridgeStep::Event,
        bridge_after(BridgeStep::Event, true, stop) == BridgeStep::Event,
        bridge_after(BridgeStep::Event, false, stop) == BridgeStep::Sleep,
        bridge_after(BridgeStep::Sleep, found, true) == BridgeStep::LastChunk,
        bridge_after(BridgeStep::Sleep, found, false) == BridgeStep::Command,
        bridge_after(BridgeStep::LastChunk, true, stop) == BridgeStep::LastChunk,
        bridge_after(BridgeStep::LastChunk, false, stop) == BridgeStep::Stop,
        bridge_after(BridgeStep::Stop, found, stop) == BridgeStep::Stop,
        bridge_first(true) == BridgeStep::LastChunk,
        bridge_first(false) == BridgeStep::Command,
{
}

/// A stream takes commands until it is stopped, and a gain only where it is finite and not
/// negative; a wrong gain is classed as a wrong argument even then.
pub proof fn lemma_open_streams_take_gains(
    s: &FlexStream,
    gain: Sample,
    shown: &str,
    r: Result<(), NapiError>,
    c: Result<(), NapiError>,
)
    requires
        call_ensures(FlexStream::accept_gain, (s, gain, shown), r),
        call_ensures(FlexStream::accept, (s,), c),
    ensures
        c is Ok <==> s.is_open(),
        r is Ok <==> s.is_open() && (gain <= 0x7f7f_ffff || gain == 0x8000_0000),
        r matches Err(e) ==> (e.status == Status::InvalidArg <==> !(gain <= 0x7f7f_ffff || gain
            == 0x8000_0000)),
{
}

/// A chunk reaches JavaScript with everything that it has; frames beyond 32 bits do not occur.
pub proof fn lemma_chunks_reach_javascript(chunk: AudioChunk, js: JsAudioChunk)
    requires
        call_ensures(chunk_to_js, (chunk,), js),
    ensures
        js.data@ == chunk.data@,
        chunk.frames <= u32::MAX ==> js.frames == chunk.frames,
        js.pts_ns == chunk.pts_ns && js.seq == chunk.seq,
        js.flags == chunk.flags.spec_bits() && js.dropped_before == chunk.dropped_before,
        js.peak == chunk.peak && js.rms == chunk.rms,
{
}

/// A device that came reaches JavaScript whole, one that went by its id, and a new default by its
/// id and kind.
pub proof fn lemma_device_events_reach_javascript(event: DeviceEvent, js: JsDeviceEvent)
    requires
        call_ensures(device_event_to_js, (event,), js),
    ensures
        event is Added ==> js.kind@ == "added"@ && js.device is Some && js.id is None,
        event matches DeviceEvent::Added(info) ==> js.device is Some && (js.device->0).id@
            == info.id@ && (js.device->0).name@ == info.name@ && (js.device->0).is_default
            == info.is_default,
        event matches DeviceEvent::Removed { id } ==> js.kind@ == "removed"@ && js.id is Some && (
        js.id->0)@ == id@ && js.device is None,
        event matches DeviceEvent::DefaultChanged { kind, id } ==> js.kind@ == "defaultChanged"@
            && js.id is Some && (js.id->0)@ == id@ && js.source_kind is Some && (kind
            == SourceKind::Mic ==> (js.source_kind->0)@ == "mic"@) && (kind
            == SourceKind::SystemLoopback ==> (js.source_kind->0)@ == "system"@),
{
}

/// A command has succeeded exactly where the bridge answered so; its refusal is passed on.
pub proof fn lemma_answers_are_passed_on(reply: Reply, r: Result<(), NapiError>)
    requires
        call_ensures(answer, (reply,), r),
    ensures
        r is Ok <==> reply is Answered && (reply->Answered_0) is Ok,
        reply is Answered && (reply->Answered_0) is Err ==> r is Err && (r->Err_0).reason@ == (
        reply->Answered_0)->Err_0@,
        reply is NotRunning ==> r is Err && (r->Err_0).reason@ == "bridge thread is not running"@,
        reply is Dropped ==> r is Err && (r->Err_0).reason@
            == "bridge thread dropped before responding"@,
        r is Err ==> (r->Err_0).status == Status::GenericFailure,
{
}

} // verus!

//! The rules of the Python binding: how arguments become stream settings, how chunks, events and
//! devices look from Python, and which exception an error is.

use crate::bindings::node::word_for_event;
use crate::bindings::{kind_named, mode_named, source_kind_str};
use crate::encode::little_endian;
use crate::sample::Sample;
use crate::text::{joined, owned, push_decimal, push_signed_decimal_wide, quote};
use crate::types::{
    AudioChunk, DeviceInfo, Error, Event, OutputFormat, ProcessMode, SourceKind, StreamConfig,
    StreamConfigView,
};
use vstd::prelude::*;

verus! {

/// An exception.
#[derive(Debug, PartialEq, Eq)]
pub enum PyError {
    /// A `ValueError`.
    Value(String),
    /// A `RuntimeError`.
    Runtime(String),
}

/// The exception of an error: a `ValueError` where an argument is to blame.
pub fn to_py_err(error: Error) -> (e: PyError)
    ensures
        if error is InvalidArg || error is UnsupportedFormat {
            e matches PyError::Value(m) && m@ == error.text()
        } else {
            e matches PyError::Runtime(m) && m@ == error.text()
        },
{
    let message: String = error.message();
    match error {
        Error::InvalidArg(_) | Error::UnsupportedFormat(_) => PyError::Value(message),
        _ => PyError::Runtime(message),
    }
}

/// What is said of a word that stands for no kind of source.
pub open spec fn unknown_kind_text(word: Seq<char>) -> Seq<char> {
    "unknown kind: "@ + crate::text::quoted(word) + " (expected mic|system|process)"@
}

/// What is said of a word that stands for no process mode.
pub open spec fn unknown_mode_text(word: Seq<char>) -> Seq<char> {
    "unknown mode: "@ + crate::text::quoted(word) + " (expected include|exclude)"@
}

/// The kind of source that a word stands for. A mix cannot be asked for.
pub open spec fn kind_asked(word: Seq<char>) -> Option<SourceKind> {
    match crate::bindings::kind_of_word(word) {
        Some(SourceKind::Mix) => None,
        kind => kind,
    }
}

/// Reads a kind of source.
pub fn parse_source_kind(word: &str) -> (r: Result<SourceKind, PyError>)
    ensures
        match r {
            Ok(k) => kind_asked(word@) == Some(k),
            Err(e) => kind_asked(word@) is None && (e matches PyError::Value(m) && m@
                == unknown_kind_text(word@)),
        },
{
    match kind_named(word) {
        Some(kind) if kind != SourceKind::Mix => Ok(kind),
        _ => {
            let quoted: String = quote(word);
            let mut reason: String = joined("unknown kind: ", quoted.as_str());
            reason.append(" (expected mic|system|process)");
            Err(PyError::Value(reason))
        },
    }
}

/// Reads a process mode.
pub fn parse_process_mode(word: &str) -> (r: Result<ProcessMode, PyError>)
    ensures
        match r {
            Ok(m) => crate::bindings::mode_of_word(word@) == Some(m),
            Err(e) => crate::bindings::mode_of_word(word@) is None && (e matches PyError::Value(m)
                && m@ == unknown_mode_text(word@)),
        },
{
    match mode_named(word) {
        Some(mode) => Ok(mode),
        None => {
            let quoted: String = quote(word);
            let mut reason: String = joined("unknown mode: ", quoted.as_str());
            reason.append(" (expected include|exclude)");
            Err(PyError::Value(reason))
        },
    }
}

/// The stream settings that arguments stand for; what Python cannot choose is the default.
pub open spec fn meant(
    kind: SourceKind,
    device_id: Option<Seq<char>>,
    process_id: Option<u32>,
    mode: ProcessMode,
    exclude_self: bool,
    output: OutputFormat,
    chunk_ms: u32,
    gain: Sample,
) -> StreamConfigView {
    StreamConfigView {
        kind,
        device_id,
        target_pid: process_id,
        mode,
        exclude_self,
        output,
        chunk_ms,
        gain,
        ..crate::types::default_config()
    }
}

/// The stream settings that the arguments stand for. The kind is checked before the mode.
#[allow(clippy::too_many_arguments)]
pub fn build_config(
    kind: &str,
    device_id: Option<String>,
    process_id: Option<u32>,
    mode: &str,
    exclude_self: bool,
    output_rate: u32,
    output_channels: u16,
    chunk_ms: u32,
    gain: Sample,
) -> (r: Result<StreamConfig, PyError>)
    ensures
        match r {
            Ok(c) => {
                &&& kind_asked(kind@) is Some
                &&& crate::bindings::mode_of_word(mode@) is Some
                &&& c@ == meant(
                    kind_asked(kind@)->0,
                    crate::types::text_view(device_id),
                    process_id,
                    crate::bindings::mode_of_word(mode@)->0,
                    exclude_self,
                    OutputFormat { sample_rate: output_rate, channels: output_channels },
                    chunk_ms,
                    gain,
                )
            },
            Err(e) => if kind_asked(kind@) is None {
                e matches PyError::Value(m) && m@ == unknown_kind_text(kind@)
            } else {
                crate::bindings::mode_of_word(mode@) is None && (e matches PyError::Value(m) && m@
                    == unknown_mode_text(mode@))
            },
        },
{
    let kind: SourceKind = match parse_source_kind(kind) {
        Ok(k) => k,
        Err(e) => return Err(e),
    };
    let mode: ProcessMode = match parse_process_mode(mode) {
        Ok(m) => m,
        Err(e) => return Err(e),
    };
    let defaults: StreamConfig = StreamConfig::default();
    Ok(
        StreamConfig {
            device_id,
            kind,
            chunk_ms,
            ring_capacity_chunks: defaults.ring_capacity_chunks,
            target_pid: process_id,
            mode,
            exclude_self,
            output: OutputFormat { sample_rate: output_rate, channels: output_channels },
            gain,
            mix_mic_device_id: defaults.mix_mic_device_id,
            mix_system_device_id: defaults.mix_system_device_id,
            mix_mic_gain: defaults.mix_mic_gain,
            mix_system_gain: defaults.mix_system_gain,
        },
    )
}

/// One device as Python sees it.
#[derive(Debug, PartialEq, Eq)]
pub struct PyDeviceInfo {
    /// Stable key.
    pub id: String,
    /// Name to show.
    pub name: String,
    /// How the device is captured, as a word.
    pub source_kind: String,
    /// Native rate.
    pub sample_rate: u32,
    /// Native channels.
    pub channels: u16,
    /// Whether this is a monitor.
    pub is_loopback: bool,
    /// Whether the system uses it by default.
    pub is_default: bool,
}

/// A truth value as Python writes it.
pub open spec fn bool_word(b: bool) -> Seq<char> {
    if b {
        "True"@
    } else {
        "False"@
    }
}

/// A truth value as Python writes it.
pub fn bool_repr(b: bool) -> (word: &'static str)
    ensures
        word@ == bool_word(b),
{
    if b {
        "True"
    } else {
        "False"
    }
}

impl PyDeviceInfo {
    /// How a device is shown.
    pub open spec fn repr_text(self) -> Seq<char> {
        "DeviceInfo(id="@ + crate::text::quoted(self.id@) + ", name="@ + crate::text::quoted(
            self.name@,
        ) + ", source_kind="@ + crate::text::quoted(self.source_kind@) + ", sample_rate="@
            + crate::text::decimal(self.sample_rate as nat) + ", channels="@ + crate::text::decimal(
            self.channels as nat,
        ) + ", is_loopback="@ + bool_word(self.is_loopback) + ", is_default="@ + bool_word(
            self.is_default,
        ) + ")"@
    }

    /// How a device is shown.
    pub fn repr(&self) -> (text: String)
        ensures
            text@ == self.repr_text(),
    {
        let mut text: String = owned("DeviceInfo(id=");
        let id: String = quote(self.id.as_str());
        text.append(id.as_str());
        text.append(", name=");
        let name: String = quote(self.name.as_str());
        text.append(name.as_str());
        text.append(", source_kind=");
        let kind: String = quote(self.source_kind.as_str());
        text.append(kind.as_str());
        text.append(", sample_rate=");
        push_decimal(&mut text, self.sample_rate as u64);
        text.append(", channels=");
        push_decimal(&mut text, self.channels as u64);
        text.append(", is_loopback=");
        text.append(bool_repr(self.is_loopback));
        text.append(", is_default=");
        text.append(bool_repr(self.is_default));
        text.append(")");
        text
    }
}

/// A device for Python.
pub fn device_info_to_py(info: DeviceInfo) -> (py: PyDeviceInfo)
    ensures
        py.id@ == info.id@,
        py.name@ == info.name@,
        py.source_kind@ == crate::bindings::kind_word(info.source_kind),
        py.sample_rate == info.sample_rate,
        py.channels == info.channels,
        py.is_loopback == info.is_loopback,
        py.is_default == info.is_default,
{
    PyDeviceInfo {
        id: info.id,
        name: info.name,
        source_kind: source_kind_str(info.source_kind),
        sample_rate: info.sample_rate,
        channels: info.channels,
        is_loopback: info.is_loopback,
        is_default: info.is_default,
    }
}

/// One chunk as Python sees it.
#[derive(Debug, PartialEq, Eq)]
pub struct PyAudioChunk {
    /// Interleaved samples.
    pub samples: Vec<Sample>,
    /// Frames.
    pub frames: usize,
    /// Time of the first frame.
    pub pts_ns: i64,
    /// Sequence number.
    pub seq: u64,
    /// Flags as bits.
    pub flags: u32,
    /// Chunks dropped so far.
    pub dropped_before: u32,
    /// Largest absolute sample value.
    pub peak: Sample,
    /// Root mean square.
    pub rms: Sample,
}

impl PyAudioChunk {
    /// The samples as bytes.
    pub fn data(&self) -> (bytes: Vec<u8>)
        ensures
            bytes@ == crate::encode::bytes_of(self.samples@),
    {
        little_endian(self.samples.as_slice())
    }

    /// How a chunk is shown; `peak` and `rms` are those two as text.
    pub open spec fn repr_text(self, peak: Seq<char>, rms: Seq<char>) -> Seq<char> {
        "AudioChunk(frames="@ + crate::text::decimal(self.frames as nat) + ", seq="@
            + crate::text::decimal(self.seq as nat) + ", pts_ns="@ + crate::text::signed_decimal(
            self.pts_ns as int,
        ) + ", flags="@ + crate::text::decimal(self.flags as nat) + ", dropped_before="@
            + crate::text::decimal(self.dropped_before as nat) + ", peak="@ + peak + ", rms="@ + rms
            + ")"@
    }

    /// How a chunk is shown.
    pub fn repr(&self, peak: &str, rms: &str) -> (text: String)
        ensures
            text@ == self.repr_text(peak@, rms@),
    {
        let mut text: String = owned("AudioChunk(frames=");
        push_decimal(&mut text, self.frames as u64);
        text.append(", seq=");
        push_decimal(&mut text, self.seq);
        text.append(", pts_ns=");
        push_signed_decimal_wide(&mut text, self.pts_ns);
        text.append(", flags=");
        push_decimal(&mut text, self.flags as u64);
        text.append(", dropped_before=");
        push_decimal(&mut text, self.dropped_before as u64);
        text.append(", peak=");
        text.append(peak);
        text.append(", rms=");
        text.append(rms);
        text.append(")");
        text
    }
}

/// A chunk for Python.
pub fn chunk_to_py(chunk: AudioChunk) -> (py: PyAudioChunk)
    ensures
        py.samples@ == chunk.data@,
        py.frames == chunk.frames,
        py.pts_ns == chunk.pts_ns,
        py.seq == chunk.seq,
        py.flags == chunk.flags.spec_bits(),
        py.dropped_before == chunk.dropped_before,
        py.peak == chunk.peak,
        py.rms == chunk.rms,
{
    PyAudioChunk {
        frames: chunk.frames,
        pts_ns: chunk.pts_ns,
        seq: chunk.seq,
        flags: chunk.flags.bits(),
        dropped_before: chunk.dropped_before,
        peak: chunk.peak,
        rms: chunk.rms,
        samples: chunk.data,
    }
}

/// One event as Python sees it.
#[derive(Debug, PartialEq, Eq)]
pub struct PyStreamEvent {
    /// Its kind, as a word.
    pub kind: String,
    /// How many chunks were dropped.
    pub count: Option<u64>,
    /// The message of an error.
    pub message: Option<String>,
}

/// How an optional thing is shown, given how the thing is.
pub open spec fn optional_text(shown: Option<Seq<char>>) -> Seq<char> {
    match shown {
        Some(s) => "Some("@ + s + ")"@,
        None => "None"@,
    }
}

impl PyStreamEvent {
    /// How an event is shown.
    pub open spec fn repr_text(self) -> Seq<char> {
        let count: Option<Seq<char>> = match self.count {
            Some(n) => Some(crate::text::decimal(n as nat)),
            None => None,
        };
        let message: Option<Seq<char>> = match self.message {
            Some(m) => Some(crate::text::quoted(m@)),
            None => None,
        };
        "StreamEvent(type="@ + crate::text::quoted(self.kind@) + ", count="@ + optional_text(count)
            + ", message="@ + optional_text(message) + ")"@
    }

    /// How an event is shown.
    pub fn repr(&self) -> (text: String)
        ensures
            text@ == self.repr_text(),
    {
        let mut text: String = owned("StreamEvent(type=");
        let kind: String = quote(self.kind.as_str());
        text.append(kind.as_str());
        text.append(", count=");
        let ghost before = text@;
        match self.count {
            Some(n) => {
                text.append("Some(");
                push_decimal(&mut text, n);
                text.append(")");
                assert(text@ =~= before + ("Some("@ + crate::text::decimal(n as nat) + ")"@));
            },
            None => text.append("None"),
        }
        text.append(", message=");
        let ghost before = text@;
        match &self.message {
            Some(m) => {
                let quoted: String = quote(m.as_str());
                text.append("Some(");
                text.append(quoted.as_str());
                text.append(")");
                assert(text@ =~= before + ("Some("@ + crate::text::quoted(m@) + ")"@));
            },
            None => text.append("None"),
        }
        text.append(")");
        text
    }
}

/// An event for Python.
pub fn event_to_py(event: Event) -> (py: PyStreamEvent)
    ensures
        py.kind@ == crate::bindings::node::event_word(event),
        py.count == (match event {
            Event::ChunkDropped { count } => Some(count),
            _ => None,
        }),
        crate::types::text_view(py.message) == crate::bindings::node::event_message(event),
{
    let kind: String = word_for_event(&event);
    match event {
        Event::ChunkDropped { count } => PyStreamEvent { kind, count: Some(count), message: None },
        Event::Error(message) => PyStreamEvent { kind, count: None, message: Some(message) },
        _ => PyStreamEvent { kind, count: None, message: None },
    }
}

/// Python can ask for a microphone, the system or a process, by those words, and for nothing
/// else.
pub proof fn lemma_what_python_can_ask_for(word: Seq<char>)
    ensures
        kind_asked("mic"@) == Some(SourceKind::Mic),
        kind_asked("system"@) == Some(SourceKind::SystemLoopback),
        kind_asked("process"@) == Some(SourceKind::ProcessLoopback),
        kind_asked("mix"@) is None,
        kind_asked(word) is Some <==> word == "mic"@ || word == "system"@ || word == "process"@,
{
    crate::bindings::lemma_the_words_for_kinds(word);
    crate::bindings::lemma_words_go_round(SourceKind::Mix, word);
}

/// The arguments become the settings of the same name, and what cannot be chosen is the default.
pub proof fn lemma_arguments_become_settings(
    kind: &str,
    device_id: Option<String>,
    process_id: Option<u32>,
    mode: &str,
    exclude_self: bool,
    output_rate: u32,
    output_channels: u16,
    chunk_ms: u32,
    gain: Sample,
    r: Result<StreamConfig, PyError>,
)
    requires
        call_ensures(
            build_config,
            (
                kind,
                device_id,
                process_id,
                mode,
                exclude_self,
                output_rate,
                output_channels,
                chunk_ms,
                gain,
            ),
            r,
        ),
    ensures
        r is Ok <==> (kind@ == "mic"@ || kind@ == "system"@ || kind@ == "process"@) && (mode@
            == "include"@ || mode@ == "exclude"@),
        r matches Err(e) ==> e is Value,
        r matches Ok(c) ==> {
            &&& kind@ == "mic"@ ==> c@.kind == SourceKind::Mic
            &&& kind@ == "system"@ ==> c@.kind == SourceKind::SystemLoopback
            &&& kind@ == "process"@ ==> c@.kind == SourceKind::ProcessLoopback
            &&& mode@ == "include"@ ==> c@.mode == ProcessMode::Include
            &&& mode@ == "exclude"@ ==> c@.mode == ProcessMode::Exclude
            &&& c@.target_pid == process_id
            &&& c@.exclude_self == exclude_self
            &&& c@.output.sample_rate == output_rate
            &&& c@.output.channels == output_channels
            &&& c@.chunk_ms == chunk_ms
            &&& c@.gain == gain
            &&& device_id matches Some(t) ==> c@.device_id == Some(t@)
            &&& device_id is None ==> c@.device_id is None
            &&& c@.ring_capacity_chunks == 50
            &&& c@.mix_mic_gain == 0x3f80_0000 && c@.mix_system_gain == 0x3f80_0000
        },
{
    lemma_what_python_can_ask_for(kind@);
    crate::bindings::lemma_the_words_for_modes(mode@);
}

/// A wrong argument or format is a `ValueError`, anything else a `RuntimeError`, with the text of
/// the error.
pub proof fn lemma_errors_become_exceptions(error: Error, e: PyError)
    requires
        call_ensures(to_py_err, (error,), e),
    ensures
        e is Value <==> error is InvalidArg || error is UnsupportedFormat,
        e is Runtime <==> !(error is InvalidArg || error is UnsupportedFormat),
        e is Value ==> (e->Value_0)@ == error.text(),
        e is Runtime ==> (e->Runtime_0)@ == error.text(),
{
}

/// Truth values and optional things are shown as Python and Rust write them.
pub proof fn lemma_what_is_shown(s: Seq<char>)
    ensures
        bool_word(true) == "True"@,
        bool_word(false) == "False"@,
        optional_text(Some(s)) == "Some("@ + s + ")"@,
        optional_text(None) == "None"@,
{
}

/// Every event reaches Python under its word, with its full count and its message.
pub proof fn lemma_events_reach_python(event: Event, py: PyStreamEvent)
    requires
        call_ensures(event_to_py, (event,), py),
    ensures
        event is ChunkDropped ==> py.kind@ == "chunkDropped"@,
        event is StreamStalled ==> py.kind@ == "stalled"@,
        event is StreamRecovered ==> py.kind@ == "recovered"@,
        event is PermissionDenied ==> py.kind@ == "permissionDenied"@,
        event is DeviceLost ==> py.kind@ == "deviceLost"@,
        event is Error ==> py.kind@ == "error"@,
        event matches Event::ChunkDropped { count } ==> py.count == Some(count),
        event !is ChunkDropped ==> py.count is None,
        event matches Event::Error(m) ==> py.message is Some && (py.message->0)@ == m@,
        event !is Error ==> py.message is None,
{
}

/// Devices and chunks reach Python with everything that they have.
pub proof fn lemma_devices_and_chunks_reach_python(
    info: DeviceInfo,
    d: PyDeviceInfo,
    chunk: AudioChunk,
    c: PyAudioChunk,
)
    requires
        call_ensures(device_info_to_py, (info,), d),
        call_ensures(chunk_to_py, (chunk,), c),
    ensures
        d.id@ == info.id@ && d.name@ == info.name@,
        info.source_kind == SourceKind::Mic ==> d.source_kind@ == "mic"@,
        info.source_kind == SourceKind::SystemLoopback ==> d.source_kind@ == "system"@,
        d.sample_rate == info.sample_rate && d.channels == info.channels,
        d.is_loopback == info.is_loopback && d.is_default == info.is_default,
        c.samples@ == chunk.data@ && c.frames == chunk.frames && c.pts_ns == chunk.pts_ns,
        c.seq == chunk.seq && c.flags == chunk.flags.spec_bits(),
        c.dropped_before == chunk.dropped_before && c.peak == chunk.peak && c.rms == chunk.rms,
{
}

/// The bytes of a chunk are its samples, four each, the least significant first.
pub proof fn lemma_bytes_of_a_chunk(c: PyAudioChunk, bytes: Vec<u8>, k: int)
    requires
        call_ensures(PyAudioChunk::data, (&c,), bytes),
        0 <= k < c.samples@.len(),
    ensures
        bytes@.len() == 4 * c.samples@.len(),
        c.samples@[k] == bytes@[4 * k] + 0x100 * bytes@[4 * k + 1] + 0x1_0000 * bytes@[4 * k + 2]
            + 0x100_0000 * bytes@[4 * k + 3],
{
    crate::encode::lemma_bytes_give_samples_back(c.samples@, k);
}

} // verus!

//! The rules of the WASAPI backends: what an HRESULT means, which mix formats can be read, how
//! the capture loop goes from packet to packet, and what each way of setting up a capture
//! reports. The COM calls are outside.

use crate::backend::RawSink;
use crate::lifecycle::{Launch, ThreadLife};
use crate::sample::{Sample, ZERO};
use crate::text::{joined, owned, push_decimal};
use crate::types::{Error, ProcessMode};
use vstd::prelude::*;

verus! {

/// Rate of a loopback whose endpoint is not known, and of every process loopback.
pub const NATIVE_RATE: u32 = 48_000;

/// Channels of a loopback whose endpoint is not known, and of every process loopback.
pub const NATIVE_CHANNELS: u16 = 2;

/// `E_ACCESSDENIED`.
pub const E_ACCESSDENIED: u32 = 0x8007_0005;

/// `AUDCLNT_E_DEVICE_IN_USE`.
pub const AUDCLNT_E_DEVICE_IN_USE: u32 = 0x8889_000a;

/// `AUDCLNT_E_EXCLUSIVE_MODE_NOT_ALLOWED`.
pub const AUDCLNT_E_EXCLUSIVE_MODE_NOT_ALLOWED: u32 = 0x8889_000e;

/// `AUDCLNT_E_DEVICE_INVALIDATED`.
pub const AUDCLNT_E_DEVICE_INVALIDATED: u32 = 0x8889_0004;

/// `E_NOTFOUND`.
pub const E_NOTFOUND: u32 = 0x8007_0490;

/// `E_NOTIMPL`.
pub const E_NOTIMPL: u32 = 0x8000_4001;

/// `E_NOINTERFACE`.
pub const E_NOINTERFACE: u32 = 0x8000_4002;

/// An HRESULT as an unsigned number of 32 bits.
pub open spec fn unsigned_code(code: i32) -> int {
    if code < 0 {
        code + 0x1_0000_0000
    } else {
        code as int
    }
}

fn unsigned(code: i32) -> (u: u32)
    ensures
        u == unsigned_code(code),
{
    if code < 0 {
        (code as i64 + 0x1_0000_0000) as u32
    } else {
        code as u32
    }
}

/// Whether a code says that access is denied: by a privacy setting, because the device is in
/// use, or because exclusive use is not allowed.
pub open spec fn denies_access(code: i32) -> bool {
    unsigned_code(code) == E_ACCESSDENIED || unsigned_code(code) == AUDCLNT_E_DEVICE_IN_USE
        || unsigned_code(code) == AUDCLNT_E_EXCLUSIVE_MODE_NOT_ALLOWED
}

/// Whether a code says that the device is not there.
pub open spec fn misses_device(code: i32) -> bool {
    unsigned_code(code) == AUDCLNT_E_DEVICE_INVALIDATED || unsigned_code(code) == E_NOTFOUND
}

/// The error of a code that has a meaning of its own.
pub fn classify_hr(code: i32) -> (r: Option<Error>)
    ensures
        match r {
            Some(e) => (denies_access(code) && e is PermissionDenied) || (misses_device(code)
                && e is DeviceNotFound),
            None => !denies_access(code) && !misses_device(code),
        },
{
    let u: u32 = unsigned(code);
    if u == E_ACCESSDENIED || u == AUDCLNT_E_DEVICE_IN_USE || u
        == AUDCLNT_E_EXCLUSIVE_MODE_NOT_ALLOWED {
        Some(Error::PermissionDenied)
    } else if u == AUDCLNT_E_DEVICE_INVALIDATED || u == E_NOTFOUND {
        Some(Error::DeviceNotFound)
    } else {
        None
    }
}

/// Whether `e` is the error of a code that came up while doing `ctx`; `text` is the system's
/// own description.
pub open spec fn is_hr_error(e: Error, ctx: Seq<char>, code: i32, text: Seq<char>) -> bool {
    if denies_access(code) {
        e is PermissionDenied
    } else if misses_device(code) {
        e is DeviceNotFound
    } else {
        e matches Error::Backend(m) && m@ == ctx + ": "@ + text
    }
}

/// The error of a code.
pub fn map_hr(ctx: &str, code: i32, text: &str) -> (e: Error)
    ensures
        is_hr_error(e, ctx@, code, text@),
{
    match classify_hr(code) {
        Some(e) => e,
        None => {
            let mut m: String = joined(ctx, ": ");
            m.append(text);
            Error::Backend(m)
        },
    }
}

/// Whether a code is what a system too old for process loopback answers.
pub open spec fn is_too_old(code: i32) -> bool {
    unsigned_code(code) == E_NOTIMPL || unsigned_code(code) == E_NOINTERFACE
}

/// The error of a code that came up while activating a process loopback.
pub fn map_process_activation_err(ctx: &str, code: i32, text: &str) -> (e: Error)
    ensures
        if is_too_old(code) {
            e is UnsupportedOsVersion
        } else {
            is_hr_error(e, ctx@, code, text@)
        },
{
    let u: u32 = unsigned(code);
    if u == E_NOTIMPL || u == E_NOINTERFACE {
        Error::UnsupportedOsVersion
    } else {
        map_hr(ctx, code, text)
    }
}

/// The format tag of floating point samples.
pub const WAVE_FORMAT_IEEE_FLOAT: u16 = 3;

/// The format tag of a format that continues behind its header.
pub const WAVE_FORMAT_EXTENSIBLE: u16 = 0xfffe;

/// The sub-format of floating point samples, `00000003-0000-0010-8000-00aa00389b71`.
pub const SUBTYPE_IEEE_FLOAT: u128 = 0x0000_0003_0000_0010_8000_00aa_0038_9b71;

/// How far an extensible format continues at least.
pub const EXTENSION_SIZE: u16 = 22;

/// A wave format.
#[derive(Debug, Clone, Copy, PartialEq, Eq, Structural)]
pub struct WaveFormat {
    /// Format tag.
    pub tag: u16,
    /// Channels.
    pub channels: u16,
    /// Rate in Hz.
    pub rate: u32,
    /// Bytes per second.
    pub bytes_per_sec: u32,
    /// Bytes per frame.
    pub block_align: u16,
    /// Bits per sample.
    pub bits: u16,
    /// Bytes behind the header.
    pub extra: u16,
    /// The sub-format, where the format continues far enough; anything elsewhere.
    pub sub_format: u128,
}

impl WaveFormat {
    /// Whether its samples are floating point.
    pub open spec fn is_float(self) -> bool {
        self.tag == WAVE_FORMAT_IEEE_FLOAT || (self.tag == WAVE_FORMAT_EXTENSIBLE && self.extra
            >= EXTENSION_SIZE && self.sub_format == SUBTYPE_IEEE_FLOAT)
    }
}

/// Rate and channels of a mix format. Only floating point can be read.
pub fn parse_mix_format(format: Option<&WaveFormat>) -> (r: Result<(u32, u16), Error>)
    ensures
        match format {
            None => r matches Err(Error::Backend(m)) && m@ == "GetMixFormat returned null format"@,
            Some(f) => if f.is_float() {
                r == Ok::<(u32, u16), Error>((f.rate, f.channels))
            } else {
                r matches Err(Error::Backend(m)) && m@
                    == "unsupported mix format (not IEEE float): tag="@ + crate::text::decimal(
                    f.tag as nat,
                ) + " bits="@ + crate::text::decimal(f.bits as nat)
            },
        },
{
    match format {
        None => Err(Error::Backend(owned("GetMixFormat returned null format"))),
        Some(f) => {
            if f.tag == WAVE_FORMAT_IEEE_FLOAT || (f.tag == WAVE_FORMAT_EXTENSIBLE && f.extra
                >= EXTENSION_SIZE && f.sub_format == SUBTYPE_IEEE_FLOAT) {
                Ok((f.rate, f.channels))
            } else {
                let mut m: String = owned("unsupported mix format (not IEEE float): tag=");
                push_decimal(&mut m, f.tag as u64);
                m.append(" bits=");
                push_decimal(&mut m, f.bits as u64);
                Err(Error::Backend(m))
            }
        },
    }
}

/// The format of every process loopback.
pub fn fixed_process_format() -> (f: WaveFormat)
    ensures
        f.is_float(),
        f.rate == NATIVE_RATE,
        f.channels == NATIVE_CHANNELS,
        f.bits == 32,
        f.block_align == f.channels * f.bits / 8,
        f.bytes_per_sec == f.rate * f.block_align,
        f.extra == 0,
{
    WaveFormat {
        tag: WAVE_FORMAT_IEEE_FLOAT,
        channels: NATIVE_CHANNELS,
        rate: NATIVE_RATE,
        bytes_per_sec: 384_000,
        block_align: 8,
        bits: 32,
        extra: 0,
        sub_format: 0,
    }
}

/// What the capture loop does next.
#[derive(Debug, Clone, Copy, PartialEq, Eq, Structural)]
pub enum CaptureStep {
    /// Look whether it was told to stop. The loop begins with this.
    Look,
    /// Wait for the event, for 100 ms at most.
    Wait,
    /// Ask for the size of the next packet.
    AskSize,
    /// Fetch the packet.
    Fetch,
    /// Take the packet in, release it, and ask again.
    TakeIn,
    /// Stop the client and close the event.
    Finish,
}

/// What the capture loop learns.
#[derive(Debug, Clone, Copy, PartialEq, Eq, Structural)]
pub enum CaptureEvent {
    /// Nothing is left to take in; whether it was told to stop.
    Idle {
        /// Whether it was told to stop.
        stop: bool,
    },
    /// It woke up; whether it was told to stop.
    Woken {
        /// Whether it was told to stop.
        stop: bool,
    },
    /// The size of the next packet, where it could be told.
    Size(Option<u32>),
    /// Whether a packet could be fetched.
    Fetched(bool),
}

/// What follows an event. A device that fails ends the loop as a stop does.
pub open spec fn step_after(event: CaptureEvent) -> CaptureStep {
    match event {
        CaptureEvent::Idle { stop } => if stop {
            CaptureStep::Finish
        } else {
            CaptureStep::Wait
        },
        CaptureEvent::Woken { stop } => if stop {
            CaptureStep::Finish
        } else {
            CaptureStep::AskSize
        },
        CaptureEvent::Size(None) => CaptureStep::Finish,
        CaptureEvent::Size(Some(0)) => CaptureStep::Look,
        CaptureEvent::Size(Some(_)) => CaptureStep::Fetch,
        CaptureEvent::Fetched(true) => CaptureStep::TakeIn,
        CaptureEvent::Fetched(false) => CaptureStep::Finish,
    }
}

/// What the capture loop does after an event.
pub fn next_step(event: CaptureEvent) -> (step: CaptureStep)
    ensures
        step == step_after(event),
{
    match event {
        CaptureEvent::Idle { stop } => if stop {
            CaptureStep::Finish
        } else {
            CaptureStep::Wait
        },
        CaptureEvent::Woken { stop } => if stop {
            CaptureStep::Finish
        } else {
            CaptureStep::AskSize
        },
        CaptureEvent::Size(size) => match size {
            None => CaptureStep::Finish,
            Some(n) => if n == 0 {
                CaptureStep::Look
            } else {
                CaptureStep::Fetch
            },
        },
        CaptureEvent::Fetched(ok) => if ok {
            CaptureStep::TakeIn
        } else {
            CaptureStep::Finish
        },
    }
}

/// A loop that is told to stop finishes before it waits again, and after a wait before it
/// asks for a packet.
pub proof fn lemma_a_stop_is_seen(event: CaptureEvent)
    requires
        event matches CaptureEvent::Idle { stop } ==> stop,
        event matches CaptureEvent::Woken { stop } ==> stop,
        event is Idle || event is Woken,
    ensures
        step_after(event) == CaptureStep::Finish,
{
}

/// What takes packets in.
pub struct PacketSink {
    sink: RawSink,
    channels: usize,
    silence: Vec<Sample>,
}

/// `n` zeros.
pub open spec fn zeros(n: int) -> Seq<Sample> {
    Seq::new(n as nat, |i: int| ZERO)
}

impl PacketSink {
    /// Where it delivers.
    pub closed spec fn sink(self) -> RawSink {
        self.sink
    }

    /// Channels of a frame, at least 1.
    pub closed spec fn frame_channels(self) -> int {
        self.channels as int
    }

    /// What always holds.
    pub closed spec fn wf(self) -> bool {
        &&& 1 <= self.channels <= u16::MAX
        &&& forall|i: int| 0 <= i < self.silence@.len() ==> self.silence@[i] == ZERO
    }

    /// A sink for packets of this many channels; none count as one.
    pub fn new(sink: RawSink, channels: u16) -> (p: PacketSink)
        ensures
            p.wf(),
            p.sink() == sink,
            p.frame_channels() == (if channels == 0 {
                1
            } else {
                channels as int
            }),
    {
        let channels: usize = if channels == 0 {
            1
        } else {
            channels as usize
        };
        PacketSink { sink, channels, silence: Vec::new() }
    }

    /// Takes a packet of `frames` frames in. A silent one is delivered as zeros, whatever it
    /// holds, so that its time does not go missing; one without data is passed over. Returns
    /// how many samples were written, where any were delivered.
    pub fn on_packet(
        &mut self,
        silent: bool,
        frames: u32,
        data: Option<&[Sample]>,
        now_ns: i64,
    ) -> (written: Option<usize>)
        requires
            old(self).wf(),
            frames * old(self).frame_channels() <= usize::MAX,
            data matches Some(d) ==> d@.len() == frames * old(self).frame_channels(),
        ensures
            final(self).wf(),
            final(self).frame_channels() == old(self).frame_channels(),
            written is Some <==> frames > 0 && (silent || data is Some),
            match written {
                Some(n) => old(self).sink().push_relation(
                    if silent {
                        zeros(frames * old(self).frame_channels())
                    } else {
                        data->0@
                    },
                    final(self).sink(),
                    n as int,
                ),
                None => final(self).sink() == old(self).sink(),
            },
    {
        proof {
            let a = frames as int;
            let b = self.channels as int;
            assert(a * b >= 0 && (a > 0 ==> a * b > 0) && (a == 0 ==> a * b == 0)) by (
            nonlinear_arith)
                requires
                    a >= 0,
                    b >= 1,
            ;
        }
        let n: usize = (frames as usize) * self.channels;
        if silent {
            let ghost want = n as int;
            while self.silence.len() < n
                invariant
                    forall|i: int| 0 <= i < self.silence@.len() ==> self.silence@[i] == ZERO,
                    self.sink == old(self).sink,
                    self.channels == old(self).channels,
                decreases n - self.silence.len(),
            {
                self.silence.push(ZERO);
            }
            if n == 0 {
                return None;
            }
            let block: &[Sample] = vstd::slice::slice_subrange(self.silence.as_slice(), 0, n);
            assert(block@ =~= zeros(want));
            Some(self.sink.push(block, now_ns))
        } else {
            match data {
                Some(d) => if n > 0 {
                    Some(self.sink.push(d, now_ns))
                } else {
                    None
                },
                None => None,
            }
        }
    }
}

/// The steps of setting up a capture that can fail.
#[derive(Debug, Clone, Copy, PartialEq, Eq, Structural)]
pub enum SetupStep {
    /// Process loopback: make the event that tells of the activation.
    DoneEvent,
    /// Process loopback: ask for the activation.
    Activate,
    /// Process loopback: wait for it.
    Await,
    /// Process loopback: fetch its result.
    Result,
    /// Process loopback: the code of the result.
    ResultCode,
    /// Process loopback: the interface in the result.
    Interface,
    /// Process loopback: the interface of the right kind.
    Cast,
    /// System loopback: the list of endpoints.
    Enumerator,
    /// System loopback: the default endpoint.
    Endpoint,
    /// System loopback: its client.
    Client,
    /// System loopback: its format.
    MixFormat,
    /// Both: initialise the client.
    Initialize,
    /// Both: make the event that tells of packets.
    Event,
    /// Both: tie it to the client.
    SetEvent,
    /// Both: the capture service.
    Service,
}

/// What a step is called in a report.
pub open spec fn step_name(step: SetupStep) -> Seq<char> {
    match step {
        SetupStep::DoneEvent => "CreateEventW(activation done)"@,
        SetupStep::Activate => "ActivateAudioInterfaceAsync"@,
        SetupStep::Await => "process loopback activation timed out"@,
        SetupStep::Result => "GetActivateResult"@,
        SetupStep::ResultCode => "activation result HRESULT"@,
        SetupStep::Interface => "activation returned null interface"@,
        SetupStep::Cast => "cast activated IUnknown to IAudioClient"@,
        SetupStep::Enumerator => "CoCreateInstance(MMDeviceEnumerator)"@,
        SetupStep::Endpoint => ""@,
        SetupStep::Client => "IMMDevice::Activate(IAudioClient)"@,
        SetupStep::MixFormat => "IAudioClient::GetMixFormat"@,
        SetupStep::Initialize => "IAudioClient::Initialize"@,
        SetupStep::Event => "CreateEventW"@,
        SetupStep::SetEvent => "IAudioClient::SetEventHandle"@,
        SetupStep::Service => "IAudioClient::GetService(IAudioCaptureClient)"@,
    }
}

/// The error of a step that failed with a code and the system's description of it. Waiting and
/// a missing interface have none of their own; a missing endpoint is a missing device.
pub fn setup_error(step: SetupStep, code: i32, text: &str) -> (e: Error)
    ensures
        match step {
            SetupStep::Await | SetupStep::Interface => e matches Error::Backend(m) && m@
                == step_name(step),
            SetupStep::Endpoint => e is DeviceNotFound,
            SetupStep::Activate | SetupStep::ResultCode => if is_too_old(code) {
                e is UnsupportedOsVersion
            } else {
                is_hr_error(e, step_name(step), code, text@)
            },
            _ => is_hr_error(e, step_name(step), code, text@),
        },
{
    match step {
        SetupStep::DoneEvent => map_hr("CreateEventW(activation done)", code, text),
        SetupStep::Activate => map_process_activation_err(
            "ActivateAudioInterfaceAsync",
            code,
            text,
        ),
        SetupStep::Await => Error::Backend(owned("process loopback activation timed out")),
        SetupStep::Result => map_hr("GetActivateResult", code, text),
        SetupStep::ResultCode => map_process_activation_err(
            "activation result HRESULT",
            code,
            text,
        ),
        SetupStep::Interface => Error::Backend(owned("activation returned null interface")),
        SetupStep::Cast => map_hr("cast activated IUnknown to IAudioClient", code, text),
        SetupStep::Enumerator => map_hr("CoCreateInstance(MMDeviceEnumerator)", code, text),
        SetupStep::Endpoint => Error::DeviceNotFound,
        SetupStep::Client => map_hr("IMMDevice::Activate(IAudioClient)", code, text),
        SetupStep::MixFormat => map_hr("IAudioClient::GetMixFormat", code, text),
        SetupStep::Initialize => map_hr("IAudioClient::Initialize", code, text),
        SetupStep::Event => map_hr("CreateEventW", code, text),
        SetupStep::SetEvent => map_hr("IAudioClient::SetEventHandle", code, text),
        SetupStep::Service => map_hr("IAudioClient::GetService(IAudioCaptureClient)", code, text),
    }
}

/// How a system capture is set up.
#[derive(Debug, Clone, Copy, PartialEq, Eq, Structural)]
pub enum SystemLoopback {
    /// From the default endpoint.
    Endpoint,
    /// As a process loopback of this process and mode.
    Process(u32, ProcessMode),
}

/// Captures what the system plays.
#[derive(Debug)]
pub struct WasapiSystemBackend {
    exclude_self: bool,
    native: (u32, u16),
    life: ThreadLife,
}

impl WasapiSystemBackend {
    /// Whether this process is left out.
    pub closed spec fn excludes_self(self) -> bool {
        self.exclude_self
    }

    /// Rate and channels in which it delivers.
    pub closed spec fn format(self) -> (u32, u16) {
        self.native
    }

    /// Its thread.
    pub closed spec fn life(self) -> ThreadLife {
        self.life
    }

    /// A backend that does not run. `queried` is the format of the default endpoint, where there
    /// is one; a process loopback has its own.
    pub fn new(exclude_self: bool, queried: Option<(u32, u16)>) -> (b: WasapiSystemBackend)
        ensures
            b.excludes_self() == exclude_self,
            b.format() == (match queried {
                Some(f) if !exclude_self => f,
                _ => (NATIVE_RATE, NATIVE_CHANNELS),
            }),
            !b.life().running(),
    {
        let native: (u32, u16) = match queried {
            Some(f) if !exclude_self => f,
            _ => (NATIVE_RATE, NATIVE_CHANNELS),
        };
        WasapiSystemBackend { exclude_self, native, life: ThreadLife::new() }
    }

    /// Rate and channels in which it delivers.
    pub fn native_format(&self) -> (format: (u32, u16))
        ensures
            format == self.format(),
    {
        self.native
    }

    /// Starts: how to set up on a new thread, or nothing where the backend runs already. To
    /// leave this process out, everything but the process `own_pid` is captured.
    pub fn begin(&self, own_pid: u32) -> (plan: Option<SystemLoopback>)
        ensures
            plan == (if self.life().running() {
                None
            } else if self.excludes_self() {
                Some(SystemLoopback::Process(own_pid, ProcessMode::Exclude))
            } else {
                Some(SystemLoopback::Endpoint)
            }),
    {
        if !self.life.must_spawn() {
            None
        } else if self.exclude_self {
            Some(SystemLoopback::Process(own_pid, ProcessMode::Exclude))
        } else {
            Some(SystemLoopback::Endpoint)
        }
    }

    /// What to report of the launch.
    pub fn launched(&mut self, launch: Launch<Error>) -> (r: Result<(), Error>)
        requires
            !old(self).life().running(),
        ensures
            final(self).excludes_self() == old(self).excludes_self(),
            final(self).format() == old(self).format(),
            final(self).life().running() == (launch is Ready),
            match launch {
                Launch::Ready => r is Ok,
                Launch::Failed(e) => r == Err::<(), Error>(e),
                Launch::SpawnFailed(cause) => r matches Err(Error::Backend(m)) && m@
                    == crate::lifecycle::spawn_failed_text("wasapi system"@, cause@),
                Launch::Vanished => r matches Err(Error::Backend(m)) && m@
                    == crate::lifecycle::exited_text("wasapi system"@),
            },
    {
        self.life.launched(launch, "wasapi system")
    }

    /// Stops. Returns whether there is a thread to join.
    pub fn stop(&mut self) -> (join: bool)
        ensures
            final(self).excludes_self() == old(self).excludes_self(),
            final(self).format() == old(self).format(),
            join == old(self).life().running(),
            !final(self).life().running(),
    {
        self.life.stop()
    }
}

impl Default for WasapiSystemBackend {
    fn default() -> (b: WasapiSystemBackend)
        ensures
            !b.excludes_self(),
            b.format() == (NATIVE_RATE, NATIVE_CHANNELS),
            !b.life().running(),
    {
        WasapiSystemBackend::new(false, None)
    }
}

/// Captures what one process and its children play, or everything but that.
#[derive(Debug)]
pub struct WasapiProcessBackend {
    target_pid: u32,
    mode: ProcessMode,
    life: ThreadLife,
}

impl WasapiProcessBackend {
    /// The process, and what happens to it.
    pub closed spec fn target(self) -> (u32, ProcessMode) {
        (self.target_pid, self.mode)
    }

    /// Its thread.
    pub closed spec fn life(self) -> ThreadLife {
        self.life
    }

    /// A backend that does not run.
    pub fn new(target_pid: u32, mode: ProcessMode) -> (b: WasapiProcessBackend)
        ensures
            b.target() == (target_pid, mode),
            !b.life().running(),
    {
        WasapiProcessBackend { target_pid, mode, life: ThreadLife::new() }
    }

    /// The process.
    pub fn target_pid(&self) -> (pid: u32)
        ensures
            pid == self.target().0,
    {
        self.target_pid
    }

    /// What happens to it.
    pub fn mode(&self) -> (mode: ProcessMode)
        ensures
            mode == self.target().1,
    {
        self.mode
    }

    /// Rate and channels in which it delivers.
    pub fn native_format(&self) -> (format: (u32, u16))
        ensures
            format == (48_000u32, 2u16),
    {
        (NATIVE_RATE, NATIVE_CHANNELS)
    }

    /// Whether starting means to spawn the thread.
    pub fn must_spawn(&self) -> (r: bool)
        ensures
            r == !self.life().running(),
    {
        self.life.must_spawn()
    }

    /// What to report of the launch.
    pub fn launched(&mut self, launch: Launch<Error>) -> (r: Result<(), Error>)
        requires
            !old(self).life().running(),
        ensures
            final(self).target() == old(self).target(),
            final(self).life().running() == (launch is Ready),
            match launch {
                Launch::Ready => r is Ok,
                Launch::Failed(e) => r == Err::<(), Error>(e),
                Launch::SpawnFailed(cause) => r matches Err(Error::Backend(m)) && m@
                    == crate::lifecycle::spawn_failed_text("wasapi process"@, cause@),
                Launch::Vanished => r matches Err(Error::Backend(m)) && m@
                    == crate::lifecycle::exited_text("wasapi process"@),
            },
    {
        self.life.launched(launch, "wasapi process")
    }

    /// Stops. Returns whether there is a thread to join.
    pub fn stop(&mut self) -> (join: bool)
        ensures
            final(self).target() == old(self).target(),
            join == old(self).life().running(),
            !final(self).life().running(),
    {
        self.life.stop()
    }
}

/// Samples are floating point exactly where the tag says so, or where an extensible format of at
/// least 22 more bytes has the sub-format of floating point. So every extensible floating point
/// format is, and no other extensible one.
pub proof fn lemma_what_floating_point_formats_are(format: WaveFormat)
    ensures
        format.tag == 3 ==> format.is_float(),
        format.tag == 0xfffe && format.extra >= 22 && format.sub_format
            == 0x0000_0003_0000_0010_8000_00aa_0038_9b71u128 ==> format.is_float(),
        format.tag == 0xfffe && (format.extra < 22 || format.sub_format
            != 0x0000_0003_0000_0010_8000_00aa_0038_9b71u128) ==> !format.is_float(),
        format.tag != 3 && format.tag != 0xfffe ==> !format.is_float(),
{
}

/// Which codes are which errors: denied access, a device in use and exclusive use are a denied
/// permission, an invalidated device and a missing element a missing device, a call or an
/// interface that does not exist a system that is too old; no code is two of these.
pub proof fn lemma_codes_mean_what_they_are(code: i32)
    ensures
        denies_access(code) <==> code == -0x7ff8_fffb || code == -0x7776_fff6 || code
            == -0x7776_fff2,
        misses_device(code) <==> code == -0x7776_fffc || code == -0x7ff8_fb70,
        is_too_old(code) <==> code == -0x7fff_bfff || code == -0x7fff_bffe,
        !(denies_access(code) && misses_device(code)),
        !(is_too_old(code) && (denies_access(code) || misses_device(code))),
{
}

/// An error says what the code says, and otherwise what was being done and the system's words
/// for it.
pub proof fn lemma_errors_name_their_cause(e: Error, ctx: Seq<char>, code: i32, text: Seq<char>)
    requires
        is_hr_error(e, ctx, code, text),
    ensures
        e is PermissionDenied <==> code == -0x7ff8_fffb || code == -0x7776_fff6 || code
            == -0x7776_fff2,
        e is DeviceNotFound <==> code == -0x7776_fffc || code == -0x7ff8_fb70,
        e matches Error::Backend(m) ==> m@.take(ctx.len() as int) == ctx && m@.skip(
            m@.len() - text.len(),
        ) == text,
        e is PermissionDenied || e is DeviceNotFound || e is Backend,
{
    if let Error::Backend(m) = e {
        assert(m@.take(ctx.len() as int) =~= ctx);
        assert(m@.skip(m@.len() - text.len()) =~= text);
    }
}

/// The capture loop goes round: it waits when nothing is left, asks after it woke, fetches what
/// is there, takes in what it fetched, and ends only where it is told to or the device fails.
pub proof fn lemma_the_loop_goes_round(n: u32)
    ensures
        step_after(CaptureEvent::Idle { stop: false }) == CaptureStep::Wait,
        step_after(CaptureEvent::Woken { stop: false }) == CaptureStep::AskSize,
        n > 0 ==> step_after(CaptureEvent::Size(Some(n))) == CaptureStep::Fetch,
        step_after(CaptureEvent::Size(Some(0))) == CaptureStep::Look,
        step_after(CaptureEvent::Fetched(true)) == CaptureStep::TakeIn,
        forall|event: CaptureEvent|
            #[trigger] step_after(event) == CaptureStep::Finish <==> event == (CaptureEvent::Idle {
                stop: true,
            }) || event == (CaptureEvent::Woken { stop: true }) || event == CaptureEvent::Size(None)
                || event == CaptureEvent::Fetched(false),
{
}

/// Silence is nothing but zeros, as many as asked for.
pub proof fn lemma_silence_is_zeros(n: int, i: int)
    requires
        0 <= i < n,
    ensures
        zeros(n).len() == n,
        zeros(n)[i] == 0,
{
}

/// Whatever reading a mix format gives is its own rate and channels, and it gives them exactly
/// for floating point: by the tag, or by the sub-format of an extensible format that is long
/// enough to have one.
pub proof fn lemma_reading_gives_rate_and_channels(
    format: &WaveFormat,
    r: Result<(u32, u16), Error>,
)
    requires
        call_ensures(parse_mix_format, (Some(format),), r),
    ensures
        r is Ok <==> format.tag == 3 || (format.tag == 0xfffe && format.extra >= 22
            && format.sub_format == 0x0000_0003_0000_0010_8000_00aa_0038_9b71u128),
        r matches Ok(read) ==> read.0 == format.rate && read.1 == format.channels,
        r matches Err(e) ==> e is Backend,
{
}

/// A process loopback delivers two channels of floating point samples at 48000 Hz.
pub proof fn lemma_process_loopback_is_floating_point(f: WaveFormat)
    requires
        call_ensures(fixed_process_format, (), f),
    ensures
        f.is_float(),
        f.rate == 48_000,
        f.channels == 2,
        f.tag == 3,
        f.block_align == 8,
        f.bytes_per_sec == 384_000,
{
}

/// A step that fails is reported under its own name, unless the code has a meaning: only the
/// endpoint is a missing device whatever the code, only the activation of a process loopback
/// can tell that the system is too old, and a wait that ends and a missing interface have
/// reports of their own.
pub proof fn lemma_failed_steps_are_reported(step: SetupStep, code: i32, text: &str, e: Error)
    requires
        call_ensures(setup_error, (step, code, text), e),
    ensures
        step == SetupStep::Endpoint ==> e is DeviceNotFound,
        e is UnsupportedOsVersion <==> (step == SetupStep::Activate || step
            == SetupStep::ResultCode) && (code == -0x7fff_bfff || code == -0x7fff_bffe),
        step == SetupStep::Await ==> (e matches Error::Backend(m) && m@
            == "process loopback activation timed out"@),
        step == SetupStep::Interface ==> (e matches Error::Backend(m) && m@
            == "activation returned null interface"@),
        step != SetupStep::Endpoint && step != SetupStep::Await && step != SetupStep::Interface
            ==> (e is PermissionDenied <==> code == -0x7ff8_fffb || code == -0x7776_fff6 || code
            == -0x7776_fff2),
        step != SetupStep::Endpoint && step != SetupStep::Await && step != SetupStep::Interface
            ==> (e is DeviceNotFound <==> code == -0x7776_fffc || code == -0x7ff8_fb70),
        step == SetupStep::Initialize && e is Backend ==> e->Backend_0@
            == "IAudioClient::Initialize"@ + ": "@ + text@,
        step == SetupStep::Client && e is Backend ==> e->Backend_0@
            == "IMMDevice::Activate(IAudioClient)"@ + ": "@ + text@,
        step == SetupStep::MixFormat && e is Backend ==> e->Backend_0@
            == "IAudioClient::GetMixFormat"@ + ": "@ + text@,
        step == SetupStep::Service && e is Backend ==> e->Backend_0@
            == "IAudioClient::GetService(IAudioCaptureClient)"@ + ": "@ + text@,
        step == SetupStep::SetEvent && e is Backend ==> e->Backend_0@
            == "IAudioClient::SetEventHandle"@ + ": "@ + text@,
        step == SetupStep::Event && e is Backend ==> e->Backend_0@ == "CreateEventW"@ + ": "@
            + text@,
        step == SetupStep::Enumerator && e is Backend ==> e->Backend_0@
            == "CoCreateInstance(MMDeviceEnumerator)"@ + ": "@ + text@,
        step == SetupStep::Activate && e is Backend ==> e->Backend_0@
            == "ActivateAudioInterfaceAsync"@ + ": "@ + text@,
{
    lemma_codes_mean_what_they_are(code);
}

/// A system capture that leaves this process out is a process loopback of everything else, with
/// the fixed format; any other comes from the endpoint, with the endpoint's own format. A
/// backend that runs is not set up again.
pub proof fn lemma_what_a_system_capture_sets_up(
    exclude_self: bool,
    queried: Option<(u32, u16)>,
    b: WasapiSystemBackend,
    own_pid: u32,
    plan: Option<SystemLoopback>,
)
    requires
        call_ensures(WasapiSystemBackend::new, (exclude_self, queried), b),
        call_ensures(WasapiSystemBackend::begin, (&b, own_pid), plan),
    ensures
        exclude_self ==> plan == Some(SystemLoopback::Process(own_pid, ProcessMode::Exclude))
            && b.format() == (48_000u32, 2u16),
        !exclude_self ==> plan == Some(SystemLoopback::Endpoint),
        !exclude_self && queried is Some ==> b.format() == queried->0,
        !exclude_self && queried is None ==> b.format() == (48_000u32, 2u16),
{
}

/// A silent packet is delivered as zeros for all its frames, any other as what it holds, and a
/// packet without frames or without data is passed over.
pub proof fn lemma_packets_are_delivered(
    p: &mut PacketSink,
    silent: bool,
    frames: u32,
    data: Option<&[Sample]>,
    now_ns: i64,
    written: Option<usize>,
)
    requires
        old(p).wf(),
        call_ensures(PacketSink::on_packet, (p, silent, frames, data, now_ns), written),
    ensures
        written is Some <==> frames > 0 && (silent || data is Some),
        written is None ==> final(p).sink() == old(p).sink(),
        written is Some && silent ==> old(p).sink().push_relation(
            Seq::new((frames * old(p).frame_channels()) as nat, |i: int| 0u32),
            final(p).sink(),
            written->0 as int,
        ),
        written is Some && !silent ==> old(p).sink().push_relation(
            (data->0)@,
            final(p).sink(),
            written->0 as int,
        ),
{
    if silent {
        assert(zeros(frames * old(p).frame_channels()) =~= Seq::new(
            (frames * old(p).frame_channels()) as nat,
            |i: int| 0u32,
        ));
    }
}

} // verus!

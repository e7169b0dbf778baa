//! What the arguments mean: the source or the schedule of sources, and the settings of the
//! stream.

use crate::bindings::kind_named;
use crate::cli::words::{part, split, trim};
use crate::sample::Sample;
use crate::text::{joined, owned, parse_unsigned, push_decimal, quote, same_text};
use crate::types::{OutputFormat, ProcessMode, SourceKind, StreamConfig, StreamConfigView};
use vstd::prelude::*;

verus! {

/// The source on the command line.
#[derive(Debug, Clone, Copy, PartialEq, Eq, Structural)]
pub enum SourceArg {
    /// A recording device.
    Mic,
    /// Everything that the system plays.
    System,
    /// What one process plays.
    Process,
}

/// What happens to the target process.
#[derive(Debug, Clone, Copy, PartialEq, Eq, Structural)]
pub enum ModeArg {
    /// Record it only.
    Include,
    /// Record everything else.
    Exclude,
}

/// How samples are written to the standard output.
#[derive(Debug, Clone, Copy, PartialEq, Eq, Structural)]
pub enum EncodingArg {
    /// Floating point.
    F32,
    /// Signed 16-bit integers.
    S16,
}

/// The arguments.
#[derive(Debug)]
pub struct Cli {
    /// List the devices and end.
    pub list_devices: bool,
    /// Watch devices come and go.
    pub watch_devices: bool,
    /// The source.
    pub source: SourceArg,
    /// A schedule of sources, in place of the source and the seconds.
    pub sources: Option<String>,
    /// Target process.
    pub process_id: Option<u32>,
    /// Device to capture.
    pub device_id: Option<String>,
    /// What happens to the target process.
    pub mode: ModeArg,
    /// Leave out what this process plays.
    pub exclude_self: bool,
    /// Seconds to record; 0 for no end.
    pub seconds: u64,
    /// Path to write to; `-` for the standard output.
    pub out: String,
    /// How samples are written to the standard output.
    pub encoding: EncodingArg,
    /// Output rate.
    pub output_rate: u32,
    /// Output channels.
    pub output_channels: u16,
    /// Input gain.
    pub gain: Sample,
}

/// The mode that is meant.
pub open spec fn mode_of(mode: ModeArg) -> ProcessMode {
    match mode {
        ModeArg::Include => ProcessMode::Include,
        ModeArg::Exclude => ProcessMode::Exclude,
    }
}

/// The mode that is meant.
pub fn process_mode(mode: ModeArg) -> (r: ProcessMode)
    ensures
        r == mode_of(mode),
{
    match mode {
        ModeArg::Include => ProcessMode::Include,
        ModeArg::Exclude => ProcessMode::Exclude,
    }
}

impl Cli {
    /// Whether samples go to the standard output.
    pub open spec fn streams(self) -> bool {
        self.out@ == "-"@
    }

    /// Whether samples go to the standard output.
    pub fn is_stdout_stream(&self) -> (r: bool)
        ensures
            r == self.streams(),
    {
        same_text(self.out.as_str(), "-")
    }

    /// The output format that is asked for.
    pub open spec fn format(self) -> OutputFormat {
        OutputFormat { sample_rate: self.output_rate, channels: self.output_channels }
    }

    /// The output format that is asked for.
    pub fn output_format(&self) -> (format: OutputFormat)
        ensures
            format == self.format(),
    {
        OutputFormat { sample_rate: self.output_rate, channels: self.output_channels }
    }

    /// The stream settings for one kind of source; what cannot be chosen is the default.
    pub open spec fn config(self, kind: SourceKind) -> StreamConfigView {
        StreamConfigView {
            kind,
            output: self.format(),
            target_pid: self.process_id,
            mode: mode_of(self.mode),
            exclude_self: self.exclude_self,
            device_id: crate::types::text_view(self.device_id),
            gain: self.gain,
            ..crate::types::default_config()
        }
    }
}

/// The stream settings for one kind of source.
pub fn config_for_kind(cli: &Cli, kind: SourceKind) -> (config: StreamConfig)
    ensures
        config@ == cli.config(kind),
{
    let defaults: StreamConfig = StreamConfig::default();
    let device_id: Option<String> = match &cli.device_id {
        Some(id) => Some(id.clone()),
        None => None,
    };
    StreamConfig {
        device_id,
        kind,
        chunk_ms: defaults.chunk_ms,
        ring_capacity_chunks: defaults.ring_capacity_chunks,
        target_pid: cli.process_id,
        mode: process_mode(cli.mode),
        exclude_self: cli.exclude_self,
        output: cli.output_format(),
        gain: cli.gain,
        mix_mic_device_id: defaults.mix_mic_device_id,
        mix_system_device_id: defaults.mix_system_device_id,
        mix_mic_gain: defaults.mix_mic_gain,
        mix_system_gain: defaults.mix_system_gain,
    }
}

/// One part of a schedule.
#[derive(Debug, Clone, Copy, PartialEq, Eq, Structural)]
pub struct Segment {
    /// What is recorded.
    pub kind: SourceKind,
    /// For how many seconds.
    pub secs: u32,
}

/// The kind of source that a word of a schedule stands for. A mix cannot be scheduled.
pub open spec fn scheduled_kind(word: Seq<char>) -> Option<SourceKind> {
    match crate::bindings::kind_of_word(word) {
        Some(SourceKind::Mix) => None,
        kind => kind,
    }
}

/// What is said of a word of a schedule where what is played cannot be recorded.
pub open spec fn no_loopback(kind: SourceKind) -> Seq<char> {
    if kind == SourceKind::SystemLoopback {
        "--sources の system（システム出力ループバック）は現在 Linux / Windows / macOS のみ対応です。"@
    } else {
        "--sources の process（プロセス出力ループバック）は現在 Linux / Windows / macOS のみ対応です。"@
    }
}

/// What one item of a schedule says, or what is wrong with it: `index` counts from 0, and
/// `loopback` says whether what is played can be recorded on this system.
pub open spec fn item_meaning(raw: Seq<char>, index: nat, loopback: bool) -> Result<
    Segment,
    Seq<char>,
> {
    let item = crate::cli::words::trimmed(raw);
    if item.len() == 0 {
        Err(
            "--sources の "@ + crate::text::decimal(index + 1)
                + " 番目が空です（形式: <src>:<secs>、例 mic:2）"@,
        )
    } else {
        match crate::cli::words::parted(item, ':') {
            None => Err(
                "--sources の要素 "@ + crate::text::quoted(item)
                    + " は <src>:<secs> 形式である必要があります（例 mic:2）"@,
            ),
            Some((src, secs)) => {
                let word = crate::cli::words::trimmed(src);
                match scheduled_kind(word) {
                    None => Err(
                        "--sources の未知のソース "@ + crate::text::quoted(word)
                            + "（mic|system|process のいずれか）"@,
                    ),
                    Some(kind) => if kind != SourceKind::Mic && !loopback {
                        Err(no_loopback(kind))
                    } else {
                        match crate::text::numeral(
                            crate::cli::words::trimmed(secs),
                            u32::MAX as nat,
                        ) {
                            None => Err(
                                "--sources の秒数 "@ + crate::text::quoted(secs)
                                    + " は正の整数である必要があります（例 mic:2）"@,
                            ),
                            Some(n) => if n == 0 {
                                Err(
                                    "--sources の秒数は 1 以上である必要があります（要素 "@
                                        + crate::text::quoted(item) + "）"@,
                                )
                            } else {
                                Ok(Segment { kind, secs: n as u32 })
                            },
                        }
                    },
                }
            },
        }
    }
}

/// Reads one item of a schedule.
fn parse_item(raw: &str, index: usize, loopback: bool) -> (r: Result<Segment, String>)
    requires
        index < usize::MAX,
    ensures
        match r {
            Ok(s) => item_meaning(raw@, index as nat, loopback) == Ok::<Segment, Seq<char>>(s),
            Err(e) => item_meaning(raw@, index as nat, loopback) == Err::<Segment, Seq<char>>(e@),
        },
{
    let item: String = trim(raw);
    if same_text(item.as_str(), "") {
        proof {
            reveal_strlit("");
        }
        let mut text: String = owned("--sources の ");
        push_decimal(&mut text, (index + 1) as u64);
        text.append(" 番目が空です（形式: <src>:<secs>、例 mic:2）");
        return Err(text);
    }
    proof {
        reveal_strlit("");
        if item@.len() == 0 {
            assert(item@ =~= ""@);
        }
    }
    match part(item.as_str(), ':') {
        None => {
            let quoted: String = quote(item.as_str());
            let mut text: String = joined("--sources の要素 ", quoted.as_str());
            text.append(" は <src>:<secs> 形式である必要があります（例 mic:2）");
            Err(text)
        },
        Some((src, secs_text)) => {
            let word: String = trim(src.as_str());
            let kind: SourceKind = match kind_named(word.as_str()) {
                Some(kind) if kind != SourceKind::Mix => kind,
                _ => {
                    let quoted: String = quote(word.as_str());
                    let mut text: String = joined("--sources の未知のソース ", quoted.as_str());
                    text.append("（mic|system|process のいずれか）");
                    return Err(text);
                },
            };
            if !loopback {
                match kind {
                    SourceKind::Mic => {},
                    SourceKind::SystemLoopback => {
                        return Err(
                            owned(
                                "--sources の system（システム出力ループバック）は現在 Linux / Windows / macOS のみ対応です。",
                            ),
                        );
                    },
                    _ => {
                        return Err(
                            owned(
                                "--sources の process（プロセス出力ループバック）は現在 Linux / Windows / macOS のみ対応です。",
                            ),
                        );
                    },
                }
            }
            let number: String = trim(secs_text.as_str());
            match parse_unsigned(number.as_str(), u32::MAX) {
                None => {
                    let quoted: String = quote(secs_text.as_str());
                    let mut text: String = joined("--sources の秒数 ", quoted.as_str());
                    text.append(" は正の整数である必要があります（例 mic:2）");
                    Err(text)
                },
                Some(secs) => if secs == 0 {
                    let quoted: String = quote(item.as_str());
                    let mut text: String = joined(
                        "--sources の秒数は 1 以上である必要があります（要素 ",
                        quoted.as_str(),
                    );
                    text.append("）");
                    Err(text)
                } else {
                    Ok(Segment { kind, secs })
                },
            }
        },
    }
}

/// The items of a schedule.
pub open spec fn items(spec: Seq<char>) -> Seq<Seq<char>> {
    crate::cli::words::pieces(spec, ',')
}

/// Whether a schedule reads as these segments.
pub open spec fn reads_as(spec: Seq<char>, segments: Seq<Segment>, loopback: bool) -> bool {
    &&& segments.len() == items(spec).len()
    &&& segments.len() >= 1
    &&& forall|i: int|
        0 <= i < segments.len() ==> item_meaning(#[trigger] items(spec)[i], i as nat, loopback) == Ok::<
            Segment,
            Seq<char>,
        >(segments[i])
}

/// Whether a schedule is refused with this message.
pub open spec fn refused_with(spec: Seq<char>, message: Seq<char>, loopback: bool) -> bool {
    exists|i: int|
        {
            &&& 0 <= i < items(spec).len()
            &&& item_meaning(#[trigger] items(spec)[i], i as nat, loopback) == Err::<Segment, Seq<char>>(
                message,
            )
            &&& forall|j: int|
                0 <= j < i ==> item_meaning(#[trigger] items(spec)[j], j as nat, loopback) is Ok
        }
}

/// Reads a schedule: items `<src>:<secs>` with commas between them. The first item that is
/// wrong is reported.
pub fn parse_sources(spec: &str) -> (r: Result<Vec<Segment>, String>)
    ensures
        match r {
            Ok(segments) => reads_as(spec@, segments@, true),
            Err(e) => refused_with(spec@, e@, true),
        },
{
    parse_sources_where(spec, true)
}

/// Reads a schedule; `loopback` says whether what is played can be recorded on this system.
pub fn parse_sources_where(spec: &str, loopback: bool) -> (r: Result<Vec<Segment>, String>)
    ensures
        match r {
            Ok(segments) => reads_as(spec@, segments@, loopback),
            Err(e) => refused_with(spec@, e@, loopback),
        },
{
    let raw: Vec<String> = split(spec, ',');
    let n: usize = raw.len();
    let mut segments: Vec<Segment> = Vec::new();
    let mut i: usize = 0;
    while i < n
        invariant
            i <= n == raw@.len(),
            crate::cli::words::texts(raw@) == items(spec@),
            segments@.len() == i,
            forall|k: int|
                0 <= k < i ==> item_meaning(#[trigger] items(spec@)[k], k as nat, loopback) == Ok::<
                    Segment,
                    Seq<char>,
                >(segments@[k]),
        decreases n - i,
    {
        assert(items(spec@)[i as int] == raw@[i as int]@);
        match parse_item(raw[i].as_str(), i, loopback) {
            Ok(segment) => segments.push(segment),
            Err(e) => return Err(e),
        }
        i += 1;
    }
    Ok(segments)
}

/// Every part of a schedule lasts at least a second, and none is a mix. Where what is played
/// cannot be recorded, all of them are microphones.
pub proof fn lemma_scheduled_parts_last(raw: Seq<char>, index: nat, loopback: bool)
    requires
        item_meaning(raw, index, loopback) is Ok,
    ensures
        item_meaning(raw, index, loopback)->Ok_0.secs >= 1,
        item_meaning(raw, index, loopback)->Ok_0.kind != SourceKind::Mix,
        !loopback ==> item_meaning(raw, index, loopback)->Ok_0.kind == SourceKind::Mic,
{
}

/// What the arguments ask for.
#[derive(Debug)]
pub enum Plan {
    /// List the devices.
    ListDevices,
    /// Watch the devices.
    WatchDevices,
    /// Record, beginning with this kind of source; with a schedule, or for some seconds.
    Record {
        /// The first kind of source.
        kind: SourceKind,
        /// The schedule.
        segments: Option<Vec<Segment>>,
    },
}

/// The kind of source on the command line.
pub open spec fn source_of(source: SourceArg) -> SourceKind {
    match source {
        SourceArg::Mic => SourceKind::Mic,
        SourceArg::System => SourceKind::SystemLoopback,
        SourceArg::Process => SourceKind::ProcessLoopback,
    }
}

/// What is said where a schedule needs a process.
pub open spec fn schedule_needs_pid() -> Seq<char> {
    "--sources に process を含む場合は --process-id <PID> が必要です。"@
}

/// What is said where the source needs a process.
pub open spec fn source_needs_pid() -> Seq<char> {
    "--source process には --process-id <PID> が必要です。（対象プロセスの PID を指定してください。例: speaker-test を鳴らして得た PID）"@
}

/// What is said of a source where what is played cannot be recorded.
pub open spec fn source_needs_loopback(source: SourceArg) -> Seq<char> {
    if source == SourceArg::System {
        "--source system（システム出力ループバック）は現在 Linux / Windows / macOS のみ対応です。"@
    } else {
        "--source process（プロセス出力ループバック）は現在 Linux / Windows / macOS のみ対応です。"@
    }
}

/// What is said of an output format that is not supported.
pub open spec fn bad_format(format: OutputFormat) -> Seq<char> {
    "出力フォーマット "@ + crate::text::decimal(format.sample_rate as nat) + "Hz/"@
        + crate::text::decimal(format.channels as nat) + "ch は非対応です: "@
        + "unsupported output format: "@ + format.rejection()
}

/// Whether some part of a schedule records a process.
pub open spec fn has_process(segments: Seq<Segment>) -> bool {
    exists|i: int|
        0 <= i < segments.len() && (#[trigger] segments[i]).kind == SourceKind::ProcessLoopback
}

fn records_process(segments: &[Segment]) -> (r: bool)
    ensures
        r == has_process(segments@),
{
    let mut i: usize = 0;
    while i < segments.len()
        invariant
            i <= segments@.len(),
            forall|k: int|
                0 <= k < i ==> (#[trigger] segments@[k]).kind != SourceKind::ProcessLoopback,
        decreases segments.len() - i,
    {
        if segments[i].kind == SourceKind::ProcessLoopback {
            assert(segments@[i as int].kind == SourceKind::ProcessLoopback);
            return true;
        }
        i += 1;
    }
    false
}

/// A schedule that reads as segments is not refused, and reads as nothing else.
pub proof fn lemma_a_schedule_has_one_meaning(
    spec: Seq<char>,
    a: Seq<Segment>,
    b: Seq<Segment>,
    message: Seq<char>,
    loopback: bool,
)
    requires
        reads_as(spec, a, loopback),
    ensures
        reads_as(spec, b, loopback) ==> a == b,
        !refused_with(spec, message, loopback),
{
    if reads_as(spec, b, loopback) {
        assert forall|i: int| 0 <= i < a.len() implies a[i] == b[i] by {
            assert(item_meaning(items(spec)[i], i as nat, loopback) == Ok::<Segment, Seq<char>>(a[i]));
        }
        assert(a =~= b);
    }
    if refused_with(spec, message, loopback) {
        let i = choose|i: int|
            {
                &&& 0 <= i < items(spec).len()
                &&& item_meaning(#[trigger] items(spec)[i], i as nat, loopback) == Err::<Segment, Seq<char>>(
                    message,
                )
                &&& forall|j: int|
                    0 <= j < i ==> item_meaning(#[trigger] items(spec)[j], j as nat, loopback) is Ok
            };
        assert(item_meaning(items(spec)[i], i as nat, loopback) == Ok::<Segment, Seq<char>>(a[i]));
    }
}

impl Cli {
    /// Whether this is what the arguments ask for, or why they are refused, on a system where
    /// `loopback` says whether what is played can be recorded. Listing and watching come first
    /// and look at nothing else. A schedule takes the place of the source and begins with its
    /// first part; a process needs its id. The output format is checked last.
    pub open spec fn asks_for(self, r: Result<Plan, String>, loopback: bool) -> bool {
        if self.list_devices {
            r matches Ok(Plan::ListDevices)
        } else if self.watch_devices {
            r matches Ok(Plan::WatchDevices)
        } else {
            match r {
                Ok(Plan::Record { kind, segments }) => {
                    &&& self.format().supported()
                    &&& match self.sources {
                        Some(spec) => {
                            &&& segments matches Some(s)
                            &&& reads_as(spec@, s@, loopback)
                            &&& kind == s@[0].kind
                            &&& has_process(s@) ==> self.process_id is Some
                        },
                        None => {
                            &&& segments is None
                            &&& kind == source_of(self.source)
                            &&& self.source == SourceArg::Process ==> self.process_id is Some
                            &&& self.source != SourceArg::Mic ==> loopback
                        },
                    }
                },
                Ok(_) => false,
                Err(e) => {
                    let bad = !self.format().supported() && e@ == bad_format(self.format());
                    match self.sources {
                        Some(spec) => {
                            ||| refused_with(spec@, e@, loopback)
                            ||| exists|s: Seq<Segment>| #[trigger]
                                reads_as(spec@, s, loopback) && (if has_process(s)
                                    && self.process_id is None {
                                    e@ == schedule_needs_pid()
                                } else {
                                    bad
                                })
                        },
                        None => if self.source == SourceArg::Process && self.process_id is None {
                            e@ == source_needs_pid()
                        } else if self.source != SourceArg::Mic && !loopback {
                            e@ == source_needs_loopback(self.source)
                        } else {
                            bad
                        },
                    }
                },
            }
        }
    }
}

/// Works out what the arguments ask for where everything can be recorded.
pub fn plan(cli: &Cli) -> (r: Result<Plan, String>)
    ensures
        cli.asks_for(r, true),
{
    plan_where(cli, true)
}

/// Works out what the arguments ask for; `loopback` says whether what is played can be
/// recorded on this system.
pub fn plan_where(cli: &Cli, loopback: bool) -> (r: Result<Plan, String>)
    ensures
        cli.asks_for(r, loopback),
{
    if cli.list_devices {
        return Ok(Plan::ListDevices);
    }
    if cli.watch_devices {
        return Ok(Plan::WatchDevices);
    }
    let segments: Option<Vec<Segment>> = match &cli.sources {
        None => None,
        Some(spec) => match parse_sources_where(spec.as_str(), loopback) {
            Err(e) => return Err(e),
            Ok(segments) => {
                assert(reads_as(spec@, segments@, loopback));
                if records_process(segments.as_slice()) && cli.process_id.is_none() {
                    return Err(
                        owned("--sources に process を含む場合は --process-id <PID> が必要です。"),
                    );
                }
                Some(segments)
            },
        },
    };
    let kind: SourceKind = match &segments {
        Some(segments) => segments[0].kind,
        None => match cli.source {
            SourceArg::Mic => SourceKind::Mic,
            SourceArg::System => {
                if !loopback {
                    return Err(
                        owned(
                            "--source system（システム出力ループバック）は現在 Linux / Windows / macOS のみ対応です。",
                        ),
                    );
                }
                SourceKind::SystemLoopback
            },
            SourceArg::Process => {
                if cli.process_id.is_none() {
                    return Err(
                        owned(
                            "--source process には --process-id <PID> が必要です。（対象プロセスの PID を指定してください。例: speaker-test を鳴らして得た PID）",
                        ),
                    );
                }
                if !loopback {
                    return Err(
                        owned(
                            "--source process（プロセス出力ループバック）は現在 Linux / Windows / macOS のみ対応です。",
                        ),
                    );
                }
                SourceKind::ProcessLoopback
            },
        },
    };
    let format: OutputFormat = cli.output_format();
    match format.validate() {
        Ok(_) => Ok(Plan::Record { kind, segments }),
        Err(e) => {
            let why: String = e.message();
            let mut text: String = owned("出力フォーマット ");
            push_decimal(&mut text, format.sample_rate as u64);
            text.append("Hz/");
            push_decimal(&mut text, format.channels as u64);
            text.append("ch は非対応です: ");
            text.append(why.as_str());
            assert(text@ =~= bad_format(format));
            Err(text)
        },
    }
}

/// The sources and modes of the command line mean the ones of the same name.
pub proof fn lemma_arguments_mean_the_same()
    ensures
        source_of(SourceArg::Mic) == SourceKind::Mic,
        source_of(SourceArg::System) == SourceKind::SystemLoopback,
        source_of(SourceArg::Process) == SourceKind::ProcessLoopback,
        mode_of(ModeArg::Include) == ProcessMode::Include,
        mode_of(ModeArg::Exclude) == ProcessMode::Exclude,
        scheduled_kind("mic"@) == Some(SourceKind::Mic),
        scheduled_kind("system"@) == Some(SourceKind::SystemLoopback),
        scheduled_kind("process"@) == Some(SourceKind::ProcessLoopback),
        scheduled_kind("mix"@) is None,
{
    crate::bindings::lemma_the_words_for_kinds("mix"@);
}

/// The settings of a stream are those on the command line, each for itself.
pub proof fn lemma_arguments_become_settings(cli: Cli, kind: SourceKind)
    ensures
        ({
            let c = cli.config(kind);
            &&& c.kind == kind
            &&& c.output.sample_rate == cli.output_rate && c.output.channels == cli.output_channels
            &&& c.target_pid == cli.process_id
            &&& c.mode == ProcessMode::Exclude <==> cli.mode == ModeArg::Exclude
            &&& c.exclude_self == cli.exclude_self
            &&& c.gain == cli.gain
            &&& cli.device_id matches Some(id) ==> c.device_id == Some(id@)
            &&& cli.device_id is None ==> c.device_id is None
            &&& c.chunk_ms == 20 && c.ring_capacity_chunks == 50
            &&& cli.streams() <==> cli.out@ == "-"@
        }),
{
}

proof fn lemma_no_space_in(s: Seq<char>)
    requires
        s == "mic"@ || s == "system"@ || s == "process"@,
    ensures
        s.len() > 0,
        !crate::cli::words::is_space(s[0]) && !crate::cli::words::is_space(s.last()),
        !s.contains(':'),
        !s.contains(','),
{
    reveal_strlit("mic");
    reveal_strlit("system");
    reveal_strlit("process");
}

/// An item of a schedule that names a source and a number of seconds, with a colon between them,
/// is that source for that long, wherever white space stands; seconds of 0 are refused, and so
/// are more than 32 bits hold.
pub proof fn lemma_items_say_source_and_seconds(
    word: Seq<char>,
    kind: SourceKind,
    n: nat,
    index: nat,
)
    requires
        (word == "mic"@ && kind == SourceKind::Mic) || (word == "system"@ && kind
            == SourceKind::SystemLoopback) || (word == "process"@ && kind
            == SourceKind::ProcessLoopback),
    ensures
        ({
            let item = word + seq![':'] + crate::text::decimal(n);
            &&& 1 <= n <= u32::MAX ==> item_meaning(item, index, true) == Ok::<Segment, Seq<char>>(
                Segment { kind, secs: n as u32 },
            ) && item_meaning(seq![' '] + item + seq![' '], index, true) == item_meaning(
                item,
                index,
                true,
            )
            &&& n == 0 || n > u32::MAX ==> item_meaning(item, index, true) is Err
            &&& kind != SourceKind::Mic ==> item_meaning(item, index, false) is Err
            &&& kind == SourceKind::Mic ==> item_meaning(item, index, false) == item_meaning(
                item,
                index,
                true,
            )
        }),
{
    let digits = crate::text::decimal(n);
    let item = word + seq![':'] + digits;
    let none = Seq::<char>::empty();
    lemma_no_space_in(word);
    crate::bindings::lemma_the_words_for_kinds(word);
    crate::text::lemma_decimals_read_back(n);
    crate::text::lemma_digits_are_read(digits, u32::MAX as nat);
    assert('0' <= digits[0] <= '9' && '0' <= digits[digits.len() - 1] <= '9');
    crate::cli::words::lemma_only_white_space_is_trimmed(none, word, none);
    assert(none + word + none =~= word);
    crate::cli::words::lemma_only_white_space_is_trimmed(none, digits, none);
    assert(none + digits + none =~= digits);
    assert(item[0] == word[0] && item.last() == digits.last());
    crate::cli::words::lemma_only_white_space_is_trimmed(none, item, none);
    assert(none + item + none =~= item);
    crate::cli::words::lemma_only_white_space_is_trimmed(seq![' '], item, seq![' ']);
    crate::cli::words::lemma_texts_are_parted(word, ':', digits);
}

/// An item with any other source, without a colon or without anything is refused.
pub proof fn lemma_other_items_are_refused(
    word: Seq<char>,
    rest: Seq<char>,
    index: nat,
    loopback: bool,
)
    requires
        !word.contains(':'),
        word.len() > 0,
        !crate::cli::words::is_space(word[0]) && !crate::cli::words::is_space(word.last()),
        word != "mic"@ && word != "system"@ && word != "process"@,
        rest.len() > 0 ==> !crate::cli::words::is_space(rest.last()),
    ensures
        item_meaning(word + seq![':'] + rest, index, loopback) is Err,
        item_meaning(word, index, loopback) is Err,
        item_meaning(Seq::<char>::empty(), index, loopback) is Err,
{
    let item = word + seq![':'] + rest;
    let none = Seq::<char>::empty();
    crate::bindings::lemma_the_words_for_kinds(word);
    crate::cli::words::lemma_only_white_space_is_trimmed(none, word, none);
    assert(none + word + none =~= word);
    assert(item[0] == word[0]);
    assert(item.last() == (if rest.len() > 0 {
        rest.last()
    } else {
        ':'
    }));
    crate::cli::words::lemma_only_white_space_is_trimmed(none, item, none);
    assert(none + item + none =~= item);
    crate::cli::words::lemma_only_white_space_is_trimmed(none, none, none);
    assert(none + none + none =~= none);
    crate::cli::words::lemma_texts_are_parted(word, ':', rest);
}

/// A schedule is read item by item: one item without a comma is a schedule of one part, and one
/// more item behind a comma is one more part.
pub proof fn lemma_schedules_are_read_item_by_item(
    spec: Seq<char>,
    item: Seq<char>,
    segments: Seq<Segment>,
    part: Segment,
    loopback: bool,
)
    requires
        !item.contains(','),
    ensures
        item_meaning(item, 0, loopback) == Ok::<Segment, Seq<char>>(part) ==> reads_as(
            item,
            seq![part],
            loopback,
        ),
        reads_as(spec, segments, loopback) && item_meaning(
            item,
            segments.len(),
            loopback,
        ) == Ok::<Segment, Seq<char>>(part) ==> reads_as(
            spec + seq![','] + item,
            segments.push(part),
            loopback,
        ),
        items(spec + seq![','] + item) == items(spec).push(item),
        items(item) == seq![item],
{
    crate::cli::words::lemma_one_piece(item, ',');
    crate::cli::words::lemma_another_piece(spec, ',', item);
}

/// Listing comes before watching and watching before recording. A recording without a schedule
/// takes the source that was named; it needs a supported format, a process its id, and anything
/// but a microphone a system on which what is played can be recorded.
pub proof fn lemma_what_the_arguments_ask_for(cli: &Cli, loopback: bool, r: Result<Plan, String>)
    requires
        call_ensures(plan_where, (cli, loopback), r),
    ensures
        cli.list_devices ==> r is Ok && r->Ok_0 is ListDevices,
        !cli.list_devices && cli.watch_devices ==> r is Ok && r->Ok_0 is WatchDevices,
        !cli.list_devices && !cli.watch_devices && cli.sources is None ==> {
            let supported = (cli.output_channels == 1 || cli.output_channels == 2) && 4_000
                <= cli.output_rate <= 384_000;
            let known = cli.source == SourceArg::Process ==> cli.process_id is Some;
            let possible = cli.source == SourceArg::Mic || loopback;
            &&& r is Ok <==> supported && known && possible
            &&& r is Ok ==> r->Ok_0 is Record && (r->Ok_0)->segments is None
            &&& r is Ok && cli.source == SourceArg::Mic ==> (r->Ok_0)->kind == SourceKind::Mic
            &&& r is Ok && cli.source == SourceArg::System ==> (r->Ok_0)->kind
                == SourceKind::SystemLoopback
            &&& r is Ok && cli.source == SourceArg::Process ==> (r->Ok_0)->kind
                == SourceKind::ProcessLoopback
        },
{
}

/// A recording with a schedule begins with its first part and goes through all of them; it needs
/// a supported format, and the id of a process where a part records one.
pub proof fn lemma_what_a_schedule_asks_for(
    cli: &Cli,
    spec: String,
    segments: Seq<Segment>,
    loopback: bool,
    r: Result<Plan, String>,
)
    requires
        call_ensures(plan_where, (cli, loopback), r),
        !cli.list_devices && !cli.watch_devices,
        cli.sources == Some(spec),
        reads_as(spec@, segments, loopback),
    ensures
        ({
            let supported = (cli.output_channels == 1 || cli.output_channels == 2) && 4_000
                <= cli.output_rate <= 384_000;
            let process = exists|i: int|
                0 <= i < segments.len() && (#[trigger] segments[i]).kind
                    == SourceKind::ProcessLoopback;
            &&& r is Ok <==> supported && (process ==> cli.process_id is Some)
            &&& r is Ok ==> r->Ok_0 is Record && (r->Ok_0)->segments is Some && (
            (r->Ok_0)->segments->0)@ == segments && (r->Ok_0)->kind == segments[0].kind
        }),
{
    match r {
        Ok(Plan::Record { kind, segments: Some(s) }) => {
            lemma_a_schedule_has_one_meaning(spec@, segments, s@, spec@, loopback);
        },
        Ok(_) => {},
        Err(e) => {
            lemma_a_schedule_has_one_meaning(spec@, segments, segments, e@, loopback);
            let s = choose|s: Seq<Segment>| #[trigger]
                reads_as(spec@, s, loopback) && (if has_process(s) && cli.process_id is None {
                    e@ == schedule_needs_pid()
                } else {
                    !cli.format().supported() && e@ == bad_format(cli.format())
                });
            lemma_a_schedule_has_one_meaning(spec@, segments, s, e@, loopback);
        },
    }
}

/// An item that is refused is told why: that it is empty, counted from 1, that it has no colon,
/// that its source is none, that its seconds are no number, or that they are 0.
pub proof fn lemma_refused_items_are_told_why(word: Seq<char>, rest: Seq<char>, index: nat)
    requires
        word.len() > 0,
        !word.contains(':'),
        !crate::cli::words::is_space(word[0]) && !crate::cli::words::is_space(word.last()),
        rest.len() > 0,
        !crate::cli::words::is_space(rest[0]) && !crate::cli::words::is_space(rest.last()),
    ensures
        ({
            let item = word + seq![':'] + rest;
            let known = word == "mic"@ || word == "system"@ || word == "process"@;
            let n = crate::text::numeral(rest, u32::MAX as nat);
            &&& item_meaning(Seq::<char>::empty(), index, true) == Err::<Segment, Seq<char>>(
                "--sources の "@ + crate::text::decimal(index + 1)
                    + " 番目が空です（形式: <src>:<secs>、例 mic:2）"@,
            )
            &&& item_meaning(word, index, true) == Err::<Segment, Seq<char>>(
                "--sources の要素 "@ + crate::text::quoted(word)
                    + " は <src>:<secs> 形式である必要があります（例 mic:2）"@,
            )
            &&& !known ==> item_meaning(item, index, true) == Err::<Segment, Seq<char>>(
                "--sources の未知のソース "@ + crate::text::quoted(word)
                    + "（mic|system|process のいずれか）"@,
            )
            &&& known && n is None ==> item_meaning(item, index, true) == Err::<Segment, Seq<char>>(
                "--sources の秒数 "@ + crate::text::quoted(rest)
                    + " は正の整数である必要があります（例 mic:2）"@,
            )
            &&& known && n == Some(0nat) ==> item_meaning(item, index, true) == Err::<
                Segment,
                Seq<char>,
            >(
                "--sources の秒数は 1 以上である必要があります（要素 "@ + crate::text::quoted(item)
                    + "）"@,
            )
        }),
{
    let item = word + seq![':'] + rest;
    let none = Seq::<char>::empty();
    crate::bindings::lemma_the_words_for_kinds(word);
    crate::bindings::lemma_words_go_round(SourceKind::Mix, word);
    crate::cli::words::lemma_only_white_space_is_trimmed(none, word, none);
    assert(none + word + none =~= word);
    crate::cli::words::lemma_only_white_space_is_trimmed(none, rest, none);
    assert(none + rest + none =~= rest);
    assert(item[0] == word[0] && item.last() == rest.last());
    crate::cli::words::lemma_only_white_space_is_trimmed(none, item, none);
    assert(none + item + none =~= item);
    crate::cli::words::lemma_only_white_space_is_trimmed(none, none, none);
    assert(none + none + none =~= none);
    crate::cli::words::lemma_texts_are_parted(word, ':', rest);
}

/// A source that is refused is told why: a process without its id before anything else, and then
/// a system on which what is played cannot be recorded.
pub proof fn lemma_refused_sources_are_told_why(cli: &Cli, loopback: bool, r: Result<Plan, String>)
    requires
        call_ensures(plan_where, (cli, loopback), r),
        !cli.list_devices && !cli.watch_devices && cli.sources is None,
    ensures
        cli.source == SourceArg::Process && cli.process_id is None ==> r is Err && (r->Err_0)@
            == "--source process には --process-id <PID> が必要です。（対象プロセスの PID を指定してください。例: speaker-test を鳴らして得た PID）"@,
        cli.source == SourceArg::Process && cli.process_id is Some && !loopback ==> r is Err && (
        r->Err_0)@
            == "--source process（プロセス出力ループバック）は現在 Linux / Windows / macOS のみ対応です。"@,
        cli.source == SourceArg::System && !loopback ==> r is Err && (r->Err_0)@
            == "--source system（システム出力ループバック）は現在 Linux / Windows / macOS のみ対応です。"@,
        cli.source == SourceArg::Mic && r is Err ==> (r->Err_0)@ == "出力フォーマット "@
            + crate::text::decimal(cli.output_rate as nat) + "Hz/"@ + crate::text::decimal(
            cli.output_channels as nat,
        ) + "ch は非対応です: "@ + "unsupported output format: "@ + cli.format().rejection(),
{
}

} // verus!

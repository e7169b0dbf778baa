//! What the tool writes: samples as bytes, and lines of text.

use crate::arith::to_i16;
use crate::cli::args::{Cli, EncodingArg, Segment};
use crate::cli::words::{push_left_aligned, push_right_aligned, truncate};
use crate::encode::{little_endian, little_endian_shorts};
use crate::sample::{absolute, below, Sample, ZERO};
use crate::text::{joined, owned, push_decimal};
use crate::types::{AudioChunk, DeviceEvent, DeviceInfo, Error, OutputFormat, SourceKind};
use vstd::prelude::*;

verus! {

/// The short label of a kind of source.
pub fn source_kind_label(kind: SourceKind) -> (label: &'static str)
    ensures
        label@ == crate::bindings::kind_word(kind),
{
    match kind {
        SourceKind::Mic => "mic",
        SourceKind::SystemLoopback => "system",
        SourceKind::ProcessLoopback => "process",
        SourceKind::Mix => "mix",
    }
}

/// What an error is told as.
pub open spec fn error_words(error: Error) -> Seq<char> {
    match error {
        Error::DeviceNotFound => "指定したデバイス／エンドポイントが見つかりません。`--list-devices` の ID を確認してください。"@,
        Error::PermissionDenied => "マイクへのアクセス権限がありません。OS のマイク権限設定を確認してください。"@,
        Error::DeviceLost => "キャプチャ中に入力デバイスが失われました（切断など）。"@,
        _ => "ストリーム初期化に失敗しました: "@ + error.text(),
    }
}

/// Tells of an error.
pub fn describe_error(error: Error) -> (text: String)
    ensures
        text@ == error_words(error),
{
    match error {
        Error::DeviceNotFound => owned(
            "指定したデバイス／エンドポイントが見つかりません。`--list-devices` の ID を確認してください。",
        ),
        Error::PermissionDenied => owned(
            "マイクへのアクセス権限がありません。OS のマイク権限設定を確認してください。",
        ),
        Error::DeviceLost => owned("キャプチャ中に入力デバイスが失われました（切断など）。"),
        other => {
            let message: String = other.message();
            joined("ストリーム初期化に失敗しました: ", message.as_str())
        },
    }
}

/// What is written of a chunk.
pub open spec fn encoded(samples: Seq<Sample>, encoding: EncodingArg) -> Seq<u8> {
    match encoding {
        EncodingArg::F32 => crate::encode::bytes_of(samples),
        EncodingArg::S16 => crate::encode::short_bytes_of(samples),
    }
}

/// The bytes of a chunk, to be written at once.
pub fn write_chunk(chunk: &AudioChunk, encoding: EncodingArg) -> (bytes: Vec<u8>)
    ensures
        bytes@ == encoded(chunk.data@, encoding),
{
    match encoding {
        EncodingArg::F32 => little_endian(chunk.data.as_slice()),
        EncodingArg::S16 => little_endian_shorts(chunk.data.as_slice()),
    }
}

/// All samples of some chunks, one after the other.
pub open spec fn all_samples(chunks: Seq<AudioChunk>) -> Seq<Sample>
    decreases chunks.len(),
{
    if chunks.len() == 0 {
        seq![]
    } else {
        all_samples(chunks.drop_last()) + chunks.last().data@
    }
}

/// The largest absolute value of some samples; a NaN is passed over.
pub open spec fn peak_of(samples: Seq<Sample>) -> Sample
    decreases samples.len(),
{
    if samples.len() == 0 {
        ZERO
    } else {
        let before = peak_of(samples.drop_last());
        let last = crate::sample::magnitude(samples.last()) as Sample;
        if crate::sample::lt_value(before, last) {
            last
        } else {
            before
        }
    }
}

/// No sample lies above the peak, and the peak is the absolute value of one of them or 0.
pub proof fn lemma_peak_is_the_largest(samples: Seq<Sample>, k: int)
    requires
        0 <= k < samples.len(),
    ensures
        !crate::sample::lt_value(
            peak_of(samples),
            crate::sample::magnitude(samples[k]) as Sample,
        ),
        !crate::sample::is_nan(peak_of(samples)),
        peak_of(samples) == ZERO || exists|i: int|
            0 <= i < samples.len() && crate::sample::magnitude(#[trigger] samples[i])
                == peak_of(samples),
    decreases samples.len(),
{
    let before = samples.drop_last();
    if before.len() > 0 {
        let j = if k < before.len() {
            k
        } else {
            0
        };
        lemma_peak_is_the_largest(before, j);
        if peak_of(before) != ZERO {
            let i = choose|i: int|
                0 <= i < before.len() && crate::sample::magnitude(#[trigger] before[i]) == peak_of(
                    before,
                );
            assert(samples[i] == before[i]);
        }
    } else {
        assert(peak_of(before) == ZERO);
    }
    assert(crate::sample::magnitude(samples.last()) as Sample == crate::sample::magnitude(
        samples.last(),
    ));
    assert(samples[samples.len() - 1] == samples.last());
}

/// What a sound file is made of: its samples as 16-bit integers, and their peak.
#[derive(Debug, PartialEq, Eq)]
pub struct WavData {
    /// The samples.
    pub samples: Vec<i16>,
    /// Their peak.
    pub peak: Sample,
    /// How many frames the chunks hold.
    pub frames: usize,
}

/// How many frames some chunks hold.
pub open spec fn total_frames(chunks: Seq<AudioChunk>) -> int
    decreases chunks.len(),
{
    if chunks.len() == 0 {
        0
    } else {
        total_frames(chunks.drop_last()) + chunks.last().frames
    }
}

proof fn lemma_frames_grow(chunks: Seq<AudioChunk>, k: int)
    requires
        0 <= k <= chunks.len(),
    ensures
        0 <= total_frames(chunks.take(k)) <= total_frames(chunks),
    decreases chunks.len() - k,
{
    lemma_frames_are_natural(chunks.take(k));
    if k < chunks.len() {
        lemma_frames_grow(chunks, k + 1);
        assert(chunks.take(k + 1).drop_last() =~= chunks.take(k));
    } else {
        assert(chunks.take(k) =~= chunks);
    }
}

proof fn lemma_frames_are_natural(chunks: Seq<AudioChunk>)
    ensures
        0 <= total_frames(chunks),
    decreases chunks.len(),
{
    if chunks.len() > 0 {
        lemma_frames_are_natural(chunks.drop_last());
    }
}

/// The samples of a sound file, as 16-bit integers.
pub open spec fn wav_samples(samples: Seq<Sample>) -> Seq<i16> {
    samples.map_values(|s: Sample| crate::arith::quantized(s) as i16)
}

/// What goes into a sound file of these chunks.
pub fn write_wav(chunks: &[AudioChunk]) -> (wav: WavData)
    requires
        total_frames(chunks@) <= usize::MAX,
    ensures
        wav.samples@ == wav_samples(all_samples(chunks@)),
        wav.peak == peak_of(all_samples(chunks@)),
        wav.frames == total_frames(chunks@),
{
    let n: usize = chunks.len();
    let mut samples: Vec<i16> = Vec::new();
    let mut peak: Sample = ZERO;
    let mut frames: usize = 0;
    let mut c: usize = 0;
    proof {
        assert(chunks@.take(0) =~= seq![]);
        assert(wav_samples(seq![]) =~= seq![]);
    }
    while c < n
        invariant
            c <= n == chunks@.len(),
            total_frames(chunks@) <= usize::MAX,
            frames == total_frames(chunks@.take(c as int)),
            samples@ =~= wav_samples(all_samples(chunks@.take(c as int))),
            peak == peak_of(all_samples(chunks@.take(c as int))),
        decreases n - c,
    {
        let ghost before = all_samples(chunks@.take(c as int));
        proof {
            assert(chunks@.take(c + 1).drop_last() =~= chunks@.take(c as int));
            assert(chunks@.take(c + 1).last() == chunks@[c as int]);
            lemma_frames_grow(chunks@, c + 1);
        }
        frames = frames + chunks[c].frames;
        let data: &Vec<Sample> = &chunks[c].data;
        let len: usize = data.len();
        let mut i: usize = 0;
        assert(before + data@.take(0) =~= before);
        while i < len
            invariant
                i <= len == data@.len(),
                samples@ =~= wav_samples(before + data@.take(i as int)),
                peak == peak_of(before + data@.take(i as int)),
            decreases len - i,
        {
            let x: Sample = data[i];
            let a: Sample = absolute(x);
            proof {
                let longer = before + data@.take(i + 1);
                assert(longer.drop_last() =~= before + data@.take(i as int));
                assert(longer.last() == x);
                assert(longer =~= (before + data@.take(i as int)).push(x));
            }
            if below(peak, a) {
                peak = a;
            }
            samples.push(to_i16(x));
            i += 1;
        }
        assert(data@.take(len as int) =~= data@);
        c += 1;
    }
    assert(chunks@.take(n as int) =~= chunks@);
    WavData { samples, peak, frames }
}

/// Bit pattern of the peak below which a recording counts as silent, `0.001`.
pub const SILENCE_PEAK: Sample = 0x3a83_126f;

/// Binary64 bit pattern of the root mean square below which a recording counts as silent,
/// `0.0001`.
pub const SILENCE_RMS: u64 = 0x3f1a_36e2_eb1c_432d;

/// Whether a recording with this peak and this root mean square, which is not negative and
/// given as a binary64 bit pattern, is nearly silent. Patterns without sign compare as their
/// values do, and a NaN is above all of them.
pub fn is_nearly_silent(peak: Sample, rms_bits: u64) -> (r: bool)
    ensures
        r == (crate::sample::lt_value(peak, SILENCE_PEAK) && rms_bits < SILENCE_RMS),
{
    below(peak, SILENCE_PEAK) && rms_bits < SILENCE_RMS
}

/// The line of a switch.
pub fn switched_line(kind: SourceKind) -> (line: String)
    ensures
        line@ == "[switch] -> "@ + crate::bindings::kind_word(kind),
{
    joined("[switch] -> ", source_kind_label(kind))
}

/// The line of a switch that failed; the recording goes on.
pub fn switch_failed_line(kind: SourceKind, error: &Error) -> (line: String)
    ensures
        line@ == "[switch] 警告: "@ + crate::bindings::kind_word(kind)
            + " への切替に失敗しました（録音は継続）: "@ + error.text(),
{
    let mut line: String = joined("[switch] 警告: ", source_kind_label(kind));
    line.append(" への切替に失敗しました（録音は継続）: ");
    let message: String = error.message();
    line.append(message.as_str());
    line
}

/// The columns of a device in the list.
pub open spec fn device_columns(
    source: Seq<char>,
    loopback: Seq<char>,
    default: Seq<char>,
    rate: Seq<char>,
    channels: Seq<char>,
    name: Seq<char>,
    id: Seq<char>,
) -> Seq<char> {
    crate::cli::words::left_aligned(source, 7) + " "@ + crate::cli::words::left_aligned(loopback, 8)
        + " "@ + crate::cli::words::left_aligned(default, 7) + " "@
        + crate::cli::words::right_aligned(rate, 6) + " "@ + crate::cli::words::right_aligned(
        channels,
        3,
    ) + "  "@ + crate::cli::words::left_aligned(name, 28) + " "@ + id
}

#[allow(clippy::too_many_arguments)]
fn columns(
    source: &str,
    loopback: &str,
    default: &str,
    rate: &str,
    channels: &str,
    name: &str,
    id: &str,
) -> (line: String)
    ensures
        line@ == device_columns(source@, loopback@, default@, rate@, channels@, name@, id@),
{
    let mut line: String = owned("");
    proof {
        reveal_strlit("");
        assert(line@ =~= seq![]);
    }
    push_left_aligned(&mut line, source, 7);
    assert(line@ =~= crate::cli::words::left_aligned(source@, 7));
    line.append(" ");
    push_left_aligned(&mut line, loopback, 8);
    line.append(" ");
    push_left_aligned(&mut line, default, 7);
    line.append(" ");
    push_right_aligned(&mut line, rate, 6);
    line.append(" ");
    push_right_aligned(&mut line, channels, 3);
    line.append("  ");
    push_left_aligned(&mut line, name, 28);
    line.append(" ");
    line.append(id);
    line
}

/// The head of the list of devices.
pub fn device_header() -> (line: String)
    ensures
        line@ == device_columns(
            "SOURCE"@,
            "LOOPBACK"@,
            "DEFAULT"@,
            "RATE"@,
            "CH"@,
            "NAME"@,
            "ID"@,
        ),
{
    columns("SOURCE", "LOOPBACK", "DEFAULT", "RATE", "CH", "NAME", "ID")
}

/// A number as text.
pub fn number(n: u64) -> (text: String)
    ensures
        text@ == crate::text::decimal(n as nat),
{
    let mut text: String = owned("");
    push_decimal(&mut text, n);
    proof {
        reveal_strlit("");
        assert(text@ =~= crate::text::decimal(n as nat));
    }
    text
}

/// The line of a device in the list.
pub fn device_line(d: &DeviceInfo) -> (line: String)
    ensures
        line@ == device_columns(
            crate::bindings::kind_word(d.source_kind),
            if d.is_loopback {
                "yes"@
            } else {
                "no"@
            },
            if d.is_default {
                "*"@
            } else {
                ""@
            },
            crate::text::decimal(d.sample_rate as nat),
            crate::text::decimal(d.channels as nat),
            crate::cli::words::shortened(d.name@, 28),
            d.id@,
        ),
{
    let rate: String = number(d.sample_rate as u64);
    let channels: String = number(d.channels as u64);
    let name: String = truncate(d.name.as_str(), 28);
    columns(
        source_kind_label(d.source_kind),
        if d.is_loopback {
            "yes"
        } else {
            "no"
        },
        if d.is_default {
            "*"
        } else {
            ""
        },
        rate.as_str(),
        channels.as_str(),
        name.as_str(),
        d.id.as_str(),
    )
}

/// The line of a device event.
pub open spec fn event_words(event: DeviceEvent) -> Seq<char> {
    match event {
        DeviceEvent::Added(info) => "[+] ADDED   "@ + crate::cli::words::left_aligned(
            crate::bindings::kind_word(info.source_kind),
            7,
        ) + " "@ + info.name@ + " ("@ + info.id@ + ")"@,
        DeviceEvent::Removed { id } => "[-] REMOVED "@ + id@,
        DeviceEvent::DefaultChanged { kind, id } => "[*] DEFAULT "@
            + crate::cli::words::left_aligned(crate::bindings::kind_word(kind), 7) + " -> "@ + id@,
    }
}

/// The line of a device event.
pub fn event_line(event: &DeviceEvent) -> (line: String)
    ensures
        line@ == event_words(*event),
{
    match event {
        DeviceEvent::Added(info) => {
            let mut line: String = owned("[+] ADDED   ");
            push_left_aligned(&mut line, source_kind_label(info.source_kind), 7);
            line.append(" ");
            line.append(info.name.as_str());
            line.append(" (");
            line.append(info.id.as_str());
            line.append(")");
            line
        },
        DeviceEvent::Removed { id } => joined("[-] REMOVED ", id.as_str()),
        DeviceEvent::DefaultChanged { kind, id } => {
            let mut line: String = owned("[*] DEFAULT ");
            push_left_aligned(&mut line, source_kind_label(*kind), 7);
            line.append(" -> ");
            line.append(id.as_str());
            line
        },
    }
}

/// What a source is called at the start of a recording.
pub fn source_title(kind: SourceKind) -> (title: &'static str)
    requires
        kind != SourceKind::Mix,
    ensures
        title@ == (match kind {
            SourceKind::SystemLoopback => "system（既定出力のループバック）"@,
            SourceKind::ProcessLoopback => "process（指定 PID の出力）"@,
            _ => "mic（既定入力デバイス）"@,
        }),
{
    match kind {
        SourceKind::SystemLoopback => "system（既定出力のループバック）",
        SourceKind::ProcessLoopback => "process（指定 PID の出力）",
        _ => "mic（既定入力デバイス）",
    }
}

/// The parts of a schedule in words.
pub open spec fn schedule_words(segments: Seq<Segment>) -> Seq<char>
    decreases segments.len(),
{
    if segments.len() == 0 {
        seq![]
    } else {
        let last = crate::bindings::kind_word(segments.last().kind) + ":"@ + crate::text::decimal(
            segments.last().secs as nat,
        ) + "s"@;
        if segments.len() == 1 {
            last
        } else {
            schedule_words(segments.drop_last()) + " -> "@ + last
        }
    }
}

/// The line that shows a schedule.
pub fn schedule_line(segments: &[Segment], total: u64) -> (line: String)
    requires
        segments@.len() > 0,
        total == crate::cli::schedule::total_secs(segments@),
    ensures
        line@ == "スケジュール       : "@ + schedule_words(segments@) + "（計 "@
            + crate::text::decimal(total as nat) + " 秒・1 本の連続ストリーム）"@,
{
    let n: usize = segments.len();
    let head: &str = "スケジュール       : ";
    let mut line: String = owned(head);
    let mut i: usize = 0;
    proof {
        assert(segments@.take(0) =~= seq![]);
        assert(head@ + schedule_words(seq![]) =~= head@);
    }
    while i < n
        invariant
            i <= n == segments@.len(),
            line@ == head@ + schedule_words(segments@.take(i as int)),
        decreases n - i,
    {
        let ghost before = line@;
        proof {
            assert(segments@.take(i + 1).drop_last() =~= segments@.take(i as int));
            assert(segments@.take(i + 1).last() == segments@[i as int]);
        }
        if i > 0 {
            line.append(" -> ");
        }
        line.append(source_kind_label(segments[i].kind));
        line.append(":");
        push_decimal(&mut line, segments[i].secs as u64);
        line.append("s");
        proof {
            let last = crate::bindings::kind_word(segments@[i as int].kind) + ":"@
                + crate::text::decimal(segments@[i as int].secs as nat) + "s"@;
            if i > 0 {
                assert(line@ =~= head@ + (schedule_words(segments@.take(i as int)) + " -> "@
                    + last));
            } else {
                assert(line@ =~= head@ + last);
            }
        }
        i += 1;
    }
    assert(segments@.take(n as int) =~= segments@);
    line.append("（計 ");
    push_decimal(&mut line, total);
    line.append(" 秒・1 本の連続ストリーム）");
    line
}

/// The line of the output format.
pub open spec fn format_words(cli: Cli) -> Seq<char> {
    "出力フォーマット   : "@ + crate::text::decimal(cli.format().sample_rate as nat) + " Hz / "@
        + crate::text::decimal(cli.format().channels as nat) + (if cli.streams() {
        match cli.encoding {
            EncodingArg::F32 => " ch / f32 LE raw PCM（stdout）"@,
            EncodingArg::S16 => " ch / s16 LE raw PCM（stdout）"@,
        }
    } else {
        " ch / 16-bit PCM WAV"@
    })
}

/// The line of the output format.
pub fn format_line(cli: &Cli) -> (line: String)
    ensures
        line@ == format_words(*cli),
{
    let format: OutputFormat = cli.output_format();
    let mut line: String = owned("出力フォーマット   : ");
    push_decimal(&mut line, format.sample_rate as u64);
    line.append(" Hz / ");
    push_decimal(&mut line, format.channels as u64);
    if cli.is_stdout_stream() {
        match cli.encoding {
            EncodingArg::F32 => line.append(" ch / f32 LE raw PCM（stdout）"),
            EncodingArg::S16 => line.append(" ch / s16 LE raw PCM（stdout）"),
        }
    } else {
        line.append(" ch / 16-bit PCM WAV");
    }
    line
}

/// The line of the device that was asked for, if one was. A process is not recorded from a
/// device.
pub fn device_id_line(cli: &Cli, kind: SourceKind) -> (line: Option<String>)
    ensures
        match cli.device_id {
            None => line is None,
            Some(id) => line matches Some(l) && l@ == "デバイス ID        : "@ + id@ + (if kind
                == SourceKind::ProcessLoopback {
                "（注: process では無視されます）"@
            } else {
                ""@
            }),
        },
{
    match &cli.device_id {
        None => None,
        Some(id) => {
            let mut line: String = joined("デバイス ID        : ", id.as_str());
            if kind == SourceKind::ProcessLoopback {
                line.append("（注: process では無視されます）");
            } else {
                proof {
                    reveal_strlit("");
                    assert(line@ + ""@ =~= line@);
                }
            }
            Some(line)
        },
    }
}

/// The line of how long is recorded, where there is no schedule.
pub fn seconds_line(seconds: u64) -> (line: String)
    ensures
        line@ == (if seconds == 0 {
            "キャプチャ秒数     : 無限（Ctrl-C / パイプ切れで停止）"@
        } else {
            "キャプチャ秒数     : "@ + crate::text::decimal(seconds as nat) + " 秒"@
        }),
{
    if seconds == 0 {
        owned("キャプチャ秒数     : 無限（Ctrl-C / パイプ切れで停止）")
    } else {
        let mut line: String = owned("キャプチャ秒数     : ");
        push_decimal(&mut line, seconds);
        line.append(" 秒");
        line
    }
}

/// The line of where the recording goes.
pub fn destination_line(cli: &Cli) -> (line: String)
    ensures
        line@ == (if cli.streams() {
            "出力先             : stdout（raw PCM ストリーミング）"@
        } else {
            "出力パス           : "@ + cli.out@
        }),
{
    if cli.is_stdout_stream() {
        owned("出力先             : stdout（raw PCM ストリーミング）")
    } else {
        joined("出力パス           : ", cli.out.as_str())
    }
}

/// Samples are written as floating point in four bytes each, which give them back, or as 16-bit
/// integers in two.
pub proof fn lemma_samples_are_written(samples: Seq<Sample>, k: int)
    requires
        0 <= k < samples.len(),
    ensures
        ({
            let b = encoded(samples, EncodingArg::F32);
            let s = encoded(samples, EncodingArg::S16);
            let v = crate::arith::quantized(samples[k]);
            &&& b.len() == 4 * samples.len()
            &&& samples[k] == b[4 * k] + 0x100 * b[4 * k + 1] + 0x1_0000 * b[4 * k + 2]
                + 0x100_0000 * b[4 * k + 3]
            &&& s.len() == 2 * samples.len()
            &&& s[2 * k] + 0x100 * s[2 * k + 1] == v || s[2 * k] + 0x100 * s[2 * k + 1] == v
                + 0x1_0000
            &&& wav_samples(samples).len() == samples.len()
            &&& wav_samples(samples)[k] == v
        }),
{
    crate::encode::lemma_bytes_give_samples_back(samples, k);
    crate::encode::lemma_shorts_are_in_order(samples, k);
    crate::arith::lemma_shorts_are_bounded(samples[k]);
    crate::encode::lemma_two_bytes_give_the_number_back(crate::arith::quantized(samples[k]));
    let s = encoded(samples, EncodingArg::S16);
    let two = s.subrange(2 * k, 2 * k + 2);
    assert(two[0] == s[2 * k] && two[1] == s[2 * k + 1]);
}

/// Chunks are written one after the other, with all their samples and all their frames.
pub proof fn lemma_chunks_are_written_in_order(chunks: Seq<AudioChunk>, chunk: AudioChunk)
    ensures
        all_samples(chunks.push(chunk)) == all_samples(chunks) + chunk.data@,
        total_frames(chunks.push(chunk)) == total_frames(chunks) + chunk.frames,
        all_samples(seq![]) == Seq::<Sample>::empty(),
        total_frames(seq![]) == 0,
{
    assert(chunks.push(chunk).drop_last() =~= chunks);
}

/// A recording is nearly silent where its peak is below 0.001 and its root mean square below
/// 0.0001, both as patterns; negative peaks do not occur, and a NaN is not below.
pub proof fn lemma_what_is_nearly_silent(peak: Sample, rms_bits: u64, r: bool)
    requires
        call_ensures(is_nearly_silent, (peak, rms_bits), r),
        peak < 0x8000_0000,
    ensures
        r <==> peak < 0x3a83_126f && rms_bits < 0x3f1a_36e2_eb1c_432d,
{
}

/// The labels are the words for the kinds.
pub proof fn lemma_labels_are_words(kind: SourceKind, label: &'static str)
    requires
        call_ensures(source_kind_label, (kind,), label),
    ensures
        kind == SourceKind::Mic ==> label@ == "mic"@,
        kind == SourceKind::SystemLoopback ==> label@ == "system"@,
        kind == SourceKind::ProcessLoopback ==> label@ == "process"@,
        kind == SourceKind::Mix ==> label@ == "mix"@,
{
}

/// A line of the list begins with the kind of the device and ends with its id.
pub proof fn lemma_device_lines_show_kind_and_id(d: &DeviceInfo, line: String)
    requires
        call_ensures(device_line, (d,), line),
    ensures
        ({
            let word = crate::bindings::kind_word(d.source_kind);
            &&& line@.len() >= word.len() + d.id@.len()
            &&& line@.take(word.len() as int) == word
            &&& line@.skip(line@.len() - d.id@.len()) == d.id@
        }),
{
    let word = crate::bindings::kind_word(d.source_kind);
    let kind = crate::cli::words::left_aligned(word, 7);
    crate::cli::words::lemma_aligned_texts_fill_their_column(word, 7, 0);
    let looped = crate::cli::words::left_aligned(
        if d.is_loopback {
            "yes"@
        } else {
            "no"@
        },
        8,
    );
    let marked = crate::cli::words::left_aligned(
        if d.is_default {
            "*"@
        } else {
            ""@
        },
        7,
    );
    let rate = crate::cli::words::right_aligned(crate::text::decimal(d.sample_rate as nat), 6);
    let channels = crate::cli::words::right_aligned(crate::text::decimal(d.channels as nat), 3);
    let name = crate::cli::words::left_aligned(crate::cli::words::shortened(d.name@, 28), 28);
    let a = kind + " "@;
    lemma_beginning_stays(word, kind, " "@);
    let b = a + looped;
    lemma_beginning_stays(word, a, looped);
    let c = b + " "@;
    lemma_beginning_stays(word, b, " "@);
    let e = c + marked;
    lemma_beginning_stays(word, c, marked);
    let f = e + " "@;
    lemma_beginning_stays(word, e, " "@);
    let g = f + rate;
    lemma_beginning_stays(word, f, rate);
    let h = g + " "@;
    lemma_beginning_stays(word, g, " "@);
    let i = h + channels;
    lemma_beginning_stays(word, h, channels);
    let j = i + "  "@;
    lemma_beginning_stays(word, i, "  "@);
    let k = j + name;
    lemma_beginning_stays(word, j, name);
    let l = k + " "@;
    lemma_beginning_stays(word, k, " "@);
    lemma_beginning_stays(word, l, d.id@);
    assert(line@ == l + d.id@);
}

proof fn lemma_beginning_stays(p: Seq<char>, s: Seq<char>, more: Seq<char>)
    requires
        p.len() <= s.len(),
        s.take(p.len() as int) == p,
    ensures
        p.len() + more.len() <= (s + more).len(),
        (s + more).take(p.len() as int) == p,
        (s + more).skip((s + more).len() - more.len()) == more,
{
    assert((s + more).take(p.len() as int) =~= s.take(p.len() as int));
    assert((s + more).skip((s + more).len() - more.len()) =~= more);
}

/// One more part of a schedule is shown behind an arrow, with its source and its seconds.
pub proof fn lemma_schedules_are_shown_in_order(segments: Seq<Segment>, part: Segment)
    ensures
        ({
            let shown = crate::bindings::kind_word(part.kind) + ":"@ + crate::text::decimal(
                part.secs as nat,
            ) + "s"@;
            &&& segments.len() == 0 ==> schedule_words(segments.push(part)) == shown
            &&& segments.len() > 0 ==> schedule_words(segments.push(part)) == schedule_words(
                segments,
            ) + " -> "@ + shown
        }),
{
    assert(segments.push(part).drop_last() =~= segments);
}

/// The peak grows with every sample that is larger, and only then.
pub proof fn lemma_the_peak_grows(samples: Seq<Sample>, s: Sample)
    ensures
        peak_of(seq![]) == 0,
        crate::sample::lt_value(
            peak_of(samples),
            crate::sample::magnitude(s) as Sample,
        ) ==> peak_of(samples.push(s)) == crate::sample::magnitude(s),
        !crate::sample::lt_value(
            peak_of(samples),
            crate::sample::magnitude(s) as Sample,
        ) ==> peak_of(samples.push(s)) == peak_of(samples),
{
    assert(samples.push(s).drop_last() =~= samples);
}

/// A sound file holds all samples of all chunks as 16-bit integers, in order, with their peak and
/// the number of their frames.
pub proof fn lemma_sound_files_hold_everything(chunks: &[AudioChunk], wav: WavData, k: int)
    requires
        call_ensures(write_wav, (chunks,), wav),
        0 <= k < all_samples(chunks@).len(),
    ensures
        wav.samples@.len() == all_samples(chunks@).len(),
        wav.samples@[k] == crate::arith::quantized(all_samples(chunks@)[k]),
        wav.frames == total_frames(chunks@),
        !crate::sample::lt_value(
            wav.peak,
            crate::sample::magnitude(all_samples(chunks@)[k]) as Sample,
        ),
{
    lemma_peak_is_the_largest(all_samples(chunks@), k);
    lemma_samples_are_written(all_samples(chunks@), k);
}

/// The three errors that a user can do something about have words of their own, and any other one
/// is told with its own text.
pub proof fn lemma_errors_are_told(error: Error)
    ensures
        error is DeviceNotFound ==> error_words(error)
            == "指定したデバイス／エンドポイントが見つかりません。`--list-devices` の ID を確認してください。"@,
        error is PermissionDenied ==> error_words(error)
            == "マイクへのアクセス権限がありません。OS のマイク権限設定を確認してください。"@,
        error is DeviceLost ==> error_words(error)
            == "キャプチャ中に入力デバイスが失われました（切断など）。"@,
        error !is DeviceNotFound && error !is PermissionDenied && error !is DeviceLost
            ==> error_words(error) == "ストリーム初期化に失敗しました: "@ + error.text(),
{
}

/// A device event is shown with its sign, the kind and the names that it has.
pub proof fn lemma_device_events_are_shown(info: DeviceInfo, id: String, kind: SourceKind)
    ensures
        event_words(DeviceEvent::Removed { id }) == "[-] REMOVED "@ + id@,
        event_words(DeviceEvent::Added(info)) == "[+] ADDED   "@
            + crate::cli::words::left_aligned(crate::bindings::kind_word(info.source_kind), 7)
            + " "@ + info.name@ + " ("@ + info.id@ + ")"@,
        event_words(DeviceEvent::DefaultChanged { kind, id }) == "[*] DEFAULT "@
            + crate::cli::words::left_aligned(crate::bindings::kind_word(kind), 7) + " -> "@ + id@,
{
}

/// The line of the output format shows its rate and channels and how samples are written, and the
/// line of the destination where they go.
pub proof fn lemma_where_samples_go_is_shown(cli: &Cli, format: String, destination: String)
    requires
        call_ensures(format_line, (cli,), format),
        call_ensures(destination_line, (cli,), destination),
    ensures
        ({
            let head = "出力フォーマット   : "@ + crate::text::decimal(cli.output_rate as nat)
                + " Hz / "@ + crate::text::decimal(cli.output_channels as nat);
            &&& cli.out@ != "-"@ ==> format@ == head + " ch / 16-bit PCM WAV"@ && destination@
                == "出力パス           : "@ + cli.out@
            &&& cli.out@ == "-"@ ==> destination@
                == "出力先             : stdout（raw PCM ストリーミング）"@
            &&& cli.out@ == "-"@ && cli.encoding == EncodingArg::F32 ==> format@ == head
                + " ch / f32 LE raw PCM（stdout）"@
            &&& cli.out@ == "-"@ && cli.encoding == EncodingArg::S16 ==> format@ == head
                + " ch / s16 LE raw PCM（stdout）"@
        }),
{
}

} // verus!

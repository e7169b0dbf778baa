//! A recording from start to end: what is done next, and how it ends.
//!
//! Both ways of recording, into a file and to the standard output, go through the same steps.
//! In each turn the recording looks whether it is over, switches sources that are due, takes
//! the chunks that are there, shows the events that are there, and pauses where no chunk came.
//! At the end the stream is stopped and what is left in it is taken too.

use crate::cli::args::{Cli, Segment};
use crate::cli::schedule::{SwitchScheduler, SECOND_NS};
use crate::text::{joined, owned, push_decimal};
use vstd::prelude::*;

verus! {

/// What a recording does next.
#[derive(Debug, Clone, Copy, PartialEq, Eq, Structural)]
pub enum Step {
    /// Look at the time, or whether the user has interrupted, and switch sources that are due.
    Check,
    /// Take a chunk.
    Chunk,
    /// Take an event.
    Event,
    /// Sleep for 10 ms.
    Pause,
    /// Stop the stream.
    Stop,
    /// Take a chunk that is left after the stop.
    Rest,
    /// Flush what was written.
    Flush,
    /// Nothing any more.
    Done,
}

/// What came of writing.
#[derive(Debug)]
pub enum Written {
    /// It was written.
    Whole,
    /// The reader is gone.
    BrokenPipe,
    /// Anything else, with its description.
    Failed(String),
}

/// A recording.
#[derive(Debug, Clone, Copy, PartialEq, Eq, Structural)]
pub struct Recording {
    /// Whether it ends only when it is interrupted.
    pub infinite: bool,
    /// After how many seconds it ends otherwise.
    pub total_secs: u64,
    /// What it does next.
    pub step: Step,
    /// Whether a chunk came in this turn.
    pub got_any: bool,
    /// Whether anything was written.
    pub wrote_any: bool,
    /// Whether the reader is gone.
    pub broken_pipe: bool,
}

impl Recording {
    /// Whether it is over.
    pub open spec fn is_over(self, running: bool, elapsed_ns: u64) -> bool {
        if self.infinite {
            !running
        } else {
            elapsed_ns >= self.total_secs * SECOND_NS
        }
    }

    /// After it has looked.
    pub open spec fn checked(self, running: bool, elapsed_ns: u64) -> Recording {
        if self.is_over(running, elapsed_ns) {
            Recording { step: Step::Stop, ..self }
        } else {
            Recording { step: Step::Chunk, got_any: false, ..self }
        }
    }

    /// After there was no chunk.
    pub open spec fn without_chunk(self) -> Recording {
        if self.step == Step::Rest {
            Recording { step: Step::Flush, ..self }
        } else {
            Recording { step: Step::Event, ..self }
        }
    }

    /// After a chunk was written.
    pub open spec fn with_chunk(self) -> Recording {
        Recording { got_any: true, wrote_any: true, ..self }
    }

    /// After the reader was found to be gone.
    pub open spec fn cut_off(self) -> Recording {
        Recording {
            broken_pipe: true,
            got_any: true,
            step: if self.step == Step::Chunk {
                Step::Stop
            } else {
                Step::Done
            },
            ..self
        }
    }

    /// After an event was looked for.
    pub open spec fn after_event(self, found: bool) -> Recording {
        if found {
            self
        } else if self.got_any {
            Recording { step: Step::Check, ..self }
        } else {
            Recording { step: Step::Pause, ..self }
        }
    }

    /// After the stream was stopped.
    pub open spec fn stopped(self) -> Recording {
        if self.broken_pipe {
            Recording { step: Step::Done, ..self }
        } else {
            Recording { step: Step::Rest, ..self }
        }
    }

    /// A recording that begins.
    pub fn new(infinite: bool, total_secs: u64) -> (r: Recording)
        ensures
            r == (Recording {
                infinite,
                total_secs,
                step: Step::Check,
                got_any: false,
                wrote_any: false,
                broken_pipe: false,
            }),
    {
        Recording {
            infinite,
            total_secs,
            step: Step::Check,
            got_any: false,
            wrote_any: false,
            broken_pipe: false,
        }
    }

    /// Looks whether it is over: `running` is false once the user has interrupted.
    pub fn check(&mut self, running: bool, elapsed_ns: u64)
        requires
            old(self).step == Step::Check,
        ensures
            *final(self) == old(self).checked(running, elapsed_ns),
    {
        let over: bool = if self.infinite {
            !running
        } else {
            elapsed_ns as u128 >= self.total_secs as u128 * SECOND_NS as u128
        };
        if over {
            self.step = Step::Stop;
        } else {
            self.step = Step::Chunk;
            self.got_any = false;
        }
    }

    /// Takes in what came of looking for a chunk: nothing where there was none, else what came
    /// of writing it. A reader that is gone ends the recording; any other failure is reported.
    pub fn take_chunk(&mut self, written: Option<Written>) -> (r: Result<(), String>)
        requires
            old(self).step == Step::Chunk || old(self).step == Step::Rest,
        ensures
            match written {
                None => r is Ok && *final(self) == old(self).without_chunk(),
                Some(Written::Whole) => r is Ok && *final(self) == old(self).with_chunk(),
                Some(Written::BrokenPipe) => r is Ok && *final(self) == old(self).cut_off(),
                Some(Written::Failed(why)) => {
                    &&& *final(self) == *old(self)
                    &&& r matches Err(e) && e@ == "stdout への書き込みに失敗しました: "@ + why@
                },
            },
    {
        match written {
            None => {
                if self.step == Step::Rest {
                    self.step = Step::Flush;
                } else {
                    self.step = Step::Event;
                }
            },
            Some(Written::Whole) => {
                self.got_any = true;
                self.wrote_any = true;
            },
            Some(Written::BrokenPipe) => {
                self.broken_pipe = true;
                self.got_any = true;
                if self.step == Step::Chunk {
                    self.step = Step::Stop;
                } else {
                    self.step = Step::Done;
                }
            },
            Some(Written::Failed(why)) => return Err(
                joined("stdout への書き込みに失敗しました: ", why.as_str()),
            ),
        }
        Ok(())
    }

    /// Takes in whether there was an event.
    pub fn take_event(&mut self, found: bool)
        requires
            old(self).step == Step::Event,
        ensures
            *final(self) == old(self).after_event(found),
    {
        if !found {
            if self.got_any {
                self.step = Step::Check;
            } else {
                self.step = Step::Pause;
            }
        }
    }

    /// Takes in that the pause is over.
    pub fn resume(&mut self)
        requires
            old(self).step == Step::Pause,
        ensures
            *final(self) == (Recording { step: Step::Check, ..*old(self) }),
    {
        self.step = Step::Check;
    }

    /// Takes in that the stream was stopped. What is left in it is taken only where there is
    /// still a reader.
    pub fn stop(&mut self)
        requires
            old(self).step == Step::Stop,
        ensures
            *final(self) == old(self).stopped(),
    {
        if self.broken_pipe {
            self.step = Step::Done;
        } else {
            self.step = Step::Rest;
        }
    }

    /// Takes in what came of flushing.
    pub fn flush(&mut self, written: Written) -> (r: Result<(), String>)
        requires
            old(self).step == Step::Flush,
        ensures
            match written {
                Written::Whole => r is Ok && *final(self) == (Recording {
                    step: Step::Done,
                    ..*old(self)
                }),
                Written::BrokenPipe => r is Ok && *final(self) == (Recording {
                    step: Step::Done,
                    broken_pipe: true,
                    ..*old(self)
                }),
                Written::Failed(why) => {
                    &&& *final(self) == *old(self)
                    &&& r matches Err(e) && e@ == "stdout の flush に失敗しました: "@ + why@
                },
            },
    {
        match written {
            Written::Whole => {},
            Written::BrokenPipe => {
                self.broken_pipe = true;
            },
            Written::Failed(why) => return Err(
                joined("stdout の flush に失敗しました: ", why.as_str()),
            ),
        }
        self.step = Step::Done;
        Ok(())
    }

    /// What is reported at the end: only a recording that ran its time without a single chunk,
    /// and with a reader, is a failure.
    pub fn finish(&self) -> (r: Result<(), String>)
        ensures
            r is Err <==> !self.wrote_any && !self.broken_pipe && !self.infinite,
            r matches Err(e) ==> e@
                == "チャンクを 1 つも取得できませんでした。デバイスは開けましたがサンプルが流れていません（ミュート/権限等を確認してください）。"@,
    {
        if !self.wrote_any && !self.broken_pipe && !self.infinite {
            Err(
                owned(
                    "チャンクを 1 つも取得できませんでした。デバイスは開けましたがサンプルが流れていません（ミュート/権限等を確認してください）。",
                ),
            )
        } else {
            Ok(())
        }
    }

    /// Why it ended, in words; `seconds` is what the arguments say.
    pub fn reason(&self, seconds: u64) -> (text: String)
        ensures
            text@ == (if self.broken_pipe {
                "停止理由           : 受け手がパイプを閉じました（正常終了）"@
            } else if self.infinite {
                "停止理由           : Ctrl-C（正常終了）"@
            } else {
                "停止理由           : "@ + crate::text::decimal(seconds as nat) + " 秒経過"@
            }),
    {
        if self.broken_pipe {
            owned("停止理由           : 受け手がパイプを閉じました（正常終了）")
        } else if self.infinite {
            owned("停止理由           : Ctrl-C（正常終了）")
        } else {
            let mut text: String = owned("停止理由           : ");
            push_decimal(&mut text, seconds);
            text.append(" 秒経過");
            text
        }
    }
}

/// Seconds that a recording lasts: those of its schedule, or else those of the arguments.
pub open spec fn asked_secs(seconds: u64, segments: Option<&Vec<Segment>>) -> int {
    match segments {
        Some(s) => crate::cli::schedule::total_secs(s@),
        None => seconds as int,
    }
}

/// A recording to the standard output. Without a schedule 0 seconds mean no end.
pub fn stdout_recording(cli: &Cli, segments: Option<&Vec<Segment>>) -> (r: Recording)
    requires
        asked_secs(cli.seconds, segments) <= u64::MAX,
    ensures
        r.infinite == (segments is None && cli.seconds == 0),
        r.total_secs == asked_secs(cli.seconds, segments),
        r.step == Step::Check,
        !r.wrote_any && !r.broken_pipe,
{
    match segments {
        Some(s) => Recording::new(false, SwitchScheduler::total_duration(s.as_slice())),
        None => Recording::new(cli.seconds == 0, cli.seconds),
    }
}

/// A recording into a file. It has to end.
pub fn wav_recording(cli: &Cli, segments: Option<&Vec<Segment>>) -> (r: Result<Recording, String>)
    requires
        asked_secs(cli.seconds, segments) <= u64::MAX,
    ensures
        match r {
            Ok(rec) => {
                &&& !(segments is None && cli.seconds == 0)
                &&& !rec.infinite
                &&& rec.total_secs == asked_secs(cli.seconds, segments)
                &&& rec.step == Step::Check
                &&& !rec.wrote_any && !rec.broken_pipe
            },
            Err(e) => {
                &&& segments is None && cli.seconds == 0
                &&& e@
                    == "--seconds 0（無限）は raw PCM ストリーミング（--out -）専用です。WAV 出力では 1 以上を指定してください。"@
            },
        },
{
    match segments {
        Some(s) => Ok(Recording::new(false, SwitchScheduler::total_duration(s.as_slice()))),
        None => if cli.seconds == 0 {
            Err(
                owned(
                    "--seconds 0（無限）は raw PCM ストリーミング（--out -）専用です。WAV 出力では 1 以上を指定してください。",
                ),
            )
        } else {
            Ok(Recording::new(false, cli.seconds))
        },
    }
}

/// Once the reader is gone, no chunk is looked for any more: the recording stops the stream,
/// where it has not yet, and is done.
pub proof fn lemma_nothing_is_written_without_a_reader(r: Recording)
    requires
        r.step == Step::Chunk || r.step == Step::Rest,
    ensures
        r.cut_off().step == Step::Stop || r.cut_off().step == Step::Done,
        r.cut_off().step == Step::Stop ==> r.cut_off().stopped().step == Step::Done,
{
}

/// While there is a reader, a stop is followed by taking everything that is left: only a look
/// that finds no chunk leads on, and then to the flush.
pub proof fn lemma_what_is_left_is_taken(r: Recording)
    requires
        r.step == Step::Stop,
        !r.broken_pipe,
    ensures
        r.stopped().step == Step::Rest,
        r.stopped().with_chunk().step == Step::Rest,
        r.stopped().without_chunk().step == Step::Flush,
{
}

/// A recording that ends by time goes on before that time and ends from it on, whatever the
/// user does.
pub proof fn lemma_time_decides(r: Recording, running: bool, elapsed_ns: u64)
    requires
        r.step == Step::Check,
        !r.infinite,
    ensures
        r.checked(running, elapsed_ns).step == Step::Stop <==> elapsed_ns >= r.total_secs
            * SECOND_NS,
{
}

/// A recording without an end goes on until it is interrupted, one with an end until its seconds
/// have passed; a turn that goes on starts without a chunk.
pub proof fn lemma_when_a_recording_is_over(r: Recording, running: bool, elapsed_ns: u64)
    ensures
        r.infinite ==> (r.is_over(running, elapsed_ns) <==> !running),
        !r.infinite ==> (r.is_over(running, elapsed_ns) <==> elapsed_ns >= r.total_secs
            * 1_000_000_000),
        r.is_over(running, elapsed_ns) ==> r.checked(running, elapsed_ns).step == Step::Stop,
        !r.is_over(running, elapsed_ns) ==> r.checked(running, elapsed_ns).step == Step::Chunk && !(
        r.checked(running, elapsed_ns).got_any),
        r.checked(running, elapsed_ns).wrote_any == r.wrote_any,
        r.checked(running, elapsed_ns).broken_pipe == r.broken_pipe,
        r.checked(running, elapsed_ns).total_secs == r.total_secs,
        r.checked(running, elapsed_ns).infinite == r.infinite,
{
}

/// A turn takes chunks until there is none, then events until there is none, and pauses only
/// where no chunk came.
pub proof fn lemma_a_turn_of_a_recording(r: Recording)
    ensures
        r.with_chunk().step == r.step && r.with_chunk().got_any && r.with_chunk().wrote_any,
        r.with_chunk().broken_pipe == r.broken_pipe,
        r.step == Step::Chunk ==> r.without_chunk().step == Step::Event,
        r.step == Step::Rest ==> r.without_chunk().step == Step::Flush,
        r.without_chunk().got_any == r.got_any && r.without_chunk().wrote_any == r.wrote_any,
        r.after_event(true) == r,
        r.got_any ==> r.after_event(false).step == Step::Check,
        !r.got_any ==> r.after_event(false).step == Step::Pause,
        r.cut_off().broken_pipe,
        r.cut_off().wrote_any == r.wrote_any,
        r.step == Step::Chunk ==> r.cut_off().step == Step::Stop,
        r.step == Step::Rest ==> r.cut_off().step == Step::Done,
        r.broken_pipe ==> r.stopped().step == Step::Done,
        !r.broken_pipe ==> r.stopped().step == Step::Rest,
        r.stopped().wrote_any == r.wrote_any && r.stopped().broken_pipe == r.broken_pipe,
{
}

/// A schedule decides how long is recorded; without one the seconds do, and 0 of them mean no end
/// on the standard output and are refused for a file.
pub proof fn lemma_how_long_is_recorded(
    cli: &Cli,
    segments: Option<&Vec<Segment>>,
    s: Recording,
    w: Result<Recording, String>,
)
    requires
        call_ensures(stdout_recording, (cli, segments), s),
        call_ensures(wav_recording, (cli, segments), w),
    ensures
        s.infinite <==> segments is None && cli.seconds == 0,
        w is Err <==> segments is None && cli.seconds == 0,
        w is Ok ==> !(w->Ok_0).infinite && (w->Ok_0).total_secs == s.total_secs,
        segments is None ==> s.total_secs == cli.seconds,
        segments matches Some(v) ==> s.total_secs == crate::cli::schedule::total_secs(v@),
        s.step == Step::Check && !s.wrote_any && !s.broken_pipe,
{
}

/// Only a recording that ran its time with a reader and without a single chunk has failed.
pub proof fn lemma_when_a_recording_has_failed(rec: &Recording, r: Result<(), String>)
    requires
        call_ensures(Recording::finish, (rec,), r),
    ensures
        rec.wrote_any ==> r is Ok,
        rec.broken_pipe ==> r is Ok,
        rec.infinite ==> r is Ok,
        !rec.wrote_any && !rec.broken_pipe && !rec.infinite ==> r is Err,
{
}

/// A chunk that was written counts, one that could not be is reported unless the reader is gone,
/// and one that was not there leads on.
pub proof fn lemma_what_comes_of_a_chunk(
    rec: &mut Recording,
    written: Option<Written>,
    r: Result<(), String>,
)
    requires
        old(rec).step == Step::Chunk || old(rec).step == Step::Rest,
        call_ensures(Recording::take_chunk, (rec, written), r),
    ensures
        r is Err <==> written is Some && written->0 is Failed,
        written is None && old(rec).step == Step::Chunk ==> final(rec).step == Step::Event,
        written is None && old(rec).step == Step::Rest ==> final(rec).step == Step::Flush,
        written is Some && written->0 is Whole ==> final(rec).wrote_any && final(rec).got_any
            && final(rec).step == old(rec).step,
        written is Some && written->0 is BrokenPipe ==> final(rec).broken_pipe,
        written is Some && written->0 is BrokenPipe && old(rec).step == Step::Chunk ==> final(
            rec).step == Step::Stop,
        written is Some && written->0 is BrokenPipe && old(rec).step == Step::Rest ==> final(
            rec).step == Step::Done,
        written is Some && written->0 is Failed ==> *final(rec) == *old(rec),
        !(written is Some && written->0 is Whole) ==> final(rec).wrote_any == old(rec).wrote_any,
{
}

} // verus!

//! When a backend starts and stops its thread.
//!
//! Every backend owns one thread that talks to the platform. Starting means to spawn it and to
//! wait until it reports whether it could set itself up. The thread itself is not seen here:
//! these states say when to spawn, when to notify and join, and what to tell the caller.

use crate::text::joined;
use crate::types::Error;
use vstd::prelude::*;

verus! {

/// What came of spawning a thread and waiting for its report.
#[derive(Debug)]
pub enum Launch<E> {
    /// It could not be spawned; why.
    SpawnFailed(String),
    /// It reported that it is set up.
    Ready,
    /// It reported that it could not be set up.
    Failed(E),
    /// It ended without a report.
    Vanished,
}

/// Whether a thread runs after a start of which `ready` says whether its thread, if one was
/// spawned, became ready.
pub open spec fn after_start(running: bool, ready: bool) -> bool {
    running || ready
}

/// Whether a thread runs after a stop.
pub open spec fn after_stop(running: bool) -> bool {
    false
}

/// The flag and the thread of a loop after a start. What came of the spawn matters only where
/// there was one.
pub open spec fn loop_after_start<E>(state: (bool, bool), launch: Launch<E>) -> (bool, bool) {
    if state.0 {
        state
    } else {
        (launch is Ready, launch is Ready)
    }
}

/// The flag and the thread of a loop after a stop.
pub open spec fn loop_after_stop(state: (bool, bool)) -> (bool, bool) {
    (false, false)
}

/// The life of a thread that is guarded by its own handle.
#[derive(Debug)]
pub struct ThreadLife {
    running: bool,
}

/// What a failed spawn is reported as.
pub open spec fn spawn_failed_text(thread: Seq<char>, cause: Seq<char>) -> Seq<char> {
    "spawn "@ + thread + " thread: "@ + cause
}

/// What a thread that ended without a report is reported as.
pub open spec fn exited_text(thread: Seq<char>) -> Seq<char> {
    thread + " thread exited before reporting readiness"@
}

/// What a loop that ended without a report is reported as.
pub open spec fn terminated_text(thread: Seq<char>) -> Seq<char> {
    thread + " thread terminated before signaling readiness"@
}

fn spawn_failed(thread: &str, cause: &str) -> (text: String)
    ensures
        text@ == spawn_failed_text(thread@, cause@),
{
    let mut text: String = joined("spawn ", thread);
    text.append(" thread: ");
    text.append(cause);
    text
}

impl ThreadLife {
    /// Whether the thread runs.
    pub closed spec fn running(self) -> bool {
        self.running
    }

    /// No thread.
    pub fn new() -> (life: ThreadLife)
        ensures
            !life.running(),
    {
        ThreadLife { running: false }
    }

    /// Whether starting means to spawn: a thread that runs is left alone.
    pub fn must_spawn(&self) -> (r: bool)
        ensures
            r == !self.running(),
    {
        !self.running
    }

    /// Takes in what came of spawning the thread called `thread`, and says what to report.
    /// Only a thread that is ready is kept; the others are joined.
    pub fn launched(&mut self, launch: Launch<Error>, thread: &str) -> (r: Result<(), Error>)
        requires
            !old(self).running(),
        ensures
            final(self).running() == after_start(old(self).running(), launch is Ready),
            match launch {
                Launch::Ready => r is Ok,
                Launch::Failed(e) => r == Err::<(), Error>(e),
                Launch::SpawnFailed(cause) => r matches Err(Error::Backend(m)) && m@
                    == spawn_failed_text(thread@, cause@),
                Launch::Vanished => r matches Err(Error::Backend(m)) && m@ == exited_text(thread@),
            },
    {
        match launch {
            Launch::Ready => {
                self.running = true;
                Ok(())
            },
            Launch::Failed(e) => Err(e),
            Launch::SpawnFailed(cause) => Err(
                Error::Backend(spawn_failed(thread, cause.as_str())),
            ),
            Launch::Vanished => Err(
                Error::Backend(joined(thread, " thread exited before reporting readiness")),
            ),
        }
    }

    /// Stops. Returns whether there is a thread to wake and to join.
    pub fn stop(&mut self) -> (join: bool)
        ensures
            join == old(self).running(),
            final(self).running() == after_stop(old(self).running()),
    {
        let join: bool = self.running;
        self.running = false;
        join
    }
}

/// What stopping a loop takes.
#[derive(Debug, Clone, Copy, PartialEq, Eq, Structural)]
pub struct Stop {
    /// Tell the loop to quit.
    pub notify: bool,
    /// Join its thread.
    pub join: bool,
}

/// The life of a loop on a thread, guarded by a flag that is set before the thread is spawned.
#[derive(Debug)]
pub struct LoopLife {
    running: bool,
    thread: bool,
}

impl LoopLife {
    /// Whether the flag is set.
    pub closed spec fn running(self) -> bool {
        self.running
    }

    /// Whether there is a thread.
    pub closed spec fn has_thread(self) -> bool {
        self.thread
    }

    /// The flag and whether there is a thread.
    pub open spec fn state(self) -> (bool, bool) {
        (self.running(), self.has_thread())
    }

    /// No loop.
    pub fn new() -> (life: LoopLife)
        ensures
            !life.running(),
            !life.has_thread(),
    {
        LoopLife { running: false, thread: false }
    }

    /// Starts. Returns whether a thread is to be spawned: where the flag is set already,
    /// nothing is done.
    pub fn begin(&mut self) -> (spawn: bool)
        ensures
            spawn == !old(self).running(),
            final(self).running(),
            final(self).has_thread() == old(self).has_thread(),
    {
        if self.running {
            return false;
        }
        self.running = true;
        true
    }

    /// Takes in what came of spawning the loop, and says what to report. `spawned` and `setup`
    /// are what the thread is called in the two reports. Only a loop that is ready keeps the
    /// flag.
    pub fn launched(&mut self, launch: Launch<String>, spawned: &str, setup: &str) -> (r: Result<
        (),
        Error,
    >)
        requires
            old(self).running(),
            !old(self).has_thread(),
        ensures
            final(self).state() == loop_after_start((false, false), launch),
            match launch {
                Launch::Ready => r is Ok,
                Launch::Failed(m) => r matches Err(Error::Backend(t)) && t@ == m@,
                Launch::SpawnFailed(cause) => r matches Err(Error::Backend(m)) && m@
                    == spawn_failed_text(spawned@, cause@),
                Launch::Vanished => r matches Err(Error::Backend(m)) && m@ == terminated_text(
                    setup@,
                ),
            },
    {
        match launch {
            Launch::Ready => {
                self.thread = true;
                Ok(())
            },
            Launch::Failed(m) => {
                self.running = false;
                Err(Error::Backend(m))
            },
            Launch::SpawnFailed(cause) => {
                self.running = false;
                Err(Error::Backend(spawn_failed(spawned, cause.as_str())))
            },
            Launch::Vanished => {
                self.running = false;
                Err(Error::Backend(joined(setup, " thread terminated before signaling readiness")))
            },
        }
    }

    /// Stops. A loop is told to quit only where the flag was set; a thread is joined in any
    /// case.
    pub fn stop(&mut self) -> (stop: Stop)
        ensures
            stop.join == old(self).has_thread(),
            stop.notify == (old(self).running() && old(self).has_thread()),
            final(self).state() == loop_after_stop(old(self).state()),
    {
        let stop: Stop = Stop { notify: self.running && self.thread, join: self.thread };
        self.running = false;
        self.thread = false;
        stop
    }
}

/// Starting a thread that runs changes nothing, stopping twice is stopping once, and a start
/// that failed leaves room for another one.
pub proof fn lemma_thread_calls_are_idempotent(running: bool, ready: bool)
    ensures
        after_start(true, ready),
        after_stop(after_stop(running)) == after_stop(running),
        !after_start(false, false),
        after_start(after_start(false, false), true),
        after_start(after_stop(running), true),
{
}

/// Starting a loop that runs changes nothing, and stopping twice is stopping once. A start that
/// failed in any way leaves room for another one, and so does a stop.
pub proof fn lemma_loop_calls_are_idempotent<E>(state: (bool, bool), launch: Launch<E>)
    ensures
        loop_after_start((true, state.1), launch) == (true, state.1),
        loop_after_stop(loop_after_stop(state)) == loop_after_stop(state),
        launch !is Ready ==> loop_after_start((false, false), launch) == (false, false),
        launch is Ready ==> loop_after_start(loop_after_stop(state), launch) == (true, true),
{
}

/// Between calls a loop has a thread exactly where its flag is set: so a start does nothing
/// only where a thread runs, and stopping joins no thread that was not told to quit.
pub proof fn lemma_thread_goes_with_flag<E>(state: (bool, bool), launch: Launch<E>)
    requires
        state.1 == state.0,
    ensures
        loop_after_start(state, launch).1 == loop_after_start(state, launch).0,
        loop_after_stop(state).1 == loop_after_stop(state).0,
{
}

/// A report of a thread that did not come about names the thread, and the cause where there is
/// one.
pub proof fn lemma_reports_name_the_thread(thread: Seq<char>, cause: Seq<char>)
    ensures
        spawn_failed_text(thread, cause) == "spawn "@ + thread + " thread: "@ + cause,
        exited_text(thread) == thread + " thread exited before reporting readiness"@,
        terminated_text(thread) == thread + " thread terminated before signaling readiness"@,
{
}

/// A thread runs after a start exactly where it ran before or became ready, and never after a
/// stop.
pub proof fn lemma_only_ready_threads_run<E>(running: bool, ready: bool, launch: Launch<E>)
    ensures
        after_start(running, ready) <==> running || ready,
        !after_stop(running),
        loop_after_stop((running, ready)) == (false, false),
        loop_after_start((false, ready), launch) == (launch is Ready, launch is Ready),
        loop_after_start((true, ready), launch) == (true, ready),
{
}

/// Only a thread that is ready is kept, and only then nothing is reported; a thread's own error is
/// passed on.
pub proof fn lemma_launches_are_reported(
    life: &mut ThreadLife,
    launch: Launch<Error>,
    thread: &str,
    r: Result<(), Error>,
    stopped: &mut ThreadLife,
    join: bool,
)
    requires
        !old(life).running(),
        call_ensures(ThreadLife::launched, (life, launch, thread), r),
        call_ensures(ThreadLife::stop, (stopped,), join),
    ensures
        r is Ok <==> launch is Ready,
        final(life).running() <==> launch is Ready,
        launch is Failed ==> r == Err::<(), Error>(launch->Failed_0),
        launch is SpawnFailed || launch is Vanished ==> r is Err && r->Err_0 is Backend,
        join <==> old(stopped).running(),
        !final(stopped).running(),
{
}

/// The same of a loop: what it reports is passed on as a failure of the backend, and stopping it
/// tells it to quit where it runs, and joins it where there is a thread.
pub proof fn lemma_loop_launches_are_reported(
    life: &mut LoopLife,
    launch: Launch<String>,
    spawned: &str,
    setup: &str,
    r: Result<(), Error>,
    ended: &mut LoopLife,
    stop: Stop,
)
    requires
        call_ensures(LoopLife::launched, (life, launch, spawned, setup), r),
        call_ensures(LoopLife::stop, (ended,), stop),
    ensures
        r is Ok <==> launch is Ready,
        final(life).running() <==> launch is Ready,
        final(life).has_thread() <==> launch is Ready,
        launch is Failed ==> r is Err && r->Err_0 is Backend && (r->Err_0)->Backend_0@
            == launch->Failed_0@,
        stop.join == old(ended).has_thread(),
        stop.notify == (old(ended).has_thread() && old(ended).running()),
        !final(ended).running() && !final(ended).has_thread(),
{
}

} // verus!

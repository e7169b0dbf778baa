//! The three PipeWire backends: what they capture, when their loops start and stop, and what
//! they report.

use crate::lifecycle::{Launch, LoopLife, Stop};
use crate::linux::graph::PidSelect;
use crate::linux::props::{NATIVE_CHANNELS, NATIVE_RATE};
use crate::linux::watch::enqueue_event;
use crate::types::{DeviceEvent, Error, ProcessMode};
use std::collections::VecDeque;
use vstd::prelude::*;

verus! {

/// What a system capture connects to.
#[derive(Debug, Clone, Copy, PartialEq, Eq, Structural)]
pub enum SystemPlan {
    /// The monitor of the default output.
    Monitor,
    /// The outputs of all applications that are selected.
    Applications(PidSelect),
}

/// Captures what the system plays.
#[derive(Debug)]
pub struct PwSystemBackend {
    exclude_self: bool,
    life: LoopLife,
}

impl PwSystemBackend {
    /// Whether this process is left out.
    pub closed spec fn excludes_self(self) -> bool {
        self.exclude_self
    }

    /// Its loop.
    pub closed spec fn life(self) -> LoopLife {
        self.life
    }

    /// A backend that does not run.
    pub fn new(exclude_self: bool) -> (b: PwSystemBackend)
        ensures
            b.excludes_self() == exclude_self,
            b.life().state() == (false, false),
    {
        PwSystemBackend { exclude_self, life: LoopLife::new() }
    }

    /// Whether this process is left out.
    pub fn exclude_self(&self) -> (r: bool)
        ensures
            r == self.excludes_self(),
    {
        self.exclude_self
    }

    /// Rate and channels in which it delivers.
    pub fn native_format(&self) -> (format: (u32, u16))
        ensures
            format == (48_000u32, 2u16),
    {
        (NATIVE_RATE, NATIVE_CHANNELS)
    }

    /// Name of the thread.
    pub fn thread_name(&self) -> (name: &'static str)
        ensures
            name@ == (if self.excludes_self() {
                "flexaudio-pw-system-excl"@
            } else {
                "flexaudio-pw-system"@
            }),
    {
        if self.exclude_self {
            "flexaudio-pw-system-excl"
        } else {
            "flexaudio-pw-system"
        }
    }

    /// Starts: what to connect to on a new thread, or nothing where the backend runs already.
    /// A monitor cannot leave one process out, so then the applications are captured one by
    /// one, all but the process `own_pid`.
    pub fn begin(&mut self, own_pid: u32) -> (plan: Option<SystemPlan>)
        ensures
            final(self).excludes_self() == old(self).excludes_self(),
            final(self).life().state() == (true, old(self).life().has_thread()),
            plan == (if old(self).life().running() {
                None
            } else if old(self).excludes_self() {
                Some(SystemPlan::Applications(PidSelect::Exclude(own_pid)))
            } else {
                Some(SystemPlan::Monitor)
            }),
    {
        if !self.life.begin() {
            None
        } else if self.exclude_self {
            Some(SystemPlan::Applications(PidSelect::Exclude(own_pid)))
        } else {
            Some(SystemPlan::Monitor)
        }
    }

    /// What to report of the launch.
    pub fn launched(&mut self, launch: Launch<String>) -> (r: Result<(), Error>)
        requires
            old(self).life().state() == (true, false),
        ensures
            final(self).excludes_self() == old(self).excludes_self(),
            final(self).life().state() == crate::lifecycle::loop_after_start((false, false), launch),
            match launch {
                Launch::Ready => r is Ok,
                Launch::Failed(m) => r matches Err(Error::Backend(t)) && t@ == m@,
                Launch::SpawnFailed(cause) => r matches Err(Error::Backend(m)) && m@
                    == crate::lifecycle::spawn_failed_text("pipewire"@, cause@),
                Launch::Vanished => r matches Err(Error::Backend(m)) && m@
                    == crate::lifecycle::terminated_text("pipewire setup"@),
            },
    {
        self.life.launched(launch, "pipewire", "pipewire setup")
    }

    /// Stops.
    pub fn stop(&mut self) -> (stop: Stop)
        ensures
            final(self).excludes_self() == old(self).excludes_self(),
            stop.join == old(self).life().has_thread(),
            stop.notify == (old(self).life().running() && old(self).life().has_thread()),
            final(self).life().state() == (false, false),
    {
        self.life.stop()
    }
}

impl Default for PwSystemBackend {
    fn default() -> (b: PwSystemBackend)
        ensures
            !b.excludes_self(),
            b.life().state() == (false, false),
    {
        PwSystemBackend::new(false)
    }
}

/// Captures what one process plays, or everything but that.
#[derive(Debug)]
pub struct PwProcessBackend {
    target_pid: u32,
    mode: ProcessMode,
    life: LoopLife,
}

impl PwProcessBackend {
    /// The process, and what happens to it.
    pub closed spec fn target(self) -> (u32, ProcessMode) {
        (self.target_pid, self.mode)
    }

    /// Its loop.
    pub closed spec fn life(self) -> LoopLife {
        self.life
    }

    /// A backend that does not run.
    pub fn new(target_pid: u32, mode: ProcessMode) -> (b: PwProcessBackend)
        ensures
            b.target() == (target_pid, mode),
            b.life().state() == (false, false),
    {
        PwProcessBackend { target_pid, mode, life: LoopLife::new() }
    }

    /// The process.
    pub fn target_pid(&self) -> (pid: u32)
        ensures
            pid == self.target().0,
    {
        self.target_pid
    }

    /// What happens to it.
    pub fn mode(&self) -> (mode: ProcessMode)
        ensures
            mode == self.target().1,
    {
        self.mode
    }

    /// Rate and channels in which it delivers.
    pub fn native_format(&self) -> (format: (u32, u16))
        ensures
            format == (48_000u32, 2u16),
    {
        (NATIVE_RATE, NATIVE_CHANNELS)
    }

    /// Starts: which applications to connect to on a new thread, or nothing where the backend
    /// runs already.
    pub fn begin(&mut self) -> (select: Option<PidSelect>)
        ensures
            final(self).target() == old(self).target(),
            final(self).life().state() == (true, old(self).life().has_thread()),
            select == (if old(self).life().running() {
                None
            } else {
                match old(self).target().1 {
                    ProcessMode::Include => Some(PidSelect::Include(old(self).target().0)),
                    ProcessMode::Exclude => Some(PidSelect::Exclude(old(self).target().0)),
                }
            }),
    {
        if !self.life.begin() {
            return None;
        }
        Some(PidSelect::of_mode(self.target_pid, self.mode))
    }

    /// What to report of the launch.
    pub fn launched(&mut self, launch: Launch<String>) -> (r: Result<(), Error>)
        requires
            old(self).life().state() == (true, false),
        ensures
            final(self).target() == old(self).target(),
            final(self).life().state() == crate::lifecycle::loop_after_start((false, false), launch),
            match launch {
                Launch::Ready => r is Ok,
                Launch::Failed(m) => r matches Err(Error::Backend(t)) && t@ == m@,
                Launch::SpawnFailed(cause) => r matches Err(Error::Backend(m)) && m@
                    == crate::lifecycle::spawn_failed_text("pipewire process"@, cause@),
                Launch::Vanished => r matches Err(Error::Backend(m)) && m@
                    == crate::lifecycle::terminated_text("pipewire process setup"@),
            },
    {
        self.life.launched(launch, "pipewire process", "pipewire process setup")
    }

    /// Stops.
    pub fn stop(&mut self) -> (stop: Stop)
        ensures
            final(self).target() == old(self).target(),
            stop.join == old(self).life().has_thread(),
            stop.notify == (old(self).life().running() && old(self).life().has_thread()),
            final(self).life().state() == (false, false),
    {
        self.life.stop()
    }
}

/// Watches devices come and go.
#[derive(Debug)]
pub struct PwDeviceWatcher {
    events: VecDeque<DeviceEvent>,
    life: LoopLife,
}

impl PwDeviceWatcher {
    /// The events that wait, the oldest first.
    pub closed spec fn events(self) -> Seq<DeviceEvent> {
        self.events@
    }

    /// Its loop.
    pub closed spec fn life(self) -> LoopLife {
        self.life
    }

    /// A watcher whose loop was launched, or the report of why there is none.
    pub fn start(launch: Launch<String>) -> (r: Result<PwDeviceWatcher, Error>)
        ensures
            r is Ok <==> launch is Ready,
            match r {
                Ok(w) => w.events() == Seq::<DeviceEvent>::empty() && w.life().state() == (
                    true,
                    true,
                ),
                Err(e) => e matches Error::Backend(t) && (match launch {
                    Launch::Ready => false,
                    Launch::Failed(m) => t@ == m@,
                    Launch::SpawnFailed(cause) => t@ == crate::lifecycle::spawn_failed_text(
                        "pipewire watch"@,
                        cause@,
                    ),
                    Launch::Vanished => t@ == crate::lifecycle::terminated_text("pipewire watch"@),
                }),
            },
    {
        let mut life: LoopLife = LoopLife::new();
        let _ = life.begin();
        match life.launched(launch, "pipewire watch", "pipewire watch") {
            Ok(_) => Ok(PwDeviceWatcher { events: VecDeque::new(), life }),
            Err(e) => Err(e),
        }
    }

    /// Takes in an event of the loop. Where too many wait, the oldest goes.
    pub fn deliver(&mut self, event: DeviceEvent)
        ensures
            final(self).life() == old(self).life(),
            final(self).events() == crate::linux::watch::enqueued(old(self).events(), event),
            final(self).events().len() <= crate::linux::watch::MAX_WATCH_EVENTS,
    {
        enqueue_event(&mut self.events, event);
    }

    /// The oldest event that waits.
    pub fn poll_event(&mut self) -> (event: Option<DeviceEvent>)
        ensures
            final(self).life() == old(self).life(),
            match event {
                Some(e) => old(self).events().len() > 0 && e == old(self).events()[0]
                    && final(self).events() == old(self).events().skip(1),
                None => old(self).events().len() == 0 && final(self).events()
                    == old(self).events(),
            },
    {
        self.events.pop_front()
    }

    /// Stops.
    pub fn stop(&mut self) -> (stop: Stop)
        ensures
            final(self).events() == old(self).events(),
            stop.join == old(self).life().has_thread(),
            stop.notify == (old(self).life().running() && old(self).life().has_thread()),
            final(self).life().state() == (false, false),
    {
        self.life.stop()
    }
}

/// A system capture connects to the monitor, or, to leave this process out, to every other
/// application; a backend that runs is not started again.
pub proof fn lemma_what_a_system_capture_connects_to(
    exclude_self: bool,
    fresh: PwSystemBackend,
    b: &mut PwSystemBackend,
    own_pid: u32,
    plan: Option<SystemPlan>,
)
    requires
        call_ensures(PwSystemBackend::new, (exclude_self,), fresh),
        call_ensures(PwSystemBackend::begin, (b, own_pid), plan),
    ensures
        fresh.excludes_self() == exclude_self && !fresh.life().running(),
        old(b).life().running() ==> plan is None,
        !old(b).life().running() && old(b).excludes_self() ==> plan == Some(
            SystemPlan::Applications(PidSelect::Exclude(own_pid)),
        ),
        !old(b).life().running() && !old(b).excludes_self() ==> plan == Some(SystemPlan::Monitor),
        final(b).life().running(),
{
}

/// A process capture connects to that process alone, or to every other one.
pub proof fn lemma_what_a_process_capture_connects_to(
    target_pid: u32,
    mode: ProcessMode,
    fresh: PwProcessBackend,
    b: &mut PwProcessBackend,
    select: Option<PidSelect>,
)
    requires
        call_ensures(PwProcessBackend::new, (target_pid, mode), fresh),
        call_ensures(PwProcessBackend::begin, (b,), select),
    ensures
        fresh.target() == (target_pid, mode),
        old(b).life().running() ==> select is None,
        !old(b).life().running() && old(b).target().1 == ProcessMode::Include ==> select == Some(
            PidSelect::Include(old(b).target().0),
        ),
        !old(b).life().running() && old(b).target().1 == ProcessMode::Exclude ==> select == Some(
            PidSelect::Exclude(old(b).target().0),
        ),
{
}

/// The watcher's events come out in the order in which they went in, each once.
pub proof fn lemma_events_come_out_in_order(
    w: &mut PwDeviceWatcher,
    e: DeviceEvent,
    r: &mut PwDeviceWatcher,
    got: Option<DeviceEvent>,
)
    requires
        call_ensures(PwDeviceWatcher::deliver, (w, e), ()),
        call_ensures(PwDeviceWatcher::poll_event, (r,), got),
    ensures
        old(w).events().len() < 1024 ==> final(w).events() == old(w).events().push(e),
        old(w).events().len() == 1024 ==> final(w).events() == old(w).events().skip(1).push(e),
        old(r).events().len() > 0 ==> got == Some(old(r).events()[0]) && final(r).events() == old(
            r).events().skip(1),
        old(r).events().len() == 0 ==> got is None,
{
}

} // verus!

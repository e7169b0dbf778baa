//! The rules of the Core Audio backends: which system they need, what is tapped, in which order
//! a tap chain is built and taken down, what a status code means, and how planar buffers become
//! interleaved samples. The calls into Core Audio are outside.

use crate::lifecycle::{Launch, ThreadLife};
use crate::sample::Sample;
use crate::text::{joined, owned, push_signed_decimal};
use crate::types::Error;
use vstd::prelude::*;

verus! {

/// The status code of success.
pub const NO_ERR: i32 = 0;

/// Rate and channels where the tap's own are not known.
pub const FALLBACK_FORMAT: (u32, u16) = (48_000, 2);

/// `'nope'`: an illegal operation, which is what a missing permission looks like.
pub const ILLEGAL_OPERATION: i32 = 0x6e6f7065;

/// `'stop'`: not running.
pub const NOT_RUNNING: i32 = 0x73746f70;

/// `'!obj'`: no such object.
pub const BAD_OBJECT: i32 = 0x216f626a;

/// A status code as an unsigned number of 32 bits.
pub open spec fn unsigned_status(status: i32) -> int {
    if status < 0 {
        status + 0x1_0000_0000
    } else {
        status as int
    }
}

/// The four bytes of a status code, the most significant first.
pub open spec fn status_bytes(status: i32) -> Seq<int> {
    let u = unsigned_status(status);
    seq![u / 0x100_0000, u / 0x1_0000 % 0x100, u / 0x100 % 0x100, u % 0x100]
}

/// Whether a status code reads as four printable characters.
pub open spec fn is_readable(status: i32) -> bool {
    let b = status_bytes(status);
    0x20 <= b[0] <= 0x7e && 0x20 <= b[1] <= 0x7e && 0x20 <= b[2] <= 0x7e && 0x20 <= b[3] <= 0x7e
}

/// The four characters of a status code.
pub open spec fn status_chars(status: i32) -> Seq<char> {
    status_bytes(status).map_values(|b: int| b as char)
}

/// The text of a status code that has no meaning of its own.
pub open spec fn status_text(ctx: Seq<char>, status: i32) -> Seq<char> {
    match status {
        NOT_RUNNING => ctx + ": CoreAudio not running (OSStatus 'stop')"@,
        BAD_OBJECT => ctx + ": bad audio object (OSStatus '!obj')"@,
        _ => if is_readable(status) {
            ctx + ": OSStatus '"@ + status_chars(status) + "' ("@ + crate::text::signed_decimal(
                status as int,
            ) + ")"@
        } else {
            ctx + ": OSStatus "@ + crate::text::signed_decimal(status as int)
        },
    }
}

/// Whether `e` is the error of a status code.
pub open spec fn is_status_error(e: Error, ctx: Seq<char>, status: i32) -> bool {
    if status == ILLEGAL_OPERATION {
        e is PermissionDenied
    } else {
        e matches Error::Backend(m) && m@ == status_text(ctx, status)
    }
}

/// The error of a status code.
pub fn map_os_status(ctx: &str, status: i32) -> (e: Error)
    ensures
        is_status_error(e, ctx@, status),
{
    if status == ILLEGAL_OPERATION {
        return Error::PermissionDenied;
    }
    if status == NOT_RUNNING {
        return Error::Backend(joined(ctx, ": CoreAudio not running (OSStatus 'stop')"));
    }
    if status == BAD_OBJECT {
        return Error::Backend(joined(ctx, ": bad audio object (OSStatus '!obj')"));
    }
    let u: u32 = if status < 0 {
        (status as i64 + 0x1_0000_0000) as u32
    } else {
        status as u32
    };
    let b0: u8 = (u / 0x100_0000) as u8;
    let b1: u8 = (u / 0x1_0000 % 0x100) as u8;
    let b2: u8 = (u / 0x100 % 0x100) as u8;
    let b3: u8 = (u % 0x100) as u8;
    if printable(b0) && printable(b1) && printable(b2) && printable(b3) {
        let mut text: String = joined(ctx, ": OSStatus '");
        let ghost before = text@;
        text.push(b0 as char);
        text.push(b1 as char);
        text.push(b2 as char);
        text.push(b3 as char);
        assert(text@ =~= before + status_chars(status));
        text.append("' (");
        push_signed_decimal(&mut text, status);
        text.append(")");
        Error::Backend(text)
    } else {
        let mut text: String = joined(ctx, ": OSStatus ");
        push_signed_decimal(&mut text, status);
        Error::Backend(text)
    }
}

fn printable(b: u8) -> (r: bool)
    ensures
        r == (0x20 <= b <= 0x7e),
{
    0x20 <= b && b <= 0x7e
}

/// Oldest system with process taps: its major version.
pub const MIN_MAJOR: i64 = 14;

/// Oldest system with process taps: its minor version.
pub const MIN_MINOR: i64 = 4;

/// Whether a version is new enough: later versions come later in the order of (major, minor).
pub open spec fn new_enough(major: i64, minor: i64) -> bool {
    major > MIN_MAJOR || (major == MIN_MAJOR && minor >= MIN_MINOR)
}

/// Whether a system of this version has process taps: 14.4 and later.
pub fn meets_min_version(major: i64, minor: i64) -> (r: bool)
    ensures
        r == new_enough(major, minor),
{
    major > MIN_MAJOR || (major == MIN_MAJOR && minor >= MIN_MINOR)
}

/// What is new enough stays so with every later version.
pub proof fn lemma_later_versions_are_new_enough(major: i64, minor: i64, to_major: i64, to_minor: i64)
    requires
        new_enough(major, minor),
        to_major > major || (to_major == major && to_minor >= minor),
    ensures
        new_enough(to_major, to_minor),
{
}

/// Accepts a system of this version, or reports that it is too old.
pub fn ensure_process_tap_supported(major: i64, minor: i64) -> (r: Result<(), Error>)
    ensures
        r is Ok <==> new_enough(major, minor),
        r matches Err(e) ==> e is UnsupportedOsVersion,
{
    if meets_min_version(major, minor) {
        Ok(())
    } else {
        Err(Error::UnsupportedOsVersion)
    }
}

/// The format that a tap reports, where both its numbers make sense.
pub fn tap_native_format(status: i32, rate: u32, channels: u16) -> (r: Option<(u32, u16)>)
    ensures
        r == (if status == NO_ERR && rate != 0 && channels != 0 {
            Some((rate, channels))
        } else {
            None
        }),
{
    if status != NO_ERR || rate == 0 || channels == 0 {
        None
    } else {
        Some((rate, channels))
    }
}

/// The audio object of a process, as the system answered; 0 where the process has none.
pub fn translated_object(status: i32, object: u32) -> (r: Result<u32, Error>)
    ensures
        match r {
            Ok(o) => status == NO_ERR && o == object,
            Err(e) => status != NO_ERR && is_status_error(
                e,
                "AudioObjectGetPropertyData(TranslatePIDToProcessObject)"@,
                status,
            ),
        },
{
    if status != NO_ERR {
        Err(map_os_status("AudioObjectGetPropertyData(TranslatePIDToProcessObject)", status))
    } else {
        Ok(object)
    }
}

/// What is tapped.
#[derive(Debug, PartialEq, Eq)]
pub enum TapKind {
    /// What these processes play, mixed down.
    IncludeProcesses(Vec<u32>),
    /// Everything but what these processes play.
    ExcludeProcesses(Vec<u32>),
}

/// What a process capture taps. A process without an audio object cannot be tapped.
pub fn process_tap(object: Result<u32, Error>, exclude: bool) -> (r: Result<TapKind, Error>)
    ensures
        match object {
            Err(e) => r == Err::<TapKind, Error>(e),
            Ok(0) => r matches Err(Error::DeviceNotFound),
            Ok(id) => if exclude {
                r matches Ok(TapKind::ExcludeProcesses(ids)) && ids@ == seq![id]
            } else {
                r matches Ok(TapKind::IncludeProcesses(ids)) && ids@ == seq![id]
            },
        },
{
    match object {
        Err(e) => Err(e),
        Ok(id) => {
            if id == 0 {
                return Err(Error::DeviceNotFound);
            }
            let mut ids: Vec<u32> = Vec::new();
            ids.push(id);
            assert(ids@ =~= seq![id]);
            if exclude {
                Ok(TapKind::ExcludeProcesses(ids))
            } else {
                Ok(TapKind::IncludeProcesses(ids))
            }
        },
    }
}

/// What a system capture taps: everything, or everything but this process. Where this process
/// has no audio object there is nothing to leave out. `own` is asked for only where it is to
/// be left out.
pub fn system_tap(exclude_self: bool, own: Result<u32, Error>) -> (r: Result<TapKind, Error>)
    ensures
        if !exclude_self {
            r matches Ok(TapKind::ExcludeProcesses(ids)) && ids@ == Seq::<u32>::empty()
        } else {
            match own {
                Err(e) => r == Err::<TapKind, Error>(e),
                Ok(0) => r matches Ok(TapKind::ExcludeProcesses(ids)) && ids@ == Seq::<
                    u32,
                >::empty(),
                Ok(id) => r matches Ok(TapKind::ExcludeProcesses(ids)) && ids@ == seq![id],
            }
        },
{
    let mut ids: Vec<u32> = Vec::new();
    if exclude_self {
        match own {
            Err(e) => return Err(e),
            Ok(id) => {
                if id != 0 {
                    ids.push(id);
                    assert(ids@ =~= seq![id]);
                }
            },
        }
    }
    Ok(TapKind::ExcludeProcesses(ids))
}

/// The name that a tap and its device are given.
pub fn tap_label(kind: &TapKind) -> (label: &'static str)
    ensures
        label@ == (match kind {
            TapKind::IncludeProcesses(_) => "flexaudio-process-tap"@,
            TapKind::ExcludeProcesses(_) => "flexaudio-system-tap"@,
        }),
{
    match kind {
        TapKind::IncludeProcesses(_) => "flexaudio-process-tap",
        TapKind::ExcludeProcesses(_) => "flexaudio-system-tap",
    }
}

/// What a tap chain is made of, in the order in which it is made.
#[derive(Debug, Clone, Copy, PartialEq, Eq, Structural)]
pub enum TapPart {
    /// The process tap.
    Tap,
    /// The private aggregate device around it.
    Aggregate,
    /// The callback that is registered with the device.
    Callback,
    /// The running device.
    Running,
}

/// A tap chain while it is built and while it stands.
#[derive(Debug)]
pub struct TapChain {
    tap_id: u32,
    aggregate_id: u32,
    callback: bool,
    running: bool,
}

/// The parts of a complete chain, in the order in which they are made.
pub open spec fn all_parts() -> Seq<TapPart> {
    seq![TapPart::Tap, TapPart::Aggregate, TapPart::Callback, TapPart::Running]
}

/// Whether a part came about: the call succeeded and gave what it is for.
pub open spec fn part_made(part: TapPart, status: i32, id: u32) -> bool {
    status == NO_ERR && (part == TapPart::Running || id != 0)
}

/// Whether `e` reports that a part did not come about.
pub open spec fn is_part_error(e: Error, part: TapPart, status: i32) -> bool {
    match part {
        TapPart::Tap => if status == NO_ERR {
            e matches Error::Backend(m) && m@
                == "AudioHardwareCreateProcessTap returned null tap id"@
        } else {
            is_status_error(e, "AudioHardwareCreateProcessTap"@, status)
        },
        TapPart::Aggregate => if status == NO_ERR {
            e matches Error::Backend(m) && m@
                == "AudioHardwareCreateAggregateDevice returned null device id"@
        } else {
            is_status_error(e, "AudioHardwareCreateAggregateDevice"@, status)
        },
        TapPart::Callback => is_status_error(e, "AudioDeviceCreateIOProcIDWithBlock"@, status),
        TapPart::Running => is_status_error(e, "AudioDeviceStart"@, status),
    }
}

impl TapChain {
    /// The parts that stand, in the order in which they were made.
    pub closed spec fn made(self) -> Seq<TapPart> {
        if self.tap_id == 0 {
            seq![]
        } else if self.aggregate_id == 0 {
            seq![TapPart::Tap]
        } else if !self.callback {
            seq![TapPart::Tap, TapPart::Aggregate]
        } else if !self.running {
            seq![TapPart::Tap, TapPart::Aggregate, TapPart::Callback]
        } else {
            all_parts()
        }
    }

    /// The ids of the tap and of the device.
    pub closed spec fn ids(self) -> (u32, u32) {
        (self.tap_id, self.aggregate_id)
    }

    /// No part is made before the one that it needs.
    pub closed spec fn wf(self) -> bool {
        &&& self.aggregate_id != 0 ==> self.tap_id != 0
        &&& self.callback ==> self.aggregate_id != 0
        &&& self.running ==> self.callback
    }

    /// A chain of which nothing stands yet.
    pub fn new() -> (chain: TapChain)
        ensures
            chain.wf(),
            chain.made() == Seq::<TapPart>::empty(),
    {
        TapChain { tap_id: 0, aggregate_id: 0, callback: false, running: false }
    }

    /// The id of the tap, 0 before it is made.
    pub fn tap_id(&self) -> (id: u32)
        ensures
            id == self.ids().0,
    {
        self.tap_id
    }

    /// The id of the device, 0 before it is made.
    pub fn aggregate_id(&self) -> (id: u32)
        ensures
            id == self.ids().1,
    {
        self.aggregate_id
    }

    /// The part that is to be made next; none once the chain is complete.
    pub fn next(&self) -> (part: Option<TapPart>)
        requires
            self.wf(),
        ensures
            match part {
                Some(p) => self.made().len() < 4 && p == all_parts()[self.made().len() as int],
                None => self.made() == all_parts(),
            },
    {
        if self.tap_id == 0 {
            Some(TapPart::Tap)
        } else if self.aggregate_id == 0 {
            Some(TapPart::Aggregate)
        } else if !self.callback {
            Some(TapPart::Callback)
        } else if !self.running {
            Some(TapPart::Running)
        } else {
            None
        }
    }

    /// Takes in what came of making the next part: the status of the call, and the id that it
    /// gave (for the callback, anything but 0 where there is one). A part that did not come
    /// about is reported, and the chain is as it was; what stands of it is then taken down.
    pub fn report(&mut self, status: i32, id: u32) -> (r: Result<(), Error>)
        requires
            old(self).wf(),
            old(self).made().len() < 4,
        ensures
            final(self).wf(),
            ({
                let part = all_parts()[old(self).made().len() as int];
                match r {
                    Ok(_) => {
                        &&& part_made(part, status, id)
                        &&& final(self).made() == old(self).made().push(part)
                        &&& final(self).ids() == (match part {
                            TapPart::Tap => (id, old(self).ids().1),
                            TapPart::Aggregate => (old(self).ids().0, id),
                            _ => old(self).ids(),
                        })
                    },
                    Err(e) => {
                        &&& !part_made(part, status, id)
                        &&& is_part_error(e, part, status)
                        &&& *final(self) == *old(self)
                    },
                }
            }),
    {
        if self.tap_id == 0 {
            if status != NO_ERR {
                return Err(map_os_status("AudioHardwareCreateProcessTap", status));
            }
            if id == 0 {
                return Err(
                    Error::Backend(owned("AudioHardwareCreateProcessTap returned null tap id")),
                );
            }
            self.tap_id = id;
            assert(self.made() =~= old(self).made().push(TapPart::Tap));
        } else if self.aggregate_id == 0 {
            if status != NO_ERR {
                return Err(map_os_status("AudioHardwareCreateAggregateDevice", status));
            }
            if id == 0 {
                return Err(
                    Error::Backend(
                        owned("AudioHardwareCreateAggregateDevice returned null device id"),
                    ),
                );
            }
            self.aggregate_id = id;
            assert(self.made() =~= old(self).made().push(TapPart::Aggregate));
        } else if !self.callback {
            if status != NO_ERR || id == 0 {
                return Err(map_os_status("AudioDeviceCreateIOProcIDWithBlock", status));
            }
            self.callback = true;
            assert(self.made() =~= old(self).made().push(TapPart::Callback));
        } else {
            if status != NO_ERR {
                return Err(map_os_status("AudioDeviceStart", status));
            }
            self.running = true;
            assert(self.made() =~= old(self).made().push(TapPart::Running));
        }
        Ok(())
    }

    /// Takes the chain down: the parts that stand, in the order in which they are to be undone,
    /// which is the reverse of the order in which they were made.
    pub fn teardown(&mut self) -> (parts: Vec<TapPart>)
        requires
            old(self).wf(),
        ensures
            final(self).wf(),
            final(self).made() == Seq::<TapPart>::empty(),
            final(self).ids() == (0u32, 0u32),
            parts@ == old(self).made().reverse(),
    {
        let mut parts: Vec<TapPart> = Vec::new();
        if self.running {
            parts.push(TapPart::Running);
        }
        if self.callback {
            parts.push(TapPart::Callback);
        }
        if self.aggregate_id != 0 {
            parts.push(TapPart::Aggregate);
        }
        if self.tap_id != 0 {
            parts.push(TapPart::Tap);
        }
        assert(parts@ =~= self.made().reverse());
        self.running = false;
        self.callback = false;
        self.aggregate_id = 0;
        self.tap_id = 0;
        parts
    }
}

/// A chain that was built to the end is taken down by stopping the device, then removing the
/// callback, then the device, then the tap.
pub proof fn lemma_complete_chain_comes_down_in_order(chain: TapChain)
    requires
        chain.made() == all_parts(),
    ensures
        chain.made().reverse() == seq![
            TapPart::Running,
            TapPart::Callback,
            TapPart::Aggregate,
            TapPart::Tap,
        ],
{
    assert(all_parts().reverse() =~= seq![
        TapPart::Running,
        TapPart::Callback,
        TapPart::Aggregate,
        TapPart::Tap,
    ]);
}

/// A chain whose next part failed is taken down without that part: everything before it, the
/// newest first.
pub proof fn lemma_failed_chain_leaves_nothing(chain: TapChain, k: int)
    requires
        chain.wf(),
        0 <= k < chain.made().len(),
    ensures
        chain.made().len() <= 4,
        chain.made()[k] == all_parts()[k],
        chain.made().reverse()[chain.made().len() - 1 - k] == all_parts()[k],
{
}

/// The smallest number of samples in any of the buffers.
pub open spec fn shortest(buffers: Seq<Option<Vec<Sample>>>) -> int
    decreases buffers.len(),
{
    if buffers.len() == 0 {
        usize::MAX as int
    } else {
        let before = shortest(buffers.drop_last());
        match buffers.last() {
            Some(b) => if b@.len() < before {
                b@.len() as int
            } else {
                before
            },
            None => before,
        }
    }
}

/// What a list of buffers holds as interleaved samples. One buffer is interleaved already; of
/// several each is one channel, cut to the shortest. Nothing comes of a missing buffer or of
/// none at all.
pub open spec fn interleaved(buffers: Seq<Option<Vec<Sample>>>) -> Option<Seq<Sample>> {
    if buffers.len() == 0 || (exists|i: int| 0 <= i < buffers.len() && buffers[i] is None)
        || shortest(buffers) == 0 {
        None
    } else if buffers.len() == 1 {
        Some(buffers[0]->0@)
    } else {
        Some(
            Seq::new(
                (shortest(buffers) * buffers.len()) as nat,
                |i: int| buffers[i % buffers.len() as int]->0@[i / buffers.len() as int],
            ),
        )
    }
}

proof fn lemma_shortest(buffers: Seq<Option<Vec<Sample>>>)
    ensures
        0 <= shortest(buffers) <= usize::MAX,
        forall|i: int|
            0 <= i < buffers.len() && buffers[i] is Some ==> shortest(buffers)
                <= (#[trigger] buffers[i])->0@.len(),
    decreases buffers.len(),
{
    if buffers.len() > 0 {
        lemma_shortest(buffers.drop_last());
        assert forall|i: int| 0 <= i < buffers.len() && buffers[i] is Some implies shortest(
            buffers,
        ) <= (#[trigger] buffers[i])->0@.len() by {
            if i < buffers.len() - 1 {
                assert(buffers.drop_last()[i] == buffers[i]);
            }
        }
    }
}

/// The interleaved samples of a list of buffers, a missing one standing for no data.
pub fn interleave(buffers: &Vec<Option<Vec<Sample>>>) -> (r: Option<Vec<Sample>>)
    ensures
        match r {
            Some(v) => interleaved(buffers@) == Some(v@),
            None => interleaved(buffers@) is None,
        },
{
    let channels: usize = buffers.len();
    if channels == 0 {
        return None;
    }
    let mut frames: usize = usize::MAX;
    let mut c: usize = 0;
    assert(buffers@.take(0) =~= seq![]);
    while c < channels
        invariant
            c <= channels == buffers@.len(),
            frames == shortest(buffers@.take(c as int)),
            forall|k: int| 0 <= k < c ==> (#[trigger] buffers@[k]) is Some,
        decreases channels - c,
    {
        proof {
            assert(buffers@.take(c + 1).drop_last() =~= buffers@.take(c as int));
            assert(buffers@.take(c + 1).last() == buffers@[c as int]);
        }
        match &buffers[c] {
            None => {
                assert(buffers@[c as int] is None);
                return None;
            },
            Some(b) => {
                if b.len() < frames {
                    frames = b.len();
                }
            },
        }
        c += 1;
    }
    proof {
        assert(buffers@.take(channels as int) =~= buffers@);
        lemma_shortest(buffers@);
    }
    if frames == 0 {
        return None;
    }
    if channels == 1 {
        match &buffers[0] {
            None => None,
            Some(b) => {
                let copy: Vec<Sample> = b.clone();
                assert(copy@ =~= b@);
                Some(copy)
            },
        }
    } else {
        let ghost n = channels as int;
        let ghost whole = interleaved(buffers@)->0;
        let mut out: Vec<Sample> = Vec::new();
        let mut f: usize = 0;
        assert(0 * n == 0);
        assert(whole.len() == frames * n) by {
            assert(frames * n >= 0) by (nonlinear_arith)
                requires
                    frames >= 0,
                    n >= 0,
            ;
        }
        while f < frames
            invariant
                f <= frames,
                frames == shortest(buffers@),
                frames > 0,
                n == channels == buffers@.len(),
                n >= 2,
                forall|k: int| 0 <= k < n ==> (#[trigger] buffers@[k]) is Some,
                forall|k: int| 0 <= k < n ==> frames <= (#[trigger] buffers@[k])->0@.len(),
                interleaved(buffers@) == Some(whole),
                whole.len() == frames * n,
                out@ =~= whole.take(f * n),
            decreases frames - f,
        {
            let ghost fi = f as int;
            proof {
                assert(fi * n + n == (fi + 1) * n) by (nonlinear_arith);
                assert((fi + 1) * n <= frames * n) by (nonlinear_arith)
                    requires
                        fi + 1 <= frames,
                        n > 0,
                ;
                assert(0 <= fi * n) by (nonlinear_arith)
                    requires
                        fi >= 0,
                        n > 0,
                ;
            }
            let mut c: usize = 0;
            while c < channels
                invariant
                    c <= channels,
                    n == channels == buffers@.len(),
                    n >= 2,
                    0 <= fi == f < frames,
                    frames == shortest(buffers@),
                    0 <= fi * n,
                    fi * n + n <= whole.len(),
                    forall|k: int| 0 <= k < n ==> (#[trigger] buffers@[k]) is Some,
                    forall|k: int| 0 <= k < n ==> frames <= (#[trigger] buffers@[k])->0@.len(),
                    interleaved(buffers@) == Some(whole),
                    out@ =~= whole.take(fi * n + c),
                decreases channels - c,
            {
                let ghost ci = c as int;
                assert((fi * n + ci) / n == fi && (fi * n + ci) % n == ci) by (nonlinear_arith)
                    requires
                        0 <= ci < n,
                        0 <= fi,
                ;
                match &buffers[c] {
                    Some(b) => {
                        assert(b@.len() >= frames) by {
                            assert(buffers@[ci] is Some);
                        }
                        assert(whole[fi * n + ci] == b@[fi]);
                        out.push(b[f]);
                    },
                    None => {
                        assert(buffers@[ci] is Some);
                    },
                }
                c += 1;
            }
            f += 1;
        }
        assert(whole.take(frames * n) =~= whole);
        Some(out)
    }
}

/// Captures what the system plays.
#[derive(Debug)]
pub struct MacSystemBackend {
    exclude_self: bool,
    life: ThreadLife,
}

impl MacSystemBackend {
    /// Whether this process is left out.
    pub closed spec fn excludes_self(self) -> bool {
        self.exclude_self
    }

    /// Its thread.
    pub closed spec fn life(self) -> ThreadLife {
        self.life
    }

    /// A backend that does not run.
    pub fn new(exclude_self: bool) -> (b: MacSystemBackend)
        ensures
            b.excludes_self() == exclude_self,
            !b.life().running(),
    {
        MacSystemBackend { exclude_self, life: ThreadLife::new() }
    }

    /// Whether this process is left out.
    pub fn exclude_self(&self) -> (r: bool)
        ensures
            r == self.excludes_self(),
    {
        self.exclude_self
    }

    /// Rate and channels in which it delivers.
    pub fn native_format(&self) -> (format: (u32, u16))
        ensures
            format == (48_000u32, 2u16),
    {
        FALLBACK_FORMAT
    }

    /// Whether starting on a system of this version means to spawn the thread. A backend that
    /// runs is left alone; a system without process taps is reported before anything is tried.
    pub fn begin(&self, major: i64, minor: i64) -> (r: Result<bool, Error>)
        ensures
            if self.life().running() {
                r matches Ok(spawn) && !spawn
            } else if new_enough(major, minor) {
                r matches Ok(spawn) && spawn
            } else {
                r matches Err(Error::UnsupportedOsVersion)
            },
    {
        begin_tap(&self.life, major, minor)
    }

    /// What to report of the launch.
    pub fn launched(&mut self, launch: Launch<Error>) -> (r: Result<(), Error>)
        requires
            !old(self).life().running(),
        ensures
            final(self).excludes_self() == old(self).excludes_self(),
            final(self).life().running() == (launch is Ready),
            match launch {
                Launch::Ready => r is Ok,
                Launch::Failed(e) => r == Err::<(), Error>(e),
                Launch::SpawnFailed(cause) => r matches Err(Error::Backend(m)) && m@
                    == crate::lifecycle::spawn_failed_text("macos system"@, cause@),
                Launch::Vanished => r matches Err(Error::Backend(m)) && m@
                    == crate::lifecycle::exited_text("macos system"@),
            },
    {
        self.life.launched(launch, "macos system")
    }

    /// Stops. Returns whether there is a thread to join.
    pub fn stop(&mut self) -> (join: bool)
        ensures
            final(self).excludes_self() == old(self).excludes_self(),
            join == old(self).life().running(),
            !final(self).life().running(),
    {
        self.life.stop()
    }
}

impl Default for MacSystemBackend {
    fn default() -> (b: MacSystemBackend)
        ensures
            !b.excludes_self(),
            !b.life().running(),
    {
        MacSystemBackend::new(false)
    }
}

fn begin_tap(life: &ThreadLife, major: i64, minor: i64) -> (r: Result<bool, Error>)
    ensures
        if life.running() {
            r matches Ok(spawn) && !spawn
        } else if new_enough(major, minor) {
            r matches Ok(spawn) && spawn
        } else {
            r matches Err(Error::UnsupportedOsVersion)
        },
{
    if !life.must_spawn() {
        return Ok(false);
    }
    match ensure_process_tap_supported(major, minor) {
        Ok(_) => Ok(true),
        Err(e) => Err(e),
    }
}

/// Captures what one process plays, or everything but that.
#[derive(Debug)]
pub struct MacProcessBackend {
    target_pid: u32,
    exclude_self: bool,
    life: ThreadLife,
}

impl MacProcessBackend {
    /// The process, and whether it is the one that is left out.
    pub closed spec fn target(self) -> (u32, bool) {
        (self.target_pid, self.exclude_self)
    }

    /// Its thread.
    pub closed spec fn life(self) -> ThreadLife {
        self.life
    }

    /// A backend that does not run.
    pub fn new(target_pid: u32, exclude_self: bool) -> (b: MacProcessBackend)
        ensures
            b.target() == (target_pid, exclude_self),
            !b.life().running(),
    {
        MacProcessBackend { target_pid, exclude_self, life: ThreadLife::new() }
    }

    /// The process.
    pub fn target_pid(&self) -> (pid: u32)
        ensures
            pid == self.target().0,
    {
        self.target_pid
    }

    /// Whether the process is the one that is left out.
    pub fn exclude_self(&self) -> (r: bool)
        ensures
            r == self.target().1,
    {
        self.exclude_self
    }

    /// Rate and channels in which it delivers.
    pub fn native_format(&self) -> (format: (u32, u16))
        ensures
            format == (48_000u32, 2u16),
    {
        FALLBACK_FORMAT
    }

    /// Whether starting on a system of this version means to spawn the thread.
    pub fn begin(&self, major: i64, minor: i64) -> (r: Result<bool, Error>)
        ensures
            if self.life().running() {
                r matches Ok(spawn) && !spawn
            } else if new_enough(major, minor) {
                r matches Ok(spawn) && spawn
            } else {
                r matches Err(Error::UnsupportedOsVersion)
            },
    {
        begin_tap(&self.life, major, minor)
    }

    /// What to report of the launch.
    pub fn launched(&mut self, launch: Launch<Error>) -> (r: Result<(), Error>)
        requires
            !old(self).life().running(),
        ensures
            final(self).target() == old(self).target(),
            final(self).life().running() == (launch is Ready),
            match launch {
                Launch::Ready => r is Ok,
                Launch::Failed(e) => r == Err::<(), Error>(e),
                Launch::SpawnFailed(cause) => r matches Err(Error::Backend(m)) && m@
                    == crate::lifecycle::spawn_failed_text("macos process"@, cause@),
                Launch::Vanished => r matches Err(Error::Backend(m)) && m@
                    == crate::lifecycle::exited_text("macos process"@),
            },
    {
        self.life.launched(launch, "macos process")
    }

    /// Stops. Returns whether there is a thread to join.
    pub fn stop(&mut self) -> (join: bool)
        ensures
            final(self).target() == old(self).target(),
            join == old(self).life().running(),
            !final(self).life().running(),
    {
        self.life.stop()
    }
}

/// The four bytes of a status code make up the code again, the first one counting most.
#[verifier::spinoff_prover]
pub proof fn lemma_bytes_make_up_the_status(status: i32)
    ensures
        ({
            let b = status_bytes(status);
            let whole = 0x100_0000 * b[0] + 0x1_0000 * b[1] + 0x100 * b[2] + b[3];
            &&& b.len() == 4
            &&& forall|i: int| 0 <= i < 4 ==> 0 <= #[trigger] b[i] <= 0xff
            &&& status >= 0 ==> whole == status
            &&& status < 0 ==> whole == status + 0x1_0000_0000
        }),
{
}

/// A code has four characters exactly where all its bytes are printable, and they are its bytes.
#[verifier::spinoff_prover]
pub proof fn lemma_readable_codes_show_their_bytes(status: i32, a: int, b: int, c: int, d: int)
    requires
        0 <= a <= 0xff,
        0 <= b <= 0xff,
        0 <= c <= 0xff,
        0 <= d <= 0xff,
        0x100_0000 * a + 0x1_0000 * b + 0x100 * c + d == (if status < 0 {
            status + 0x1_0000_0000
        } else {
            status as int
        }),
    ensures
        is_readable(status) <==> 0x20 <= a <= 0x7e && 0x20 <= b <= 0x7e && 0x20 <= c <= 0x7e
            && 0x20 <= d <= 0x7e,
        status_chars(status) == seq![a as char, b as char, c as char, d as char],
{
    let u = unsigned_status(status);
    assert(u / 0x100_0000 == a);
    assert(u / 0x1_0000 == 0x100 * a + b);
    assert((0x100 * a + b) % 0x100 == b);
    assert(u / 0x100 == 0x100 * (0x100 * a + b) + c);
    assert((0x100 * (0x100 * a + b) + c) % 0x100 == c);
    assert(u == 0x100 * (0x100 * (0x100 * a + b) + c) + d);
    assert(u % 0x100 == d);
    assert(status_bytes(status) =~= seq![a, b, c, d]);
    assert(status_chars(status) =~= seq![a as char, b as char, c as char, d as char]);
}

/// The code `nope` is a denied permission and no other one is; two codes have words of their own,
/// and any other one is shown by its number, with its characters where it has some.
pub proof fn lemma_status_codes_mean_what_they_are(e: Error, ctx: Seq<char>, status: i32)
    requires
        is_status_error(e, ctx, status),
    ensures
        e is PermissionDenied <==> status == 0x6e6f_7065,
        status != 0x6e6f_7065 ==> e is Backend,
        status == 0x7374_6f70 ==> e->Backend_0@ == ctx
            + ": CoreAudio not running (OSStatus 'stop')"@,
        status == 0x216f_626a ==> e->Backend_0@ == ctx + ": bad audio object (OSStatus '!obj')"@,
        status != 0x6e6f_7065 && status != 0x7374_6f70 && status != 0x216f_626a && !is_readable(
            status,
        ) ==> e->Backend_0@ == ctx + ": OSStatus "@ + crate::text::signed_decimal(status as int),
        status != 0x6e6f_7065 && status != 0x7374_6f70 && status != 0x216f_626a && is_readable(
            status,
        ) ==> e->Backend_0@ == ctx + ": OSStatus '"@ + status_chars(status) + "' ("@
            + crate::text::signed_decimal(status as int) + ")"@,
{
}

/// Process taps come with version 14.4: every version from then on has them and none before.
pub proof fn lemma_taps_come_with_fourteen_four(major: i64, minor: i64, r: Result<(), Error>)
    requires
        call_ensures(ensure_process_tap_supported, (major, minor), r),
    ensures
        new_enough(major, minor) <==> major >= 15 || (major == 14 && minor >= 4),
        r is Ok <==> major >= 15 || (major == 14 && minor >= 4),
        r matches Err(e) ==> e is UnsupportedOsVersion,
{
}

/// A capture of one process taps that process, or everything but it; one without an audio object
/// is a missing device, and a failure to find the object is passed on.
pub proof fn lemma_the_right_process_is_tapped(
    status: i32,
    object: u32,
    exclude: bool,
    found: Result<u32, Error>,
    r: Result<TapKind, Error>,
)
    requires
        call_ensures(translated_object, (status, object), found),
        call_ensures(process_tap, (found, exclude), r),
    ensures
        status == 0 && object != 0 && !exclude ==> (r matches Ok(TapKind::IncludeProcesses(ids))
            && ids@ == seq![object]),
        status == 0 && object != 0 && exclude ==> (r matches Ok(TapKind::ExcludeProcesses(ids))
            && ids@ == seq![object]),
        status == 0 && object == 0 ==> r matches Err(Error::DeviceNotFound),
        status != 0 ==> r is Err && !(r matches Err(Error::DeviceNotFound)),
        status == 0x6e6f_7065 ==> r matches Err(Error::PermissionDenied),
{
}

/// A system capture taps everything, or everything but this process where that has an audio
/// object.
pub proof fn lemma_the_system_is_tapped(
    exclude_self: bool,
    own: Result<u32, Error>,
    r: Result<TapKind, Error>,
)
    requires
        call_ensures(system_tap, (exclude_self, own), r),
    ensures
        !exclude_self ==> (r matches Ok(TapKind::ExcludeProcesses(ids)) && ids@.len() == 0),
        exclude_self && own == Ok::<u32, Error>(0) ==> (r matches Ok(TapKind::ExcludeProcesses(ids))
            && ids@.len() == 0),
        exclude_self && own is Ok && own->Ok_0 != 0 ==> (r matches Ok(
            TapKind::ExcludeProcesses(ids),
        ) && ids@.len() == 1 && ids@[0] == own->Ok_0),
        exclude_self && own is Err ==> r is Err,
{
}

/// A tap's own format counts where the call succeeded and neither number is 0.
pub proof fn lemma_tap_formats_count(status: i32, rate: u32, channels: u16, r: Option<(u32, u16)>)
    requires
        call_ensures(tap_native_format, (status, rate, channels), r),
    ensures
        status == 0 && rate > 0 && channels > 0 ==> r == Some((rate, channels)),
        status != 0 || rate == 0 || channels == 0 ==> r is None,
{
}

/// A tap of processes and a tap of everything else are named differently.
pub proof fn lemma_taps_are_named(kind: &TapKind, label: &'static str)
    requires
        call_ensures(tap_label, (kind,), label),
    ensures
        kind is IncludeProcesses ==> label@ == "flexaudio-process-tap"@,
        kind is ExcludeProcesses ==> label@ == "flexaudio-system-tap"@,
{
}

/// A part stands where its call succeeded and gave an id; the running device needs none.
pub proof fn lemma_parts_need_ids(part: TapPart, status: i32, id: u32)
    ensures
        status != 0 ==> !part_made(part, status, id),
        status == 0 && id != 0 ==> part_made(part, status, id),
        status == 0 && id == 0 ==> (part_made(part, status, id) <==> part == TapPart::Running),
        all_parts() == seq![TapPart::Tap, TapPart::Aggregate, TapPart::Callback, TapPart::Running],
{
}

/// Several buffers are interleaved frame by frame, one sample of each in their order, for as many
/// frames as every one of them has; one buffer is taken as it is.
pub proof fn lemma_frames_hold_one_of_each(buffers: Seq<Option<Vec<Sample>>>, f: int, c: int)
    requires
        buffers.len() >= 1,
        forall|i: int|
            0 <= i < buffers.len() ==> (#[trigger] buffers[i]) is Some && buffers[i]->0@.len() > f,
        0 <= f < usize::MAX,
        0 <= c < buffers.len(),
    ensures
        interleaved(buffers) is Some,
        buffers.len() == 1 ==> interleaved(buffers)->0 == buffers[0]->0@,
        buffers.len() > 1 ==> f * buffers.len() + c < (interleaved(buffers)->0).len() && (
        interleaved(buffers)->0)[f * buffers.len() + c] == buffers[c]->0@[f],
{
    lemma_shortest_is_reached(buffers, f);
    let n = buffers.len() as int;
    let s = shortest(buffers);
    assert((f * n + c) % n == c && (f * n + c) / n == f && 0 <= f * n + c < s * n)
        by (nonlinear_arith)
        requires
            0 <= c < n,
            0 <= f < s,
    ;
}

/// No frame is made up: where a buffer has run out there is none, and without a buffer, or with
/// one missing, there is nothing.
pub proof fn lemma_no_frame_is_made_up(buffers: Seq<Option<Vec<Sample>>>, c: int)
    requires
        0 <= c < buffers.len(),
    ensures
        buffers[c] is None ==> interleaved(buffers) is None,
        buffers[c] is Some && buffers[c]->0@.len() == 0 ==> interleaved(buffers) is None,
        interleaved(buffers) is Some && buffers.len() > 1 ==> (interleaved(buffers)->0).len()
            <= buffers[c]->0@.len() * buffers.len(),
        interleaved(Seq::<Option<Vec<Sample>>>::empty()) is None,
{
    lemma_shortest(buffers);
    let s = shortest(buffers);
    let n = buffers.len() as int;
    if buffers[c] is Some {
        let m = buffers[c]->0@.len() as int;
        assert(s * n <= m * n && s * n >= 0) by (nonlinear_arith)
            requires
                0 <= s <= m,
                n > 0,
        ;
    }
}

proof fn lemma_shortest_is_reached(buffers: Seq<Option<Vec<Sample>>>, f: int)
    requires
        0 <= f < usize::MAX,
        forall|i: int|
            0 <= i < buffers.len() ==> (#[trigger] buffers[i]) is Some && buffers[i]->0@.len() > f,
    ensures
        shortest(buffers) > f,
    decreases buffers.len(),
{
    if buffers.len() > 0 {
        let before = buffers.drop_last();
        assert forall|i: int| 0 <= i < before.len() implies (#[trigger] before[i]) is Some
            && before[i]->0@.len() > f by {
            assert(before[i] == buffers[i]);
        }
        lemma_shortest_is_reached(before, f);
        assert(buffers[buffers.len() - 1] is Some);
    }
}

/// A system without process taps is told so before anything is tried; a backend that runs is left
/// alone, and any other one is started.
pub proof fn lemma_starting_asks_for_the_version(
    b: &MacSystemBackend,
    p: &MacProcessBackend,
    major: i64,
    minor: i64,
    r: Result<bool, Error>,
    q: Result<bool, Error>,
)
    requires
        call_ensures(MacSystemBackend::begin, (b, major, minor), r),
        call_ensures(MacProcessBackend::begin, (p, major, minor), q),
    ensures
        b.life().running() ==> r == Ok::<bool, Error>(false),
        !b.life().running() && (major >= 15 || (major == 14 && minor >= 4)) ==> r == Ok::<
            bool,
            Error,
        >(true),
        !b.life().running() && (major < 14 || (major == 14 && minor < 4)) ==> r == Err::<
            bool,
            Error,
        >(Error::UnsupportedOsVersion),
        p.life().running() ==> q == Ok::<bool, Error>(false),
        !p.life().running() && (major >= 15 || (major == 14 && minor >= 4)) ==> q == Ok::<
            bool,
            Error,
        >(true),
        !p.life().running() && (major < 14 || (major == 14 && minor < 4)) ==> q == Err::<
            bool,
            Error,
        >(Error::UnsupportedOsVersion),
{
}

/// Parts are made in their order, the next one only where the one before stands; a part that
/// failed leaves the chain as it was, and a chain is taken down in the reverse order.
pub proof fn lemma_chains_are_built_in_order(
    chain: &TapChain,
    part: Option<TapPart>,
    built: &mut TapChain,
    status: i32,
    id: u32,
    r: Result<(), Error>,
    gone: &mut TapChain,
    parts: Vec<TapPart>,
)
    requires
        chain.wf(),
        old(built).wf(),
        old(built).made().len() < 4,
        old(gone).wf(),
        call_ensures(TapChain::next, (chain,), part),
        call_ensures(TapChain::report, (built, status, id), r),
        call_ensures(TapChain::teardown, (gone,), parts),
    ensures
        chain.made().len() == 0 ==> part == Some(TapPart::Tap),
        chain.made().len() == 1 ==> part == Some(TapPart::Aggregate),
        chain.made().len() == 2 ==> part == Some(TapPart::Callback),
        chain.made().len() == 3 ==> part == Some(TapPart::Running),
        chain.made().len() == 4 ==> part is None,
        r is Ok <==> status == 0 && (id != 0 || old(built).made().len() == 3),
        r is Ok ==> final(built).made().len() == old(built).made().len() + 1,
        r is Err ==> *final(built) == *old(built),
        r is Ok && old(built).made().len() == 0 ==> final(built).ids().0 == id,
        r is Ok && old(built).made().len() == 1 ==> final(built).ids() == (old(built).ids().0, id),
        parts@ == old(gone).made().reverse(),
        final(gone).made().len() == 0,
        final(gone).ids() == (0u32, 0u32),
{
}

} // verus!

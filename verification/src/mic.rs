//! The microphone backend: which input device is taken, which ones are listed, and what happens
//! to a block of samples in the capture callback.

use crate::arith::{from_i16, from_i32, from_u16};
use crate::backend::RawSink;
use crate::lifecycle::{Launch, ThreadLife};
use crate::sample::{absolute, below, Sample};
use crate::text::{joined, same_text};
use crate::types::{DeviceInfo, DeviceInfoView, Error, SourceKind};
use vstd::prelude::*;

verus! {

/// Rate of a backend whose device is not known.
pub const FALLBACK_RATE: u32 = 48_000;

/// Channels of a backend whose device is not known.
pub const FALLBACK_CHANNELS: u16 = 1;

/// One input device as the audio host shows it.
#[derive(Debug)]
pub struct InputDevice {
    /// Its name, where it has one.
    pub name: Option<String>,
    /// Rate and channels of its default configuration, where it can be opened.
    pub config: Option<(u32, u16)>,
}

/// Which input device was chosen.
#[derive(Debug, Clone, Copy, PartialEq, Eq, Structural)]
pub enum InputChoice {
    /// The default one.
    Default,
    /// The one at this place of the list.
    Listed(usize),
}

/// Whether the device at place `i` carries the name `id`.
pub open spec fn is_named(names: Seq<Option<String>>, i: int, id: Seq<char>) -> bool {
    crate::types::text_view(names[i]) == Some(id)
}

/// Chooses the input device: without an id the default one, with an id the first device of that
/// name. `names` are the devices' names, where the host could list them.
pub fn resolve_input_device(
    has_default: bool,
    names: Option<&Vec<Option<String>>>,
    device_id: Option<&str>,
) -> (r: Result<InputChoice, Error>)
    ensures
        match device_id {
            None => if has_default {
                r matches Ok(InputChoice::Default)
            } else {
                r matches Err(Error::DeviceNotFound)
            },
            Some(id) => match r {
                Ok(InputChoice::Listed(i)) => {
                    &&& names matches Some(list)
                    &&& i < list@.len()
                    &&& is_named(list@, i as int, id@)
                    &&& forall|j: int| 0 <= j < i ==> !is_named(list@, j, id@)
                },
                Ok(InputChoice::Default) => false,
                Err(e) => {
                    &&& e is DeviceNotFound
                    &&& names matches Some(list) ==> forall|j: int|
                        0 <= j < list@.len() ==> !is_named(list@, j, id@)
                },
            },
        },
{
    match device_id {
        None => if has_default {
            Ok(InputChoice::Default)
        } else {
            Err(Error::DeviceNotFound)
        },
        Some(id) => {
            match names {
                None => Err(Error::DeviceNotFound),
                Some(list) => {
                    let mut i: usize = 0;
                    while i < list.len()
                        invariant
                            i <= list@.len(),
                            names == Some(list),
                            device_id == Some(id),
                            forall|j: int| 0 <= j < i ==> !is_named(list@, j, id@),
                        decreases list.len() - i,
                    {
                        if let Some(name) = &list[i] {
                            if same_text(name.as_str(), id) {
                                return Ok(InputChoice::Listed(i));
                            }
                        }
                        i += 1;
                    }
                    Err(Error::DeviceNotFound)
                },
            }
        },
    }
}

/// The devices that are listed: those with a name that can be opened. Their name is their key.
pub open spec fn listed(devices: Seq<InputDevice>, default_name: Option<Seq<char>>) -> Seq<
    DeviceInfoView,
>
    decreases devices.len(),
{
    if devices.len() == 0 {
        seq![]
    } else {
        let before = listed(devices.drop_last(), default_name);
        let last = devices.last();
        match (last.name, last.config) {
            (Some(name), Some((rate, channels))) => before.push(
                DeviceInfoView {
                    id: name@,
                    name: name@,
                    source_kind: SourceKind::Mic,
                    sample_rate: rate,
                    channels,
                    is_loopback: false,
                    is_default: default_name == Some(name@),
                },
            ),
            _ => before,
        }
    }
}

/// The views of a list of devices.
pub open spec fn views(devices: Seq<DeviceInfo>) -> Seq<DeviceInfoView> {
    devices.map_values(|d: DeviceInfo| d@)
}

/// Lists the input devices. Where the host cannot list them, there are none.
pub fn list_devices(default_name: Option<&str>, devices: Option<&Vec<InputDevice>>) -> (r: Result<
    Vec<DeviceInfo>,
    Error,
>)
    ensures
        r matches Ok(list) && views(list@) == (match devices {
            Some(all) => listed(
                all@,
                match default_name {
                    Some(name) => Some(name@),
                    None => None,
                },
            ),
            None => seq![],
        }),
{
    let ghost default: Option<Seq<char>> = match default_name {
        Some(name) => Some(name@),
        None => None,
    };
    let mut out: Vec<DeviceInfo> = Vec::new();
    let all: &Vec<InputDevice> = match devices {
        Some(all) => all,
        None => {
            assert(views(out@) =~= seq![]);
            return Ok(out);
        },
    };
    let mut i: usize = 0;
    assert(all@.take(0) =~= seq![]);
    while i < all.len()
        invariant
            i <= all@.len(),
            views(out@) =~= listed(all@.take(i as int), default),
            default == (match default_name {
                Some(name) => Some(name@),
                None => None,
            }),
        decreases all.len() - i,
    {
        proof {
            assert(all@.take(i + 1).drop_last() =~= all@.take(i as int));
            assert(all@.take(i + 1).last() == all@[i as int]);
        }
        let device: &InputDevice = &all[i];
        match (&device.name, device.config) {
            (Some(name), Some((sample_rate, channels))) => {
                let is_default: bool = match default_name {
                    Some(d) => same_text(d, name.as_str()),
                    None => false,
                };
                out.push(
                    DeviceInfo {
                        id: name.clone(),
                        name: name.clone(),
                        source_kind: SourceKind::Mic,
                        sample_rate,
                        channels,
                        is_loopback: false,
                        is_default,
                    },
                );
            },
            _ => {},
        }
        i += 1;
    }
    assert(all@.take(all@.len() as int) =~= all@);
    Ok(out)
}

/// Every listed device is a microphone, no loopback, and has its name for a key; it is the
/// default one exactly if it has the default one's name.
pub proof fn lemma_listed_devices_are_microphones(
    devices: Seq<InputDevice>,
    default_name: Option<Seq<char>>,
    k: int,
)
    requires
        0 <= k < listed(devices, default_name).len(),
    ensures
        ({
            let d = listed(devices, default_name)[k];
            &&& d.source_kind == SourceKind::Mic
            &&& !d.is_loopback
            &&& d.id == d.name
            &&& d.is_default == (default_name == Some(d.name))
        }),
    decreases devices.len(),
{
    let before = listed(devices.drop_last(), default_name);
    if k < before.len() {
        lemma_listed_devices_are_microphones(devices.drop_last(), default_name, k);
    }
}

/// Where no two devices share a name, at most one is the default one.
pub proof fn lemma_one_default_at_most(
    devices: Seq<InputDevice>,
    default_name: Option<Seq<char>>,
    a: int,
    b: int,
)
    requires
        forall|i: int, j: int|
            0 <= i < j < listed(devices, default_name).len() ==> listed(
                devices,
                default_name,
            )[i].name != listed(devices, default_name)[j].name,
        0 <= a < listed(devices, default_name).len(),
        0 <= b < listed(devices, default_name).len(),
        listed(devices, default_name)[a].is_default,
        listed(devices, default_name)[b].is_default,
    ensures
        a == b,
{
    lemma_listed_devices_are_microphones(devices, default_name, a);
    lemma_listed_devices_are_microphones(devices, default_name, b);
}

/// The microphone backend.
#[derive(Debug)]
pub struct CpalMicBackend {
    device_id: Option<String>,
    native: (u32, u16),
    life: ThreadLife,
}

impl CpalMicBackend {
    /// Name of the device that is asked for.
    pub closed spec fn device(self) -> Option<Seq<char>> {
        crate::types::text_view(self.device_id)
    }

    /// Rate and channels in which it delivers.
    pub closed spec fn format(self) -> (u32, u16) {
        self.native
    }

    /// Its thread.
    pub closed spec fn life(self) -> ThreadLife {
        self.life
    }

    /// A backend that does not run. `queried` is the format of the device, where it has been
    /// found; a missing device shows only when the backend is started.
    pub fn new(device_id: Option<String>, queried: Option<(u32, u16)>) -> (b: CpalMicBackend)
        ensures
            b.device() == crate::types::text_view(device_id),
            b.format() == (match queried {
                Some(f) => f,
                None => (FALLBACK_RATE, FALLBACK_CHANNELS),
            }),
            !b.life().running(),
    {
        let native: (u32, u16) = match queried {
            Some(f) => f,
            None => (FALLBACK_RATE, FALLBACK_CHANNELS),
        };
        CpalMicBackend { device_id, native, life: ThreadLife::new() }
    }

    /// Rate and channels in which it delivers.
    pub fn native_format(&self) -> (format: (u32, u16))
        ensures
            format == self.format(),
    {
        self.native
    }

    /// Whether starting means to spawn the thread.
    pub fn must_spawn(&self) -> (r: bool)
        ensures
            r == !self.life().running(),
    {
        self.life.must_spawn()
    }

    /// What to report of the launch.
    pub fn launched(&mut self, launch: Launch<Error>) -> (r: Result<(), Error>)
        requires
            !old(self).life().running(),
        ensures
            final(self).device() == old(self).device(),
            final(self).format() == old(self).format(),
            final(self).life().running() == (launch is Ready),
            match launch {
                Launch::Ready => r is Ok,
                Launch::Failed(e) => r == Err::<(), Error>(e),
                Launch::SpawnFailed(cause) => r matches Err(Error::Backend(m)) && m@
                    == crate::lifecycle::spawn_failed_text("cpal mic"@, cause@),
                Launch::Vanished => r matches Err(Error::Backend(m)) && m@
                    == crate::lifecycle::exited_text("cpal mic"@),
            },
    {
        self.life.launched(launch, "cpal mic")
    }

    /// Stops. Returns whether there is a thread to wake and to join.
    pub fn stop(&mut self) -> (join: bool)
        ensures
            final(self).device() == old(self).device(),
            final(self).format() == old(self).format(),
            join == old(self).life().running(),
            !final(self).life().running(),
    {
        self.life.stop()
    }
}

impl Default for CpalMicBackend {
    fn default() -> (b: CpalMicBackend)
        ensures
            b.device() is None,
            b.format() == (FALLBACK_RATE, FALLBACK_CHANNELS),
            !b.life().running(),
    {
        CpalMicBackend::new(None, None)
    }
}

/// Bit pattern of `1.001`. Samples of a working device stay within -1 and 1; what lies clearly
/// above comes from a device that is still being primed.
pub const PRIMING_PEAK_LIMIT: Sample = 0x3f80_20c5;

/// Whether some sample of a block lies beyond the limit.
pub open spec fn is_transient(block: Seq<Sample>) -> bool {
    exists|i: int|
        0 <= i < block.len() && #[trigger] crate::sample::lt_value(
            PRIMING_PEAK_LIMIT,
            crate::sample::magnitude(block[i]) as Sample,
        )
}

/// Whether a guard drops a block: only from the start, and only while every block so far was
/// transient.
pub open spec fn drops(latched: bool, block: Seq<Sample>) -> bool {
    !latched && block.len() > 0 && is_transient(block)
}

/// Drops the blocks that a device delivers while it is being primed. The first block in range
/// opens it for good.
#[derive(Debug)]
pub struct TransientGuard {
    latched: bool,
}

impl TransientGuard {
    /// Whether it has opened.
    pub closed spec fn open_for_good(self) -> bool {
        self.latched
    }

    /// A guard that has not opened.
    pub fn new() -> (g: TransientGuard)
        ensures
            !g.open_for_good(),
    {
        TransientGuard { latched: false }
    }

    /// Whether this block is to be dropped. Any block that is not opens the guard, an empty one
    /// too.
    pub fn should_drop(&mut self, data: &[Sample]) -> (r: bool)
        ensures
            r == drops(old(self).open_for_good(), data@),
            final(self).open_for_good() == !r,
    {
        if self.latched || data.len() == 0 {
            self.latched = true;
            return false;
        }
        let mut i: usize = 0;
        while i < data.len()
            invariant
                i <= data@.len(),
                forall|k: int|
                    0 <= k < i ==> !#[trigger] crate::sample::lt_value(
                        PRIMING_PEAK_LIMIT,
                        crate::sample::magnitude(data@[k]) as Sample,
                    ),
                !self.latched,
                !old(self).latched,
            decreases data.len() - i,
        {
            if below(PRIMING_PEAK_LIMIT, absolute(data[i])) {
                assert(crate::sample::lt_value(
                    PRIMING_PEAK_LIMIT,
                    crate::sample::magnitude(data@[i as int]) as Sample,
                ));
                return true;
            }
            i += 1;
        }
        self.latched = true;
        false
    }
}

/// Once a guard has opened, it drops nothing any more; and a stream whose first block is in
/// range loses nothing.
pub proof fn lemma_an_open_guard_stays_open(latched: bool, first: Seq<Sample>, later: Seq<Sample>)
    ensures
        !drops(true, later),
        !drops(latched, first) ==> !drops(!drops(latched, first), later),
        !is_transient(first) ==> !drops(false, first),
{
}

/// Full scale is in range: a block whose samples all lie within -1 and 1 is never dropped.
pub proof fn lemma_full_scale_is_no_transient(block: Seq<Sample>, latched: bool)
    requires
        forall|i: int|
            0 <= i < block.len() ==> crate::sample::magnitude(#[trigger] block[i])
                <= crate::sample::ONE,
    ensures
        !drops(latched, block),
{
    assert forall|i: int| 0 <= i < block.len() implies !#[trigger] crate::sample::lt_value(
        PRIMING_PEAK_LIMIT,
        crate::sample::magnitude(block[i]) as Sample,
    ) by {
        assert(crate::sample::magnitude(block[i]) <= crate::sample::ONE);
    }
}

/// Fills `scratch` with the converted block. What was in it goes; its storage stays.
pub fn fill_scratch<T: Copy>(
    scratch: &mut Vec<Sample>,
    data: &[T],
    convert: impl Fn(T) -> Sample,
)
    requires
        forall|i: int| 0 <= i < data@.len() ==> call_requires(convert, (#[trigger] data@[i],)),
    ensures
        final(scratch)@.len() == data@.len(),
        forall|i: int|
            0 <= i < data@.len() ==> call_ensures(
                convert,
                (data@[i],),
                #[trigger] final(scratch)@[i],
            ),
{
    scratch.clear();
    let mut i: usize = 0;
    while i < data.len()
        invariant
            i <= data@.len(),
            scratch@.len() == i,
            forall|k: int| 0 <= k < data@.len() ==> call_requires(convert, (#[trigger] data@[k],)),
            forall|k: int|
                0 <= k < i ==> call_ensures(convert, (data@[k],), #[trigger] scratch@[k]),
        decreases data.len() - i,
    {
        scratch.push(convert(data[i]));
        i += 1;
    }
}

/// The formats in which a device may deliver.
#[derive(Debug)]
pub enum SampleFormat {
    /// Floating point; taken as it is.
    Float,
    /// Signed 16-bit integers.
    I16,
    /// Unsigned 16-bit integers.
    U16,
    /// Signed 32-bit integers.
    I32,
    /// Anything else, with its name.
    Other(String),
}

/// Accepts the four formats that can be converted.
pub fn check_format(format: SampleFormat) -> (r: Result<SampleFormat, Error>)
    ensures
        match format {
            SampleFormat::Other(name) => r matches Err(Error::Backend(m)) && m@
                == "unsupported cpal sample format: "@ + name@,
            _ => r == Ok::<SampleFormat, Error>(format),
        },
{
    match format {
        SampleFormat::Other(name) => Err(
            Error::Backend(joined("unsupported cpal sample format: ", name.as_str())),
        ),
        accepted => Ok(accepted),
    }
}

/// How many samples the scratch buffer of a callback is made for: one second, but at least one.
pub fn scratch_capacity(rate: u32, channels: u16) -> (n: usize)
    ensures
        n == (if rate as int * channels == 0 {
            1
        } else if rate as int * channels > usize::MAX {
            usize::MAX as int
        } else {
            rate as int * channels
        }),
{
    assert(0 <= rate as int * channels as int <= 0xffff_ffff * 0xffff) by (nonlinear_arith)
        requires
            rate <= 0xffff_ffff,
            channels <= 0xffff,
    ;
    let product: u64 = (rate as u64) * (channels as u64);
    if product == 0 {
        1
    } else if product > usize::MAX as u64 {
        usize::MAX
    } else {
        product as usize
    }
}

/// The samples of a block of signed 16-bit integers.
pub open spec fn samples_of_i16(data: Seq<i16>) -> Seq<Sample> {
    data.map_values(
        |v: i16|
            crate::arith::nearest_sample(v * vstd::arithmetic::power2::pow2(134)) as Sample,
    )
}

/// The samples of a block of unsigned 16-bit integers.
pub open spec fn samples_of_u16(data: Seq<u16>) -> Seq<Sample> {
    data.map_values(
        |v: u16|
            crate::arith::nearest_sample((v - 32_768) * vstd::arithmetic::power2::pow2(134))
                as Sample,
    )
}

/// The samples of a block of signed 32-bit integers.
pub open spec fn samples_of_i32(data: Seq<i32>) -> Seq<Sample> {
    data.map_values(
        |v: i32|
            crate::arith::nearest_sample(v * vstd::arithmetic::power2::pow2(118)) as Sample,
    )
}

/// What the capture callback holds.
pub struct MicCallback {
    sink: RawSink,
    guard: TransientGuard,
    scratch: Vec<Sample>,
}

impl MicCallback {
    /// Where it delivers.
    pub closed spec fn sink(self) -> RawSink {
        self.sink
    }

    /// Whether its guard has opened.
    pub closed spec fn open_for_good(self) -> bool {
        self.guard.open_for_good()
    }

    /// Whether a block took this callback to `after`: it is dropped by the guard, or delivered
    /// to the sink, where `written` of its samples fit.
    pub open spec fn block_relation(
        self,
        block: Seq<Sample>,
        after: MicCallback,
        written: Option<usize>,
    ) -> bool {
        let dropped = drops(self.open_for_good(), block);
        &&& after.open_for_good() == !dropped
        &&& written is None <==> dropped
        &&& match written {
            Some(n) => self.sink().push_relation(block, after.sink(), n as int),
            None => after.sink() == self.sink(),
        }
    }

    /// A callback that delivers to `sink`, with room to convert blocks of up to `capacity`
    /// samples without asking for memory. The room is one allocation, which must not exceed
    /// the largest size.
    pub fn new(sink: RawSink, capacity: usize) -> (c: MicCallback)
        requires
            capacity * 4 <= isize::MAX,
        ensures
            c.sink() == sink,
            !c.open_for_good(),
    {
        MicCallback { sink, guard: TransientGuard::new(), scratch: Vec::with_capacity(capacity) }
    }

    /// A block of floating point samples.
    pub fn on_samples(&mut self, data: &[Sample], now_ns: i64) -> (written: Option<usize>)
        ensures
            old(self).block_relation(data@, *final(self), written),
    {
        if self.guard.should_drop(data) {
            None
        } else {
            Some(self.sink.push(data, now_ns))
        }
    }

    /// Delivers what is in the scratch buffer.
    fn on_scratch(&mut self, now_ns: i64) -> (written: Option<usize>)
        ensures
            old(self).block_relation(old(self).scratch@, *final(self), written),
    {
        if self.guard.should_drop(self.scratch.as_slice()) {
            None
        } else {
            Some(self.sink.push(self.scratch.as_slice(), now_ns))
        }
    }

    /// A block of signed 16-bit integers.
    pub fn on_i16(&mut self, data: &[i16], now_ns: i64) -> (written: Option<usize>)
        ensures
            old(self).block_relation(samples_of_i16(data@), *final(self), written),
    {
        fill_scratch(&mut self.scratch, data, from_i16);
        assert(self.scratch@ =~= samples_of_i16(data@));
        self.on_scratch(now_ns)
    }

    /// A block of unsigned 16-bit integers.
    pub fn on_u16(&mut self, data: &[u16], now_ns: i64) -> (written: Option<usize>)
        ensures
            old(self).block_relation(samples_of_u16(data@), *final(self), written),
    {
        fill_scratch(&mut self.scratch, data, from_u16);
        assert(self.scratch@ =~= samples_of_u16(data@));
        self.on_scratch(now_ns)
    }

    /// A block of signed 32-bit integers.
    pub fn on_i32(&mut self, data: &[i32], now_ns: i64) -> (written: Option<usize>)
        ensures
            old(self).block_relation(samples_of_i32(data@), *final(self), written),
    {
        fill_scratch(&mut self.scratch, data, from_i32);
        assert(self.scratch@ =~= samples_of_i32(data@));
        self.on_scratch(now_ns)
    }
}

/// Without an id the default device is taken, with an id the first device of that name and never
/// the default one; what is not there is a missing device.
pub proof fn lemma_the_right_input_is_taken(
    has_default: bool,
    names: &Vec<Option<String>>,
    device_id: Option<&str>,
    r: Result<InputChoice, Error>,
    i: int,
)
    requires
        call_ensures(resolve_input_device, (has_default, Some(names), device_id), r),
    ensures
        device_id is None && has_default ==> r == Ok::<InputChoice, Error>(InputChoice::Default),
        device_id is None && !has_default ==> r == Err::<InputChoice, Error>(
            Error::DeviceNotFound,
        ),
        device_id is Some && 0 <= i < names@.len() && names@[i] is Some && names@[i]->0@
            == (device_id->0)@ && (forall|j: int|
            0 <= j < i && (#[trigger] names@[j]) is Some ==> names@[j]->0@ != (device_id->0)@)
            ==> r == Ok::<InputChoice, Error>(InputChoice::Listed(i as usize)),
        device_id is Some && (forall|j: int|
            0 <= j < names@.len() && (#[trigger] names@[j]) is Some ==> names@[j]->0@
                != (device_id->0)@) ==> r == Err::<InputChoice, Error>(Error::DeviceNotFound),
{
    if let Some(id) = device_id {
        if let Ok(InputChoice::Listed(k)) = r {
            assert(is_named(names@, k as int, id@));
            assert(names@[k as int] is Some);
            if 0 <= i < names@.len() && names@[i] is Some && names@[i]->0@ == id@ {
                assert(is_named(names@, i, id@));
            }
        } else {
            if 0 <= i < names@.len() && names@[i] is Some && names@[i]->0@ == id@ {
                assert(is_named(names@, i, id@));
            }
        }
    }
}

/// A device with a name that can be opened is listed behind those before it, with its name, rate
/// and channels, as the default one exactly where it has the default one's name. Any other is
/// passed over.
pub proof fn lemma_usable_devices_are_listed(
    devices: Seq<InputDevice>,
    d: InputDevice,
    default_name: Option<Seq<char>>,
)
    ensures
        listed(seq![], default_name) == Seq::<DeviceInfoView>::empty(),
        d.name is None || d.config is None ==> listed(devices.push(d), default_name) == listed(
            devices,
            default_name,
        ),
        d.name is Some && d.config is Some ==> ({
            let all = listed(devices.push(d), default_name);
            let info = all.last();
            &&& all.drop_last() == listed(devices, default_name)
            &&& all.len() > 0
            &&& info.id == (d.name->0)@ && info.name == (d.name->0)@
            &&& info.sample_rate == (d.config->0).0 && info.channels == (d.config->0).1
            &&& info.source_kind == SourceKind::Mic && !info.is_loopback
            &&& info.is_default <==> default_name == Some((d.name->0)@)
        }),
{
    assert(devices.push(d).drop_last() =~= devices);
    if d.name is Some && d.config is Some {
        assert(listed(devices.push(d), default_name).drop_last() =~= listed(devices, default_name));
    }
}

/// Until a block is in range, every block with a sample beyond 1.001 in value is dropped, an
/// infinite one too; a block without one is not, whatever is no number in it.
pub proof fn lemma_blocks_out_of_range_are_dropped(block: Seq<Sample>, i: int)
    ensures
        0 <= i < block.len() && (0x3f80_20c5 < block[i] <= 0x7f80_0000 || 0xbf80_20c5 < block[i]
            <= 0xff80_0000) ==> drops(false, block),
        (forall|k: int|
            0 <= k < block.len() ==> {
                ||| (#[trigger] block[k]) <= 0x3f80_20c5
                ||| 0x7f80_0000 < block[k] <= 0xbf80_20c5
                ||| 0xff80_0000 < block[k]
            }) ==> !drops(false, block),
        !drops(true, block),
{
    if 0 <= i < block.len() && (0x3f80_20c5 < block[i] <= 0x7f80_0000 || 0xbf80_20c5 < block[i]
        <= 0xff80_0000) {
        assert(crate::sample::lt_value(
            PRIMING_PEAK_LIMIT,
            crate::sample::magnitude(block[i]) as Sample,
        ));
    }
}

/// A block that is not dropped is delivered as it is and keeps the guard open; one that is
/// dropped leaves the sink alone and the guard closed.
pub proof fn lemma_blocks_are_delivered_or_dropped(
    before: MicCallback,
    block: Seq<Sample>,
    after: MicCallback,
    written: Option<usize>,
)
    requires
        before.block_relation(block, after, written),
    ensures
        before.open_for_good() || !is_transient(block) || block.len() == 0 ==> written is Some
            && after.open_for_good(),
        !before.open_for_good() && block.len() > 0 && is_transient(block) ==> written is None
            && after.sink() == before.sink() && !after.open_for_good(),
        written is Some && block.len() <= before.sink().ring().room() ==> written->0 == block.len()
            && after.sink().ring().stream().subrange(
            before.sink().ring().written(),
            before.sink().ring().written() + block.len(),
        ) == block,
        written is Some ==> after.sink().ring().written() == before.sink().ring().written()
            + written->0,
{
    assert(block.take(block.len() as int) =~= block);
}

/// Sixteen-bit integers keep their value: the sample is 32768 times smaller than a signed one,
/// and than an unsigned one's distance from its middle, exactly.
pub proof fn lemma_sixteen_bits_are_exact(signed: Seq<i16>, unsigned: Seq<u16>, i: int)
    ensures
        samples_of_i16(signed).len() == signed.len(),
        samples_of_u16(unsigned).len() == unsigned.len(),
        0 <= i < signed.len() ==> crate::arith::value(samples_of_i16(signed)[i]) == signed[i]
            * vstd::arithmetic::power2::pow2(134),
        0 <= i < unsigned.len() ==> crate::arith::value(samples_of_u16(unsigned)[i]) == (unsigned[i]
            - 0x8000) * vstd::arithmetic::power2::pow2(134),
{
    if 0 <= i < signed.len() {
        crate::arith::lemma_short_integers_are_exact(signed[i] as int);
    }
    if 0 <= i < unsigned.len() {
        crate::arith::lemma_short_integers_are_exact(unsigned[i] - 0x8000);
    }
}

/// No sample is nearer to a 32-bit integer over 2 to the power of 31 than the one that it
/// becomes.
pub proof fn lemma_thirty_two_bits_are_nearest(data: Seq<i32>, i: int, q: Sample)
    requires
        0 <= i < data.len(),
        q < 0x7f80_0000 || 0x8000_0000 <= q < 0xff80_0000,
    ensures
        samples_of_i32(data).len() == data.len(),
        ({
            let s = samples_of_i32(data)[i];
            let x = data[i] * vstd::arithmetic::power2::pow2(118);
            let off = crate::arith::value(s) - x;
            let other = crate::arith::value(q) - x;
            &&& s != 0x7f80_0000 && s != 0xff80_0000 ==> (off <= other || off <= -other) && (-off
                <= other || -off <= -other)
            &&& data[i] == 0 ==> s == 0
            &&& data[i] > 0 ==> s <= 0x7f80_0000
            &&& data[i] < 0 ==> s >= 0x8000_0000
        }),
{
    let p = vstd::arithmetic::power2::pow2(118) as int;
    let v = data[i] as int;
    vstd::arithmetic::power2::lemma_pow2_pos(118);
    assert((v == 0 ==> v * p == 0) && (v > 0 ==> v * p > 0) && (v < 0 ==> v * p < 0))
        by (nonlinear_arith)
        requires
            p > 0,
    ;
    crate::arith::lemma_nothing_is_nearer(v * p, q);
}

/// Floating point and 16-bit and 32-bit integers are accepted as they are, and nothing else.
pub proof fn lemma_four_formats_are_accepted(
    format: SampleFormat,
    r: Result<SampleFormat, Error>,
)
    requires
        call_ensures(check_format, (format,), r),
    ensures
        format is Float || format is I16 || format is U16 || format is I32 ==> r == Ok::<
            SampleFormat,
            Error,
        >(format),
        format is Other ==> r matches Err(Error::Backend(_)),
{
}

/// The scratch buffer holds one second where that can be held at all, and never nothing.
pub proof fn lemma_scratch_lasts_a_second(rate: u32, channels: u16, n: usize)
    requires
        call_ensures(scratch_capacity, (rate, channels), n),
    ensures
        n >= 1,
        0 < rate * channels <= usize::MAX ==> n == rate * channels,
        n <= rate * channels || n == 1,
{
}

/// A device that has not been found counts as one channel at 48000 Hz, and one that has been
/// found has its own format. Either way it is asked for by its name.
pub proof fn lemma_unknown_devices_have_a_format(
    device_id: Option<String>,
    queried: Option<(u32, u16)>,
    b: CpalMicBackend,
)
    requires
        call_ensures(CpalMicBackend::new, (device_id, queried), b),
    ensures
        queried is None ==> b.format() == (48_000u32, 1u16),
        queried is Some ==> b.format() == queried->0,
        device_id is Some ==> b.device() == Some((device_id->0)@),
        device_id is None ==> b.device() is None,
        !b.life().running(),
{
}

} // verus!

//! Time stamps on one monotonic clock.
//!
//! Loopback sources carry time stamps of a device clock, microphones only have the time of
//! arrival. Both are moved onto the process's monotonic clock by the offset between the two
//! clocks at the first sample.

use crate::text::to_signed;
use std::time::{Duration, Instant};
use vstd::prelude::*;

verus! {

/// `std::time::Instant`, a reading of the system's monotonic clock. Nothing is known of it.
#[verifier::external_type_specification]
#[verifier::external_body]
pub struct ExInstant(Instant);

/// `Instant::now` reads the clock. Nothing is promised of the reading.
pub assume_specification[ Instant::now ]() -> Instant;

/// `Instant::elapsed` is the time since a reading. Nothing is promised of it.
pub assume_specification[ Instant::elapsed ](since: &Instant) -> Duration;

/// `Duration::as_nanos` is the span in whole nanoseconds. Spans come from the clock alone, of
/// which nothing is known, so nothing is promised of their length.
pub assume_specification[ Duration::as_nanos ](span: &Duration) -> u128;

/// The monotonic clock, counted from the moment at which this value was made. All streams of
/// a process share one.
#[derive(Debug, Clone, Copy)]
pub struct MonotonicClock {
    base: Instant,
}

impl MonotonicClock {
    /// A clock that starts now.
    pub fn new() -> MonotonicClock {
        MonotonicClock { base: Instant::now() }
    }
}

/// A count of nanoseconds as a 64-bit time stamp, wrapped around into 64 bits.
pub open spec fn stamp(nanos: u128) -> int {
    crate::text::signed_count((nanos % 0x1_0000_0000_0000_0000) as u64)
}

/// A count of nanoseconds as a 64-bit time stamp, wrapped around into 64 bits.
pub fn to_stamp(nanos: u128) -> (ns: i64)
    ensures
        ns == stamp(nanos),
{
    to_signed((nanos % 0x1_0000_0000_0000_0000) as u64)
}

/// Nanoseconds on the monotonic clock, as [`to_stamp`] gives them. Only differences mean
/// anything. What is returned is the time, so nothing is stated of it.
pub fn monotonic_now_ns(clock: &MonotonicClock) -> i64 {
    to_stamp(clock.base.elapsed().as_nanos())
}

/// The sum or difference of two 64-bit time stamps, wrapped around into 64 bits.
pub open spec fn wrapped(x: int) -> int {
    if x > i64::MAX {
        x - 0x1_0000_0000_0000_0000
    } else if x < i64::MIN {
        x + 0x1_0000_0000_0000_0000
    } else {
        x
    }
}

/// Moves device time stamps onto the monotonic clock.
#[derive(Debug, Clone)]
pub struct ClockNormalizer {
    device_origin_ns: Option<i64>,
    monotonic_origin_ns: i64,
}

impl ClockNormalizer {
    /// The device time and the monotonic time of the first sample, once there was one.
    pub closed spec fn origin(self) -> Option<(i64, i64)> {
        match self.device_origin_ns {
            Some(d) => Some((d, self.monotonic_origin_ns)),
            None => None,
        }
    }

    /// The monotonic time of a device time stamp; only where there is an origin. Both the
    /// distance from the origin and the sum wrap around.
    pub open spec fn mapped(self, device_pts_ns: i64) -> int {
        let (device, monotonic) = self.origin()->0;
        wrapped(monotonic + wrapped(device_pts_ns - device))
    }

    /// A normalizer without an origin.
    pub fn new() -> (n: ClockNormalizer)
        ensures
            n.origin() is None,
    {
        ClockNormalizer { device_origin_ns: None, monotonic_origin_ns: 0 }
    }

    /// Whether there was no sample yet.
    pub fn is_unset(&self) -> (r: bool)
        ensures
            r == (self.origin() is None),
    {
        self.device_origin_ns.is_none()
    }

    /// The monotonic time of a device time stamp that arrives at `now_ns`. The first one sets
    /// the origin and is mapped to its arrival; the others keep their distance from it.
    pub fn normalize_at(&mut self, device_pts_ns: i64, now_ns: i64) -> (pts_ns: i64)
        ensures
            match old(self).origin() {
                Some(_) => pts_ns == old(self).mapped(device_pts_ns) && final(self).origin()
                    == old(self).origin(),
                None => pts_ns == now_ns && final(self).origin() == Some((device_pts_ns, now_ns)),
            },
    {
        match self.device_origin_ns {
            Some(origin) => self.monotonic_origin_ns.wrapping_add(
                device_pts_ns.wrapping_sub(origin),
            ),
            None => {
                self.device_origin_ns = Some(device_pts_ns);
                self.monotonic_origin_ns = now_ns;
                now_ns
            },
        }
    }

    /// The monotonic time of a device time stamp. The first one sets the origin and is mapped
    /// to the present; the others keep their distance from it.
    pub fn normalize(&mut self, device_pts_ns: i64, clock: &MonotonicClock) -> (pts_ns: i64)
        ensures
            match old(self).origin() {
                Some(_) => pts_ns == old(self).mapped(device_pts_ns) && final(self).origin()
                    == old(self).origin(),
                None => final(self).origin() == Some((device_pts_ns, pts_ns)),
            },
    {
        let now: i64 = if self.is_unset() {
            monotonic_now_ns(clock)
        } else {
            0
        };
        self.normalize_at(device_pts_ns, now)
    }
}

impl Default for ClockNormalizer {
    fn default() -> (n: ClockNormalizer)
        ensures
            n.origin() is None,
    {
        ClockNormalizer::new()
    }
}

/// Later readings have later time stamps, and none is negative, as long as the count of
/// nanoseconds stays below 2 to the power of 63, which is some 292 years.
pub proof fn lemma_stamps_keep_order(earlier: u128, later: u128)
    requires
        earlier <= later <= i64::MAX,
    ensures
        0 <= stamp(earlier) <= stamp(later),
{
}

/// Distances between time stamps are kept, forwards and backwards, as 64-bit distances that
/// wrap around.
pub proof fn lemma_distances_are_kept(n: ClockNormalizer, a: i64, b: i64)
    requires
        n.origin() is Some,
    ensures
        i64::MIN <= n.mapped(a) <= i64::MAX,
        wrapped(n.mapped(a) - n.mapped(b)) == wrapped(a - b),
{
}

/// The origin itself is mapped to the arrival of the first sample.
pub proof fn lemma_origin_is_fixed(n: ClockNormalizer)
    requires
        n.origin() is Some,
    ensures
        n.mapped((n.origin()->0).0) == (n.origin()->0).1,
{
}

/// Across the end of the device clock the distance goes on: one step past the largest time
/// stamp is the smallest one.
pub proof fn lemma_wrap_around_goes_on(n: ClockNormalizer)
    requires
        n.origin() is Some,
        (n.origin()->0).0 == i64::MAX,
    ensures
        n.mapped(i64::MIN) == wrapped((n.origin()->0).1 + 1),
{
}

/// A device time stamp is moved by the offset between the clocks at the first sample, wherever
/// that does not leave 64 bits.
pub proof fn lemma_stamps_are_moved_by_the_offset(n: ClockNormalizer, device_pts_ns: i64)
    requires
        n.origin() is Some,
    ensures
        ({
            let (device, monotonic) = n.origin()->0;
            let moved = device_pts_ns + (monotonic - device);
            &&& i64::MIN <= moved <= i64::MAX ==> n.mapped(device_pts_ns) == moved
            &&& n.mapped(device_pts_ns) == moved || n.mapped(device_pts_ns) == moved
                - 0x1_0000_0000_0000_0000 || n.mapped(device_pts_ns) == moved
                + 0x1_0000_0000_0000_0000
        }),
{
}

/// A count of nanoseconds is its own time stamp below 2 to the power of 63.
pub proof fn lemma_stamps_count_nanoseconds(nanos: u128)
    ensures
        nanos <= 0x7fff_ffff_ffff_ffff ==> stamp(nanos) == nanos,
        -0x8000_0000_0000_0000 <= stamp(nanos) <= 0x7fff_ffff_ffff_ffff,
{
}

/// The first device time stamp is mapped to its arrival, and every other one keeps its distance
/// from it.
pub proof fn lemma_the_first_stamp_sets_the_origin(
    n: &mut ClockNormalizer,
    device_pts_ns: i64,
    now_ns: i64,
    pts_ns: i64,
)
    requires
        call_ensures(ClockNormalizer::normalize_at, (n, device_pts_ns, now_ns), pts_ns),
    ensures
        old(n).origin() is None ==> pts_ns == now_ns && final(n).origin() == Some(
            (device_pts_ns, now_ns),
        ),
        old(n).origin() is Some ==> final(n).origin() == old(n).origin(),
        old(n).origin() is Some ==> ({
            let (device, monotonic) = old(n).origin()->0;
            let moved = monotonic + (device_pts_ns - device);
            i64::MIN <= moved <= i64::MAX ==> pts_ns == moved
        }),
{
}

} // verus!

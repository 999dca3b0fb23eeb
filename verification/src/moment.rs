//! Moments of the steady clock, and the durations between them, in nanoseconds.
use vstd::prelude::*;

use crate::shared::{read_clock, ClockReading};

verus! {

/// A length of time, which may be negative. Its whole milliseconds fit 64 bits.
#[derive(Copy, Clone, Debug, PartialEq, Eq, Structural)]
pub struct Duration {
    nanos: i128,
}

/// A length of time that is not negative, in whole seconds and nanoseconds below a second.
#[derive(Copy, Clone, Debug, PartialEq, Eq, Structural)]
pub struct StdDuration {
    /// The whole seconds.
    pub secs: u64,
    /// The nanoseconds of the last second.
    pub nanos: u32,
}

/// The length of time does not fit the type that should hold it.
#[derive(Copy, Clone, Debug, PartialEq, Eq, Structural)]
pub struct OutOfRange;

/// A moment of the steady clock.
#[derive(Copy, Clone, Debug, PartialEq, Eq, Structural)]
pub struct Moment {
    /// The nanoseconds since the epoch of the clock.
    pub nanos: i128,
}

/// `time::Duration::to_std`, on the duration of `millis` milliseconds and `nanos` nanoseconds. A
/// negative duration is refused; of any other, the result holds the whole seconds and the
/// nanoseconds that remain.
#[verifier::external_body]
fn parts_to_std(millis: i64, nanos: i64) -> (parts: Option<(u64, u32)>)
    requires
        0 <= nanos < 1_000_000,
    ensures
        parts is None <==> millis < 0,
        parts matches Some((secs, rest)) ==> secs == millis as int / 1000 && rest == (millis as int
            % 1000) * 1_000_000 + nanos,
{
    match (time::Duration::milliseconds(millis) + time::Duration::nanoseconds(nanos)).to_std() {
        Ok(std) => Some((std.as_secs(), std.subsec_nanos())),
        Err(_) => None,
    }
}

impl Duration {
    /// The length is one that a duration can have.
    #[verifier::type_invariant]
    pub open spec fn type_inv(&self) -> bool {
        Self::in_range(self.total())
    }

    /// Whether the whole milliseconds of `nanos` nanoseconds fit 64 bits.
    pub open spec fn in_range(nanos: int) -> bool {
        i64::MIN * 1_000_000 <= nanos <= i64::MAX * 1_000_000
    }

    /// The length in nanoseconds.
    pub closed spec fn total(&self) -> int {
        self.nanos as int
    }

    /// The length in nanoseconds.
    pub fn as_nanos(&self) -> (total: i128)
        ensures
            total == self.total(),
            Self::in_range(self.total()),
    {
        proof {
            use_type_invariant(self);
        }
        self.nanos
    }

    /// The duration of `nanos` nanoseconds, where its whole milliseconds fit 64 bits.
    pub fn from_nanos(nanos: i128) -> (r: Result<Self, OutOfRange>)
        ensures
            r is Ok <==> Self::in_range(nanos as int),
            r matches Ok(duration) ==> duration.total() == nanos,
    {
        if nanos < i64::MIN as i128 * 1_000_000 || nanos > i64::MAX as i128 * 1_000_000 {
            Err(OutOfRange)
        } else {
            Ok(Duration { nanos })
        }
    }

    /// The same duration as one that cannot be negative.
    pub fn to_std(&self) -> (r: Result<StdDuration, OutOfRange>)
        ensures
            r is Err <==> self.total() < 0,
            r matches Ok(std) ==> std.wf() && std.total() == self.total(),
    {
        let (millis, rest) = split(self.as_nanos());
        match parts_to_std(millis, rest) {
            Some((secs, nanos)) => Ok(StdDuration { secs, nanos }),
            None => Err(OutOfRange),
        }
    }
}

/// The whole milliseconds below `total` nanoseconds, and the nanoseconds that remain.
fn split(total: i128) -> (parts: (i64, i64))
    requires
        i64::MIN * 1_000_000 <= total <= i64::MAX * 1_000_000,
    ensures
        0 <= parts.1 < 1_000_000,
        total == parts.0 * 1_000_000 + parts.1,
{
    if total >= 0 {
        ((total / 1_000_000) as i64, (total % 1_000_000) as i64)
    } else {
        let up: i128 = -(total + 1);
        (-1 - (up / 1_000_000) as i64, 999_999 - (up % 1_000_000) as i64)
    }
}

impl StdDuration {
    /// The nanoseconds stay below a second.
    pub open spec fn wf(&self) -> bool {
        self.nanos < 1_000_000_000
    }

    /// The length in nanoseconds.
    pub open spec fn total(&self) -> int {
        self.secs * 1_000_000_000 + self.nanos
    }

    /// The length in nanoseconds.
    pub fn as_nanos(&self) -> (total: i128)
        ensures
            total == self.total(),
    {
        self.secs as i128 * 1_000_000_000 + self.nanos as i128
    }
}

impl Moment {
    /// Whether `nanos` nanoseconds since the epoch are a moment that the clock could show: the
    /// whole seconds fit 64 bits.
    pub open spec fn in_range(nanos: int) -> bool {
        i64::MIN * 1_000_000_000 <= nanos < (i64::MAX + 1) * 1_000_000_000
    }

    /// What the steady clock shows, with the record of the reading. Which moment that is, the clock
    /// decides.
    pub fn now() -> (r: (Self, ClockReading))
        ensures
            r.0.nanos == r.1.shown(),
    {
        let reading = read_clock();
        (Moment { nanos: reading.nanos() as i128 }, reading)
    }

    /// The moment that is `delay` after this one.
    pub fn after(&self, delay: Duration) -> (moment: Self)
        requires
            Self::in_range(self.nanos + delay.total()),
        ensures
            moment.nanos == self.nanos + delay.total(),
    {
        Moment { nanos: self.nanos + delay.as_nanos() }
    }

    /// How long after `earlier` this moment is.
    pub fn since(&self, earlier: Moment) -> (delay: Duration)
        requires
            Duration::in_range(self.nanos - earlier.nanos),
        ensures
            delay.total() == self.nanos - earlier.nanos,
    {
        Duration { nanos: self.nanos - earlier.nanos }
    }
}

/// Every length of time whose whole milliseconds fit 64 bits is a duration, and no other; every moment
/// whose whole seconds fit 64 bits is one that the clock could show, and no other. The nanoseconds of a
/// length of time are those of its seconds and those that remain.
pub proof fn law_ranges_of_time(nanos: int, length: StdDuration)
    ensures
        Duration::in_range(nanos) <==> -9_223_372_036_854_775_808 * 1_000_000 <= nanos
            <= 9_223_372_036_854_775_807 * 1_000_000,
        Moment::in_range(nanos) <==> -9_223_372_036_854_775_808 <= nanos / 1_000_000_000
            <= 9_223_372_036_854_775_807,
        length.wf() ==> length.total() / 1_000_000_000 == length.secs && length.total()
            % 1_000_000_000 == length.nanos,
{
}

} // verus!

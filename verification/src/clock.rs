//! Instants on the UTC time line and the inactivity measure between two of them.

use vstd::prelude::*;

verus! {

/// Seconds since the epoch of the earliest instant that `chrono` represents
/// in UTC.
pub const MIN_SECONDS: i64 = -8_334_601_228_800;

/// Seconds since the epoch of the last second that `chrono` represents in
/// UTC.
pub const MAX_SECONDS: i64 = 8_210_266_876_799;

/// Nanoseconds in one second.
pub const NANOS_PER_SECOND: u32 = 1_000_000_000;

/// Whether `secs` whole seconds since 1970-01-01T00:00:00Z and `nanos`
/// nanoseconds into that second denote a representable instant.
///
/// A nanosecond count of one second or more stands for a leap second and is
/// accepted only in the last second of a minute.
pub open spec fn valid_parts(secs: int, nanos: int) -> bool {
    &&& MIN_SECONDS <= secs <= MAX_SECONDS
    &&& 0 <= nanos < 2 * NANOS_PER_SECOND
    &&& nanos >= NANOS_PER_SECOND ==> secs % 60 == 59
}

/// An instant in UTC, held as seconds since the epoch and nanoseconds into
/// that second.
#[derive(Clone, Copy, Debug, PartialEq, Eq, Structural)]
pub struct Timestamp {
    secs: i64,
    nanos: u32,
}

impl Timestamp {
    /// Whole seconds since the epoch.
    pub closed spec fn seconds(self) -> int {
        self.secs as int
    }

    /// Nanoseconds into the second.
    pub closed spec fn subsec(self) -> int {
        self.nanos as int
    }

    /// The instant is representable. This holds of every value of the type.
    #[verifier::type_invariant]
    pub open spec fn wf(self) -> bool {
        valid_parts(self.seconds(), self.subsec())
    }

    /// `self` lies strictly before `other`.
    pub open spec fn precedes(self, other: Timestamp) -> bool {
        self.seconds() < other.seconds() || (self.seconds() == other.seconds() && self.subsec()
            < other.subsec())
    }

    /// The instant with the given parts, or `None` where they denote none.
    pub fn new(secs: i64, nanos: u32) -> (r: Option<Timestamp>)
        ensures
            r is Some <==> valid_parts(secs as int, nanos as int),
            r matches Some(t) ==> t.seconds() == secs && t.subsec() == nanos,
    {
        if secs < MIN_SECONDS || secs > MAX_SECONDS || nanos >= 2_000_000_000 {
            return None;
        }
        if nanos >= NANOS_PER_SECOND {
            let shifted: i64 = secs - MIN_SECONDS;
            assert(shifted % 60 == (secs as int) % 60) by {
                assert(MIN_SECONDS == -138_910_020_480 * 60);
                assert(shifted == secs + 138_910_020_480 * 60);
            }
            if shifted % 60 != 59 {
                return None;
            }
        }
        Some(Timestamp { secs, nanos })
    }

    /// Whole seconds since the epoch.
    pub fn secs(&self) -> (r: i64)
        ensures
            r == self.seconds(),
    {
        self.secs
    }

    /// Nanoseconds into the second.
    pub fn nanos(&self) -> (r: u32)
        ensures
            r == self.subsec(),
    {
        self.nanos
    }

    /// Whether `self` lies strictly after `other`.
    pub fn is_after(&self, other: &Timestamp) -> (r: bool)
        ensures
            r == other.precedes(*self),
    {
        self.secs > other.secs || (self.secs == other.secs && self.nanos > other.nanos)
    }
}

/// The second of its day, counted from midnight, in which `t` lies.
pub open spec fn second_of_day(t: Timestamp) -> int {
    t.seconds() % 86_400
}

/// The second that a leap second between two instants adds to, or takes from,
/// the difference of their second counts.
///
/// A leap second is held as a nanosecond count of one second or more. The
/// subtraction counts the one of the earlier operand where the other lies in a
/// later second of the day, and likewise with the operands exchanged.
pub open spec fn leap_adjustment(later: Timestamp, earlier: Timestamp) -> int {
    if second_of_day(later) > second_of_day(earlier) && earlier.subsec() >= NANOS_PER_SECOND {
        1
    } else if second_of_day(later) < second_of_day(earlier) && later.subsec()
        >= NANOS_PER_SECOND {
        -1
    } else {
        0
    }
}

/// Signed nanoseconds from `earlier` to `later`.
pub open spec fn nanos_between(later: Timestamp, earlier: Timestamp) -> int {
    (later.seconds() - earlier.seconds() + leap_adjustment(later, earlier)) * NANOS_PER_SECOND
        + (later.subsec() - earlier.subsec())
}

/// The quotient of `a` by a positive `b`, rounded toward zero.
pub open spec fn div_toward_zero(a: int, b: int) -> int {
    if a >= 0 {
        a / b
    } else {
        -((-a) / b)
    }
}

/// Whole minutes from `earlier` to `later`: the nanoseconds between them are
/// cut to whole seconds and those to whole minutes, each time toward zero.
pub open spec fn minutes_between(later: Timestamp, earlier: Timestamp) -> int {
    div_toward_zero(div_toward_zero(nanos_between(later, earlier), NANOS_PER_SECOND as int), 60)
}

/// The current instant, read from `chrono::Utc::now`.
///
/// Trusted: the clock's reading is a representable instant. Nothing else is
/// claimed of it, and two readings need not agree. The call relies on a
/// system clock that is not set before the epoch.
#[verifier::external_body]
pub(crate) fn utc_now() -> (t: Timestamp)
    ensures
        t.wf(),
{
    let t = chrono::Utc::now();
    Timestamp { secs: t.timestamp(), nanos: t.timestamp_subsec_nanos() }
}

/// Whole minutes from `earlier` to `later`, as
/// `chrono::DateTime::signed_duration_since` followed by
/// `chrono::TimeDelta::num_minutes` gives them.
///
/// Trusted: the subtraction yields the difference of the two second counts,
/// corrected by a leap second as [`leap_adjustment`] says, together with the
/// difference of the nanosecond counts; `num_minutes` cuts that duration to
/// whole seconds and then to whole minutes, toward zero.
#[verifier::external_body]
pub(crate) fn whole_minutes_between(later: Timestamp, earlier: Timestamp) -> (m: i64)
    requires
        later.wf(),
        earlier.wf(),
    ensures
        m == minutes_between(later, earlier),
{
    let a = chrono::DateTime::from_timestamp(later.secs, later.nanos).unwrap();
    let b = chrono::DateTime::from_timestamp(earlier.secs, earlier.nanos).unwrap();
    a.signed_duration_since(b).num_minutes()
}

} // verus!

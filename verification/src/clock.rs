//! Instants in Coordinated Universal Time.

use chrono::{DateTime, Datelike, Timelike, Utc};
use vstd::prelude::*;

verus! {

/// Seconds of a day.
pub const DAY: i64 = 86_400;

/// The first second that an instant can lie in: the start of the year -262143.
pub const FIRST_SECOND: i64 = -8_334_601_228_800;

/// The last second that an instant can lie in: the end of the year 262142.
pub const LAST_SECOND: i64 = 8_210_266_876_799;

/// `seconds` since 1970 and `nanos` more are an instant. A billion nanoseconds or more stand
/// for a leap second, which ends a minute.
pub open spec fn is_instant(seconds: int, nanos: int) -> bool {
    &&& FIRST_SECOND <= seconds <= LAST_SECOND
    &&& 0 <= nanos < 2_000_000_000
    &&& nanos >= 1_000_000_000 ==> seconds % 60 == 59
}

/// Seconds since midnight.
pub open spec fn second_of_day(seconds: int) -> int {
    seconds % (DAY as int)
}

/// Hour of the day, from 0 to 23.
pub open spec fn hour_of_day(seconds: int) -> int {
    second_of_day(seconds) / 3600
}

/// Day of the week, from 0 for Monday to 6 for Sunday; the first of January 1970 was a
/// Thursday.
pub open spec fn day_of_week(seconds: int) -> int {
    (seconds / (DAY as int) + 3) % 7
}

/// A leap second that lies between two instants is one second more, told by the times of day.
pub open spec fn leap_between(a: int, a_nanos: int, b: int, b_nanos: int) -> int {
    if second_of_day(a) > second_of_day(b) && b_nanos >= 1_000_000_000 {
        1
    } else if second_of_day(a) < second_of_day(b) && a_nanos >= 1_000_000_000 {
        -1
    } else {
        0
    }
}

/// Nanoseconds from instant `b` to instant `a`.
pub open spec fn nanos_between(a: int, a_nanos: int, b: int, b_nanos: int) -> int {
    (a - b + leap_between(a, a_nanos, b, b_nanos)) * 1_000_000_000 + a_nanos - b_nanos
}

/// `nanos` in whole minutes, rounded towards zero.
pub open spec fn whole_minutes(nanos: int) -> int {
    if nanos >= 0 {
        nanos / 60_000_000_000
    } else {
        -((-nanos) / 60_000_000_000)
    }
}

/// Whether `chrono::DateTime::from_timestamp` accepts a pair of numbers.
///
/// Not proved here: that it accepts the seconds from the start of the year -262143 to the end
/// of the year 262142, nanoseconds under two billion, and a billion of them or more only in the
/// last second of a minute.
#[verifier::external_body]
fn accepted(seconds: i64, nanos: u32) -> (ok: bool)
    ensures
        ok == is_instant(seconds as int, nanos as int),
{
    DateTime::<Utc>::from_timestamp(seconds, nanos).is_some()
}

/// The hour of an instant, from `chrono::Timelike::hour`.
///
/// Not proved here: that this is the number of whole hours since midnight.
#[verifier::external_body]
fn hour(seconds: i64, nanos: u32) -> (h: u32)
    requires
        is_instant(seconds as int, nanos as int),
    ensures
        h == hour_of_day(seconds as int),
{
    DateTime::<Utc>::from_timestamp(seconds, nanos).unwrap().hour()
}

/// The day of the week of an instant, from `chrono::Datelike::weekday` and
/// `chrono::Weekday::num_days_from_monday`.
///
/// Not proved here: that the days of the week follow each other without a gap, and that the
/// first of January 1970 was a Thursday.
#[verifier::external_body]
fn weekday(seconds: i64, nanos: u32) -> (d: u32)
    requires
        is_instant(seconds as int, nanos as int),
    ensures
        d == day_of_week(seconds as int),
{
    DateTime::<Utc>::from_timestamp(seconds, nanos).unwrap().weekday().num_days_from_monday()
}

/// The whole minutes from instant `b` to instant `a`, from
/// `chrono::DateTime::signed_duration_since` and `chrono::TimeDelta::num_minutes`.
///
/// Not proved here: that days have 86 400 seconds, that a leap second in one of the instants
/// counts as `leap_between` says, and that the result is rounded towards zero.
#[verifier::external_body]
fn minutes(a: i64, a_nanos: u32, b: i64, b_nanos: u32) -> (m: i64)
    requires
        is_instant(a as int, a_nanos as int),
        is_instant(b as int, b_nanos as int),
    ensures
        m == whole_minutes(nanos_between(a as int, a_nanos as int, b as int, b_nanos as int)),
{
    let later = DateTime::<Utc>::from_timestamp(a, a_nanos).unwrap();
    let earlier = DateTime::<Utc>::from_timestamp(b, b_nanos).unwrap();
    later.signed_duration_since(earlier).num_minutes()
}

/// An instant: seconds since 1970, and nanoseconds since that second.
pub struct Timestamp {
    seconds: i64,
    nanos: u32,
}

impl View for Timestamp {
    type V = (int, int);

    /// Its seconds and its nanoseconds.
    closed spec fn view(&self) -> (int, int) {
        (self.seconds as int, self.nanos as int)
    }
}

impl Timestamp {
    #[verifier::type_invariant]
    spec fn wf(self) -> bool {
        is_instant(self.seconds as int, self.nanos as int)
    }

    /// The instant `nanos` after `seconds` since 1970, if there is one.
    pub fn new(seconds: i64, nanos: u32) -> (res: Option<Timestamp>)
        ensures
            match res {
                Some(t) => is_instant(seconds as int, nanos as int) && t@ == (
                    seconds as int,
                    nanos as int,
                ),
                None => !is_instant(seconds as int, nanos as int),
            },
    {
        if accepted(seconds, nanos) {
            Some(Timestamp { seconds, nanos })
        } else {
            None
        }
    }

    /// Hour of the day, from 0 to 23.
    pub fn hour(&self) -> (h: u32)
        ensures
            h == hour_of_day(self@.0),
            h < 24,
    {
        proof {
            use_type_invariant(self);
        }
        hour(self.seconds, self.nanos)
    }

    /// Day of the week, from 0 for Monday to 6 for Sunday.
    pub fn days_from_monday(&self) -> (d: u32)
        ensures
            d == day_of_week(self@.0),
            d < 7,
    {
        proof {
            use_type_invariant(self);
        }
        weekday(self.seconds, self.nanos)
    }

    /// Whole minutes since `earlier`; negative if `earlier` is later.
    pub fn minutes_since(&self, earlier: &Timestamp) -> (m: i64)
        ensures
            m == whole_minutes(nanos_between(self@.0, self@.1, earlier@.0, earlier@.1)),
    {
        proof {
            use_type_invariant(self);
            use_type_invariant(earlier);
        }
        minutes(self.seconds, self.nanos, earlier.seconds, earlier.nanos)
    }
}

/// The minutes from one instant to another are those back, with the other sign.
pub proof fn minutes_antisymmetric(a: int, a_nanos: int, b: int, b_nanos: int)
    ensures
        whole_minutes(nanos_between(a, a_nanos, b, b_nanos)) == -whole_minutes(
            nanos_between(b, b_nanos, a, a_nanos),
        ),
{
    let n = nanos_between(a, a_nanos, b, b_nanos);
    let m = nanos_between(b, b_nanos, a, a_nanos);
    assert(n == -m);
}

} // verus!

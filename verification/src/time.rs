//! Plain-value model of dates, times of day, durations and weekdays.
use vstd::prelude::*;

verus! {

/// Seconds in one day.
pub const SECS_PER_DAY: i64 = 86400;

/// Nanoseconds in one second.
pub const NANOS_PER_SEC: u32 = 1_000_000_000;

/// A naive (time-zone free) date and time: seconds since
/// 1970-01-01T00:00:00 on the same clock, plus a sub-second part.
#[derive(Clone, Copy, Debug, PartialEq, Eq, Structural)]
pub struct Timestamp {
    pub secs: i64,
    pub nanos: u32,
}

/// A time of day: seconds since midnight plus a sub-second part.
#[derive(Clone, Copy, Debug, PartialEq, Eq, Structural)]
pub struct TimeOfDay {
    pub secs: u32,
    pub nanos: u32,
}

/// A non-negative span of time.
#[derive(Clone, Copy, Debug, PartialEq, Eq, Structural)]
pub struct Span {
    pub secs: u64,
    pub nanos: u32,
}

/// Days of the week, Monday first.
#[derive(Clone, Copy, Debug, PartialEq, Eq, Structural)]
pub enum Weekday {
    Mon,
    Tue,
    Wed,
    Thu,
    Fri,
    Sat,
    Sun,
}

/// Total nanoseconds of a timestamp since the epoch.
pub open spec fn ts_nanos(t: Timestamp) -> int {
    t.secs * 1_000_000_000 + t.nanos
}

/// Chronological order of two timestamps (seconds first, then the sub-second part).
pub open spec fn ts_lt(a: Timestamp, b: Timestamp) -> bool {
    a.secs < b.secs || (a.secs == b.secs && a.nanos < b.nanos)
}

/// Chronological order of two times of day.
pub open spec fn tod_lt(a: TimeOfDay, b: TimeOfDay) -> bool {
    a.secs < b.secs || (a.secs == b.secs && a.nanos < b.nanos)
}

/// A time of day that a calendar time can have: within the day, with the
/// sub-second part reaching past one second only during a leap second.
pub open spec fn tod_valid(t: TimeOfDay) -> bool {
    t.secs < 86400 && (t.nanos < 1_000_000_000 || (t.nanos < 2_000_000_000 && t.secs % 60 == 59))
}

/// Total nanoseconds of a span.
pub open spec fn span_nanos(s: Span) -> int {
    s.secs * 1_000_000_000 + s.nanos
}

/// The day number of a timestamp (days since 1970-01-01, rounded down).
pub open spec fn day_number(t: Timestamp) -> int {
    t.secs / 86400
}

/// Position of a weekday counted from Monday (Monday is 0).
pub open spec fn weekday_index(w: Weekday) -> int {
    match w {
        Weekday::Mon => 0,
        Weekday::Tue => 1,
        Weekday::Wed => 2,
        Weekday::Thu => 3,
        Weekday::Fri => 4,
        Weekday::Sat => 5,
        Weekday::Sun => 6,
    }
}

/// The weekday of a timestamp: 1970-01-01 was a Thursday.
pub open spec fn weekday_of(t: Timestamp) -> int {
    (day_number(t) + 3) % 7
}

/// The time of day of a timestamp.
pub open spec fn time_of_day_of(t: Timestamp) -> TimeOfDay {
    TimeOfDay { secs: (t.secs % 86400) as u32, nanos: t.nanos }
}

/// Span constructed from whole seconds.
pub fn span_from_secs(secs: u64) -> (r: Span)
    ensures
        r == (Span { secs: secs, nanos: 0 }),
{
    Span { secs, nanos: 0 }
}

/// `a` is strictly before `b`.
pub fn timestamp_before(a: Timestamp, b: Timestamp) -> (r: bool)
    ensures
        r == ts_lt(a, b),
{
    a.secs < b.secs || (a.secs == b.secs && a.nanos < b.nanos)
}

/// `a` is strictly before `b`.
pub fn time_of_day_before(a: TimeOfDay, b: TimeOfDay) -> (r: bool)
    ensures
        r == tod_lt(a, b),
{
    a.secs < b.secs || (a.secs == b.secs && a.nanos < b.nanos)
}

/// The day number of a timestamp, rounding towards the past.
pub fn day_of(t: Timestamp) -> (r: i64)
    ensures
        r == day_number(t),
{
    let q = t.secs / SECS_PER_DAY;
    let rem = t.secs % SECS_PER_DAY;
    if rem < 0 {
        q - 1
    } else {
        q
    }
}


/// Weekday of the given position counted from Monday.
pub open spec fn weekday_at(i: int) -> Weekday {
    if i == 0 {
        Weekday::Mon
    } else if i == 1 {
        Weekday::Tue
    } else if i == 2 {
        Weekday::Wed
    } else if i == 3 {
        Weekday::Thu
    } else if i == 4 {
        Weekday::Fri
    } else if i == 5 {
        Weekday::Sat
    } else {
        Weekday::Sun
    }
}

/// The weekday of a timestamp.
pub fn weekday(t: Timestamp) -> (r: Weekday)
    ensures
        weekday_index(r) == weekday_of(t),
        r == weekday_at(weekday_of(t)),
{
    let d = day_of(t);
    let m = d % 7;
    let m = if m < 0 { m + 7 } else { m };
    let k = if m >= 4 { m - 4 } else { m + 3 };
    assert(k == (d + 3) % 7);
    if k == 0 {
        Weekday::Mon
    } else if k == 1 {
        Weekday::Tue
    } else if k == 2 {
        Weekday::Wed
    } else if k == 3 {
        Weekday::Thu
    } else if k == 4 {
        Weekday::Fri
    } else if k == 5 {
        Weekday::Sat
    } else {
        Weekday::Sun
    }
}

/// The time of day of a timestamp.
pub fn time_of_day(t: Timestamp) -> (r: TimeOfDay)
    ensures
        r == time_of_day_of(t),
{
    let rem = t.secs % SECS_PER_DAY;
    let rem = if rem < 0 { rem + SECS_PER_DAY } else { rem };
    assert(rem == t.secs % 86400);
    TimeOfDay { secs: rem as u32, nanos: t.nanos }
}

/// Nanoseconds elapsed from `a` to `b` (negative when `b` is before `a`).
pub fn nanos_between(a: Timestamp, b: Timestamp) -> (r: i128)
    ensures
        r == ts_nanos(b) - ts_nanos(a),
{
    let na = (a.secs as i128) * 1_000_000_000 + (a.nanos as i128);
    let nb = (b.secs as i128) * 1_000_000_000 + (b.nanos as i128);
    nb - na
}

/// Total nanoseconds of a span, as an exact integer.
pub fn span_total_nanos(s: Span) -> (r: u128)
    ensures
        r == span_nanos(s),
{
    (s.secs as u128) * 1_000_000_000 + (s.nanos as u128)
}

} // verus!

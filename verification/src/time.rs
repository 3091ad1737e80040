//! Instants, and the time between them.

use crate::text::{concat2, concat4, dec, dec2, decimal, decimal2};
use vstd::prelude::*;
use vstd::string::*;

verus! {

/// An instant: seconds since the Unix epoch and nanoseconds within the second.
///
/// As in chrono, the nanoseconds of the last second of a minute may run to two
/// billion, which places the instant within a leap second.
#[derive(Debug, Clone, Copy, PartialEq, Eq, Structural)]
pub struct Timestamp {
    pub secs: i64,
    pub nanos: u32,
}

/// First second of chrono's calendar: January 1, 262144 BCE.
pub const FIRST_SECOND: i64 = -8_334_601_228_800;

/// Last second of chrono's calendar: December 31, 262142 CE.
pub const LAST_SECOND: i64 = 8_210_266_876_799;

/// Whether chrono can represent the instant.
pub open spec fn on_calendar(t: Timestamp) -> bool {
    &&& FIRST_SECOND <= t.secs <= LAST_SECOND
    &&& t.nanos < 1_000_000_000 || (t.nanos < 2_000_000_000 && t.secs as int % 60 == 59)
}

/// Nanoseconds from `earlier` to `later`. A leap second that lies between the
/// two within their days counts as one more second.
pub open spec fn span_nanos(later: Timestamp, earlier: Timestamp) -> int {
    let a = later.secs as int % 86_400;
    let b = earlier.secs as int % 86_400;
    let leap: int = if a > b && earlier.nanos >= 1_000_000_000 {
        1
    } else if a < b && later.nanos >= 1_000_000_000 {
        -1
    } else {
        0
    };
    (later.secs - earlier.secs + leap) * 1_000_000_000 + (later.nanos - earlier.nanos)
}

/// The whole seconds in a span, rounded towards zero.
pub open spec fn whole_seconds(nanos: int) -> int {
    if nanos >= 0 {
        nanos / 1_000_000_000
    } else {
        -((-nanos) / 1_000_000_000)
    }
}

/// The whole seconds between two instants, where both exist.
pub open spec fn elapsed(later: Timestamp, earlier: Timestamp) -> Option<int> {
    if on_calendar(later) && on_calendar(earlier) {
        Some(whole_seconds(span_nanos(later, earlier)))
    } else {
        None
    }
}

/// `chrono::Utc::now`, taken apart by `timestamp` and `timestamp_subsec_nanos`.
/// Of the reading only that chrono can represent it is claimed. (chrono panics
/// where the system clock stands before 1970.)
#[verifier::external_body]
fn utc_now() -> (t: Timestamp)
    ensures
        on_calendar(t),
{
    let now = chrono::Utc::now();
    Timestamp { secs: now.timestamp(), nanos: now.timestamp_subsec_nanos() }
}

/// Whether the clock read `t` when it was asked.
pub closed spec fn clock_read(t: Timestamp) -> bool {
    call_ensures(utc_now, (), t)
}

/// Every reading of the clock is an instant of the calendar, so that an age can
/// be told from it.
pub proof fn law_the_clock_stays_on_the_calendar(t: Timestamp)
    requires
        clock_read(t),
    ensures
        on_calendar(t),
{
}

/// What time it is.
pub(crate) fn now() -> (t: Timestamp)
    ensures
        clock_read(t),
        on_calendar(t),
{
    utc_now()
}

/// `chrono::DateTime::signed_duration_since` and `TimeDelta::num_seconds`: the
/// whole seconds from one instant to another.
#[verifier::external_body]
fn chrono_seconds_between(later: Timestamp, earlier: Timestamp) -> (s: i64)
    requires
        on_calendar(later),
        on_calendar(earlier),
    ensures
        s == whole_seconds(span_nanos(later, earlier)),
{
    let a = chrono::DateTime::from_timestamp(later.secs, later.nanos).unwrap();
    let b = chrono::DateTime::from_timestamp(earlier.secs, earlier.nanos).unwrap();
    a.signed_duration_since(b).num_seconds()
}

impl Timestamp {
    /// Whether this instant lies on chrono's calendar.
    pub fn is_valid(self) -> (r: bool)
        ensures
            r == on_calendar(self),
    {
        FIRST_SECOND <= self.secs && self.secs <= LAST_SECOND && (self.nanos < 1_000_000_000
            || self.nanos < 2_000_000_000 && (self.secs - FIRST_SECOND) % 60 == 59)
    }
}

/// The whole seconds from `earlier` to `later`, or nothing where one of them is
/// no instant of the calendar.
pub fn seconds_between(later: Timestamp, earlier: Timestamp) -> (r: Option<i64>)
    ensures
        elapsed(later, earlier) == (match r {
            Some(s) => Some(s as int),
            None => None,
        }),
{
    if later.is_valid() && earlier.is_valid() {
        Some(chrono_seconds_between(later, earlier))
    } else {
        None
    }
}

/// A number of seconds for people: `2h14m`, `17m04s`, `9s`, or `-` for a span
/// that runs backwards.
pub open spec fn duration_text(secs: int) -> Seq<char> {
    if secs < 0 {
        "-"@
    } else {
        let hours = (secs / 3600) as nat;
        let mins = ((secs % 3600) / 60) as nat;
        let rest = (secs % 60) as nat;
        if hours > 0 {
            decimal(hours) + "h"@ + decimal2(mins) + "m"@
        } else if mins > 0 {
            decimal(mins) + "m"@ + decimal2(rest) + "s"@
        } else {
            decimal(rest) + "s"@
        }
    }
}

/// Render a number of seconds for people.
pub fn format_duration(total_secs: i64) -> (out: String)
    ensures
        out@ == duration_text(total_secs as int),
{
    if total_secs < 0 {
        return "-".to_owned();
    }
    let total: u64 = total_secs as u64;
    let hours: u64 = total / 3600;
    let mins: u64 = (total % 3600) / 60;
    let secs: u64 = total % 60;
    if hours > 0 {
        concat4(dec(hours).as_str(), "h", dec2(mins).as_str(), "m")
    } else if mins > 0 {
        concat4(dec(mins).as_str(), "m", dec2(secs).as_str(), "s")
    } else {
        concat2(dec(secs).as_str(), "s")
    }
}

/// How long ago `at` was, seen from `now`.
pub open spec fn age_text(now: Timestamp, at: Timestamp) -> Seq<char> {
    match elapsed(now, at) {
        Some(s) => duration_text(s),
        None => "-"@,
    }
}

/// Render how long ago `at` was, seen from `now`.
pub fn format_age(now: Timestamp, at: Timestamp) -> (out: String)
    ensures
        out@ == age_text(now, at),
{
    match seconds_between(now, at) {
        Some(s) => format_duration(s),
        None => "-".to_owned(),
    }
}

/// Durations are told in their two largest parts: hours and minutes, or minutes
/// and seconds, the smaller part always with two digits, or seconds alone.
pub proof fn law_a_duration_is_told_in_two_parts(hours: nat, mins: nat, secs: nat)
    requires
        mins < 60,
        secs < 60,
    ensures
        hours > 0 && mins >= 10 ==> duration_text((3600 * hours + 60 * mins + secs) as int)
            == decimal(hours) + "h"@ + decimal(mins) + "m"@,
        hours > 0 && mins < 10 ==> duration_text((3600 * hours + 60 * mins + secs) as int)
            == decimal(hours) + "h"@ + (seq!['0'] + decimal(mins)) + "m"@,
        hours == 0 && mins > 0 && secs >= 10 ==> duration_text((60 * mins + secs) as int)
            == decimal(mins) + "m"@ + decimal(secs) + "s"@,
        hours == 0 && mins > 0 && secs < 10 ==> duration_text((60 * mins + secs) as int)
            == decimal(mins) + "m"@ + (seq!['0'] + decimal(secs)) + "s"@,
        hours == 0 && mins == 0 ==> duration_text(secs as int) == decimal(secs) + "s"@,
{
}

/// A span that runs backwards has no duration to tell, nor has one that does not
/// lie on the calendar.
pub proof fn law_no_duration_runs_backwards(secs: int, now: Timestamp, at: Timestamp)
    ensures
        secs < 0 ==> duration_text(secs) == "-"@,
        !on_calendar(now) || !on_calendar(at) ==> age_text(now, at) == "-"@,
{
}

/// Whole seconds are counted: what happened `n` seconds and a fraction ago is
/// `n` seconds old, and looking the other way gives the same number backwards.
pub proof fn law_ages_count_whole_seconds(at: Timestamp, now: Timestamp, n: int)
    requires
        on_calendar(at),
        on_calendar(now),
        at.nanos < 1_000_000_000,
        now.nanos < 1_000_000_000,
        n >= 0,
        n * 1_000_000_000 <= (now.secs * 1_000_000_000 + now.nanos) - (at.secs * 1_000_000_000
            + at.nanos) < (n + 1) * 1_000_000_000,
    ensures
        elapsed(now, at) == Some(n),
        elapsed(at, now) == Some(-n),
        age_text(now, at) == duration_text(n),
{
}

}

//! Points in time for key expiry, and the calls into `chrono` that read the
//! clock and compute expiry times.
use vstd::prelude::*;

use chrono::{DateTime, TimeDelta, TimeZone, Utc};

verus! {

/// A point in UTC time, as `chrono` reports it: whole seconds since the Unix
/// epoch and the nanoseconds since the last whole second.
#[derive(Debug, Clone, Copy, PartialEq, Eq, Structural)]
pub struct Instant {
    pub secs: i64,
    pub nanos: u32,
}

/// `a` comes strictly before `b` (the order of `chrono::DateTime`).
pub open spec fn instant_lt(a: Instant, b: Instant) -> bool {
    a.secs < b.secs || (a.secs == b.secs && a.nanos < b.nanos)
}

/// Whether `a` comes strictly before `b`.
pub fn is_before(a: &Instant, b: &Instant) -> (r: bool)
    ensures
        r == instant_lt(*a, *b),
{
    a.secs < b.secs || (a.secs == b.secs && a.nanos < b.nanos)
}

pub open spec fn as_instant(p: Option<(i64, u32)>) -> Option<Instant> {
    match p {
        Some((secs, nanos)) => Some(Instant { secs, nanos }),
        None => None,
    }
}

/// The seconds since the epoch that chrono's UTC instants span: from the
/// first second of January 1st of the year -262143 to the last second of
/// December 31st of the year 262142 (`NaiveDate::MIN` and `NaiveDate::MAX`).
pub open spec fn utc_in_range(secs: int) -> bool {
    -8334601228800 <= secs <= 8210266876799
}

/// What `chrono` gives for the instant `(secs, nanos)` plus `delta` seconds
/// (`TimeDelta::try_seconds` and `DateTime::checked_add_signed`) where
/// `nanos` is a billion or more, which chrono reads as a leap second.
pub uninterp spec fn chrono_add_seconds(secs: i64, nanos: u32, delta: i64) -> Option<(i64, u32)>;

/// What `chrono` gives for the instant `(secs, nanos)` plus `delta`
/// milliseconds (`TimeDelta::try_milliseconds` and
/// `DateTime::checked_add_signed`) where `nanos` is a billion or more.
pub uninterp spec fn chrono_add_millis(secs: i64, nanos: u32, delta: i64) -> Option<(i64, u32)>;

/// `t` plus `delta` seconds: the same fraction of a second, `delta` seconds
/// on, where both instants are in chrono's range.
pub open spec fn plain_seconds_later(t: Instant, delta: i64) -> Option<Instant> {
    if utc_in_range(t.secs as int) && utc_in_range(t.secs + delta) {
        Some(Instant { secs: (t.secs + delta) as i64, nanos: t.nanos })
    } else {
        None
    }
}

/// `t` plus `delta` milliseconds, carrying into the seconds, where both
/// instants are in chrono's range.
pub open spec fn plain_millis_later(t: Instant, delta: i64) -> Option<Instant> {
    let frac = t.nanos + (delta % 1000) * 1_000_000;
    let carry: int = if frac >= 1_000_000_000 { 1 } else { 0 };
    let secs = t.secs + delta / 1000 + carry;
    if utc_in_range(t.secs as int) && utc_in_range(secs) {
        Some(Instant { secs: secs as i64, nanos: (frac - carry * 1_000_000_000) as u32 })
    } else {
        None
    }
}

/// What [`add_seconds`] gives.
pub open spec fn seconds_later(t: Instant, delta: i64) -> Option<Instant> {
    if t.nanos < 1_000_000_000 {
        plain_seconds_later(t, delta)
    } else {
        as_instant(chrono_add_seconds(t.secs, t.nanos, delta))
    }
}

/// What [`add_millis`] gives.
pub open spec fn millis_later(t: Instant, delta: i64) -> Option<Instant> {
    if t.nanos < 1_000_000_000 {
        plain_millis_later(t, delta)
    } else {
        as_instant(chrono_add_millis(t.secs, t.nanos, delta))
    }
}

/// Reads the clock: `Utc::now()`. Which instant comes back is not
/// claimed; only that it is an ordinary one (fewer than a billion
/// nanoseconds) in chrono's range, as chrono builds it with
/// `DateTime::from_timestamp(secs, subsec_nanos).unwrap()`. It panics where
/// the system clock shows a time before the Unix epoch.
#[verifier::external_body]
pub(crate) fn now() -> (t: Instant)
    ensures
        utc_in_range(t.secs as int),
        t.nanos < 1_000_000_000,
{
    let d = Utc::now();
    Instant { secs: d.timestamp(), nanos: d.timestamp_subsec_nanos() }
}

/// `t + TimeDelta::seconds(delta)` in its checked form: the instant, or
/// `None` where `TimeDelta::seconds` or the addition would panic. For an
/// instant of fewer than a billion nanoseconds the value is stated: `delta`
/// seconds on, the fraction kept, both instants in chrono's range. From a
/// leap second (a billion nanoseconds or more) it is named, not stated.
#[verifier::external_body]
pub(crate) fn add_seconds(t: Instant, delta: i64) -> (r: Option<Instant>)
    ensures
        t.nanos < 1_000_000_000 ==> r == plain_seconds_later(t, delta),
        t.nanos >= 1_000_000_000 ==> r == as_instant(chrono_add_seconds(t.secs, t.nanos, delta)),
{
    let d = DateTime::from_timestamp(t.secs, t.nanos)?;
    let sum = d.checked_add_signed(TimeDelta::try_seconds(delta)?)?;
    Some(Instant { secs: sum.timestamp(), nanos: sum.timestamp_subsec_nanos() })
}

/// `t + TimeDelta::milliseconds(delta)` in its checked form: the instant,
/// or `None` where `TimeDelta::milliseconds` or the addition would panic.
/// For an instant of fewer than a billion nanoseconds the value is stated:
/// `delta` milliseconds on, carried into the seconds, both instants in
/// chrono's range. From a leap second it is named, not stated.
#[verifier::external_body]
pub(crate) fn add_millis(t: Instant, delta: i64) -> (r: Option<Instant>)
    ensures
        t.nanos < 1_000_000_000 ==> r == plain_millis_later(t, delta),
        t.nanos >= 1_000_000_000 ==> r == as_instant(chrono_add_millis(t.secs, t.nanos, delta)),
{
    let d = DateTime::from_timestamp(t.secs, t.nanos)?;
    let sum = d.checked_add_signed(TimeDelta::try_milliseconds(delta)?)?;
    Some(Instant { secs: sum.timestamp(), nanos: sum.timestamp_subsec_nanos() })
}

/// `Utc.timestamp_opt(secs, 0)`: the instant `secs` seconds after the epoch
/// (its documented round trip through `timestamp()`), or `None` where that
/// is out of chrono's range.
#[verifier::external_body]
pub(crate) fn from_timestamp(secs: i64) -> (r: Option<Instant>)
    ensures
        r is Some <==> utc_in_range(secs as int),
        r matches Some(t) ==> t == (Instant { secs, nanos: 0 }),
{
    match Utc.timestamp_opt(secs, 0).single() {
        Some(d) => Some(Instant { secs: d.timestamp(), nanos: d.timestamp_subsec_nanos() }),
        None => None,
    }
}

/// How `chrono` writes the UTC instant `(secs, nanos)` (the `Display` of
/// `DateTime<Utc>`, such as `2015-05-15 00:00:00 UTC`), or `None` where
/// chrono has no such instant.
pub uninterp spec fn chrono_utc_text(secs: i64, nanos: u32) -> Option<Seq<char>>;

/// `DateTime::from_timestamp(secs, nanos)` written by its `Display`, or
/// `None` where chrono has no such instant. The text is named, not stated;
/// an ordinary instant (fewer than a billion nanoseconds) in chrono's range
/// always has one.
#[verifier::external_body]
pub(crate) fn instant_text(t: Instant) -> (s: Option<String>)
    ensures
        match s {
            Some(x) => chrono_utc_text(t.secs, t.nanos) == Some(x@),
            None => chrono_utc_text(t.secs, t.nanos) is None,
        },
        utc_in_range(t.secs as int) && t.nanos < 1_000_000_000 ==> s is Some,
{
    match DateTime::from_timestamp(t.secs, t.nanos) {
        Some(d) => Some(d.to_string()),
        None => None,
    }
}

} // verus!

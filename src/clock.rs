//! Instants and calendar days, computed by `chrono`. An instant is held as
//! seconds and nanoseconds since the Unix epoch; a calendar day as its number
//! counted from the first day of the common era (day 1 is 0001-01-01).
use chrono::Datelike;
use vstd::prelude::*;

verus! {

/// A point in time: whole seconds since the Unix epoch, and the nanoseconds
/// past that second.
#[derive(PartialEq, Eq, Structural, Debug, Clone, Copy)]
pub struct Instant {
    pub secs: i64,
    pub nanos: u32,
}

/// True when `a` is strictly later than `b`.
pub open spec fn later(a: Instant, b: Instant) -> bool {
    a.secs > b.secs || (a.secs == b.secs && a.nanos > b.nanos)
}

/// Whether `a` is strictly later than `b`.
pub fn is_later(a: Instant, b: Instant) -> (r: bool)
    ensures
        r == later(a, b),
{
    a.secs > b.secs || (a.secs == b.secs && a.nanos > b.nanos)
}

/// What `chrono::DateTime::parse_from_rfc3339` makes of a text: the instant
/// it denotes as (seconds, nanoseconds), or nothing when it is not RFC 3339.
pub uninterp spec fn rfc3339_instant(s: Seq<char>) -> Option<(i64, u32)>;

/// Relies on `chrono::DateTime::parse_from_rfc3339`: the instant, read back
/// through `timestamp` and `timestamp_subsec_nanos`; and the number of its
/// calendar day in the machine's time zone (`with_timezone(&chrono::Local)`,
/// `date_naive`, `num_days_from_ce`), which depends on the machine, so that
/// nothing is promised of it.
#[verifier::external_body]
pub(crate) fn parse_timestamp(s: &str) -> (r: Option<(Instant, i32)>)
    ensures
        match r {
            Some((t, _)) => rfc3339_instant(s@) == Some((t.secs, t.nanos)),
            None => rfc3339_instant(s@) is None,
        },
{
    chrono::DateTime::parse_from_rfc3339(s).ok().map(|d| {
        let t = Instant { secs: d.timestamp(), nanos: d.timestamp_subsec_nanos() };
        (t, d.with_timezone(&chrono::Local).date_naive().num_days_from_ce())
    })
}

/// Relies on `chrono::Local::now`: the number of today's local calendar day.
#[verifier::external_body]
pub(crate) fn local_today() -> (r: i32)
{
    chrono::Local::now().date_naive().num_days_from_ce()
}

/// What `chrono::NaiveDate` writes for the day numbered `day` (`%Y-%m-%d`),
/// or nothing for a day outside chrono's range.
pub uninterp spec fn date_text(day: i32) -> Option<Seq<char>>;

/// Relies on `chrono::NaiveDate::from_num_days_from_ce_opt` and its `Display`.
#[verifier::external_body]
pub(crate) fn format_day(day: i32) -> (r: Option<String>)
    ensures
        match r {
            Some(s) => date_text(day) == Some(s@),
            None => date_text(day) is None,
        },
{
    chrono::NaiveDate::from_num_days_from_ce_opt(day).map(|d| d.to_string())
}

} // verus!

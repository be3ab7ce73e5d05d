//! Calendar computations, done by `chrono`. Each result is named by a function of the
//! call's arguments; `chrono`'s formats are not restated here.
use vstd::prelude::*;
use crate::models::Timestamp;
use chrono::{Datelike, Timelike};

verus! {

/// `chrono`'s RFC 3339 rendering (`DateTime<Utc>::to_rfc3339`) of the instant
/// `(secs, nanos)`; empty for an instant `chrono` cannot represent.
pub uninterp spec fn spec_rfc3339(secs: i64, nanos: u32) -> Seq<char>;

/// `chrono`'s reading of an RFC 3339 date-time, as (seconds, nanoseconds) in UTC.
pub uninterp spec fn spec_parse_rfc3339(s: Seq<char>) -> Option<(i64, u32)>;

/// `chrono`'s reading of an RFC 2822 date-time, as (seconds, nanoseconds) in UTC.
pub uninterp spec fn spec_parse_rfc2822(s: Seq<char>) -> Option<(i64, u32)>;

/// `chrono`'s reading of a zone-less date-time with a `strftime` format, taken as UTC.
pub uninterp spec fn spec_parse_naive(s: Seq<char>, fmt: Seq<char>) -> Option<(i64, u32)>;

/// `chrono`'s reading of a date-time with a `strftime` format as month, day, second of
/// the day and nanoseconds, without a year.
pub uninterp spec fn spec_parse_month_day_time(s: Seq<char>, fmt: Seq<char>) -> Option<
    (u32, u32, u32, u32),
>;

/// The UTC instant of a calendar date and time of day, when `chrono` accepts them.
pub uninterp spec fn spec_utc_from_parts(
    year: i32,
    month: u32,
    day: u32,
    secs_of_day: u32,
    nanos: u32,
) -> Option<(i64, u32)>;

/// `chrono`'s `DateTime::<Utc>::from_timestamp_millis`.
pub uninterp spec fn spec_from_millis(ms: i64) -> Option<(i64, u32)>;

/// `chrono`'s `DateTime::<Utc>::from_timestamp` with zero nanoseconds.
pub uninterp spec fn spec_from_secs(secs: i64) -> Option<(i64, u32)>;

/// `chrono`'s `str::parse::<DateTime<Utc>>`, or the text of its parse error.
pub uninterp spec fn spec_parse_utc(s: Seq<char>) -> Result<(i64, u32), Seq<char>>;

/// `chrono`'s sum of an instant and a number of milliseconds, when both are in range.
pub uninterp spec fn spec_add_millis(secs: i64, nanos: u32, ms: i64) -> Option<(i64, u32)>;

/// `chrono`'s whole milliseconds from the first instant to the second
/// (`(b - a).num_milliseconds()`), when both are instants it can represent.
pub uninterp spec fn spec_millis_between(a_secs: i64, a_nanos: u32, b_secs: i64, b_nanos: u32) -> Option<i64>;

/// `chrono`'s `strftime` rendering of the instant `(secs, nanos)` with format `fmt`.
pub uninterp spec fn spec_format(secs: i64, nanos: u32, fmt: Seq<char>) -> Seq<char>;

/// Seconds from the Unix epoch well inside `chrono`'s range (years -262143 to
/// 262142): within 8 * 10^12 seconds either way.
pub open spec fn in_range_secs(s: int) -> bool {
    -8_000_000_000_000 <= s <= 8_000_000_000_000
}

/// An instant in nanoseconds from the Unix epoch.
pub open spec fn total_nanos(secs: int, nanos: int) -> int {
    secs * 1_000_000_000 + nanos
}

/// Integer division truncating toward zero, by a positive divisor.
pub open spec fn trunc_div(x: int, d: int) -> int {
    if x >= 0 {
        x / d
    } else {
        -((-x) / d)
    }
}

pub open spec fn ts_of(p: Option<(i64, u32)>) -> Option<Timestamp> {
    match p {
        Some((secs, nanos)) => Some(Timestamp { secs, nanos }),
        None => None,
    }
}

/// Renders an instant with `DateTime<Utc>::to_rfc3339` (after
/// `DateTime::from_timestamp`); an instant chrono cannot represent gives "".
#[verifier::external_body]
pub(crate) fn to_rfc3339(ts: Timestamp) -> (r: String)
    ensures
        r@ == spec_rfc3339(ts.secs, ts.nanos),
{
    match chrono::DateTime::from_timestamp(ts.secs, ts.nanos) {
        Some(d) => d.to_rfc3339(),
        None => String::new(),
    }
}

/// `chrono::DateTime::parse_from_rfc3339`, converted to UTC.
#[verifier::external_body]
pub(crate) fn parse_rfc3339(s: &str) -> (r: Option<Timestamp>)
    ensures
        r == ts_of(spec_parse_rfc3339(s@)),
{
    chrono::DateTime::parse_from_rfc3339(s).ok().map(
        |d| Timestamp { secs: d.timestamp(), nanos: d.timestamp_subsec_nanos() },
    )
}

/// `chrono::DateTime::parse_from_rfc2822`, converted to UTC.
#[verifier::external_body]
pub(crate) fn parse_rfc2822(s: &str) -> (r: Option<Timestamp>)
    ensures
        r == ts_of(spec_parse_rfc2822(s@)),
{
    chrono::DateTime::parse_from_rfc2822(s).ok().map(
        |d| Timestamp { secs: d.timestamp(), nanos: d.timestamp_subsec_nanos() },
    )
}

/// `chrono::NaiveDateTime::parse_from_str`, read as UTC (`and_utc`).
#[verifier::external_body]
pub(crate) fn parse_naive(s: &str, fmt: &str) -> (r: Option<Timestamp>)
    ensures
        r == ts_of(spec_parse_naive(s@, fmt@)),
{
    chrono::NaiveDateTime::parse_from_str(s, fmt).ok().map(
        |n| {
            let d = n.and_utc();
            Timestamp { secs: d.timestamp(), nanos: d.timestamp_subsec_nanos() }
        },
    )
}

/// `chrono::NaiveDateTime::parse_from_str`, giving month, day, second of the day and
/// nanoseconds of the result.
#[verifier::external_body]
pub(crate) fn parse_month_day_time(s: &str, fmt: &str) -> (r: Option<(u32, u32, u32, u32)>)
    ensures
        r == spec_parse_month_day_time(s@, fmt@),
{
    chrono::NaiveDateTime::parse_from_str(s, fmt).ok().map(
        |n| (n.month(), n.day(), n.num_seconds_from_midnight(), n.nanosecond()),
    )
}

/// `chrono::NaiveDate::from_ymd_opt` with a time of day, read as UTC.
#[verifier::external_body]
pub(crate) fn utc_from_parts(year: i32, month: u32, day: u32, secs_of_day: u32, nanos: u32) -> (r: Option<
    Timestamp,
>)
    ensures
        r == ts_of(spec_utc_from_parts(year, month, day, secs_of_day, nanos)),
{
    let t = chrono::NaiveTime::from_num_seconds_from_midnight_opt(secs_of_day, nanos)?;
    let d = chrono::NaiveDate::from_ymd_opt(year, month, day)?.and_time(t).and_utc();
    Some(Timestamp { secs: d.timestamp(), nanos: d.timestamp_subsec_nanos() })
}

/// `chrono::DateTime::from_timestamp_millis`: the instant `ms.div_euclid(1000)`
/// seconds and `ms.rem_euclid(1000)` milliseconds after the epoch, `None` only out of
/// `chrono`'s range.
#[verifier::external_body]
pub(crate) fn from_millis(ms: i64) -> (r: Option<Timestamp>)
    ensures
        r == ts_of(spec_from_millis(ms)),
        match r {
            Some(t) => t.secs == ms / 1000 && t.nanos == (ms % 1000) * 1_000_000,
            None => !in_range_secs(ms / 1000),
        },
{
    chrono::DateTime::from_timestamp_millis(ms).map(
        |d| Timestamp { secs: d.timestamp(), nanos: d.timestamp_subsec_nanos() },
    )
}

/// `chrono::DateTime::from_timestamp` with zero nanoseconds: that instant, `None`
/// only out of `chrono`'s range.
#[verifier::external_body]
pub(crate) fn from_secs(secs: i64) -> (r: Option<Timestamp>)
    ensures
        r == ts_of(spec_from_secs(secs)),
        match r {
            Some(t) => t.secs == secs && t.nanos == 0,
            None => !in_range_secs(secs as int),
        },
{
    chrono::DateTime::from_timestamp(secs, 0).map(
        |d| Timestamp { secs: d.timestamp(), nanos: d.timestamp_subsec_nanos() },
    )
}

/// `str::parse::<chrono::DateTime<Utc>>`, with the text of the parse error.
#[verifier::external_body]
pub(crate) fn parse_utc(s: &str) -> (r: Result<Timestamp, String>)
    ensures
        match r {
            Ok(t) => spec_parse_utc(s@) == Ok::<(i64, u32), Seq<char>>((t.secs, t.nanos)),
            Err(e) => spec_parse_utc(s@) == Err::<(i64, u32), Seq<char>>(e@),
        },
{
    match s.parse::<chrono::DateTime<chrono::Utc>>() {
        Ok(d) => Ok(Timestamp { secs: d.timestamp(), nanos: d.timestamp_subsec_nanos() }),
        Err(e) => Err(e.to_string()),
    }
}

/// `DateTime::checked_add_signed` with `TimeDelta::try_milliseconds(ms)`: for an
/// instant that is not a leap second, the instant `ms` milliseconds later, `None` only
/// when `ms` is `i64::MIN` or an instant is out of `chrono`'s range.
#[verifier::external_body]
pub(crate) fn add_millis(ts: Timestamp, ms: i64) -> (r: Option<Timestamp>)
    ensures
        r == ts_of(spec_add_millis(ts.secs, ts.nanos, ms)),
        ts.nanos < 1_000_000_000 ==> match r {
            Some(t) => t.nanos < 1_000_000_000 && total_nanos(t.secs as int, t.nanos as int)
                == total_nanos(ts.secs as int, ts.nanos as int) + ms * 1_000_000,
            None => ms == i64::MIN || !in_range_secs(ts.secs as int) || !in_range_secs(
                (total_nanos(ts.secs as int, ts.nanos as int) + ms * 1_000_000) / 1_000_000_000,
            ),
        },
{
    let d = chrono::DateTime::from_timestamp(ts.secs, ts.nanos)?;
    let e = d.checked_add_signed(chrono::TimeDelta::try_milliseconds(ms)?)?;
    Some(Timestamp { secs: e.timestamp(), nanos: e.timestamp_subsec_nanos() })
}

/// `(b - a).num_milliseconds()` of two `chrono` instants: for instants that are not
/// leap seconds, the whole milliseconds from `a` to `b`, truncated toward zero; `None`
/// only when an instant is out of `chrono`'s range.
#[verifier::external_body]
pub(crate) fn millis_between(a: Timestamp, b: Timestamp) -> (r: Option<i64>)
    ensures
        r == spec_millis_between(a.secs, a.nanos, b.secs, b.nanos),
        a.nanos < 1_000_000_000 && b.nanos < 1_000_000_000 ==> match r {
            Some(d) => d == trunc_div(
                total_nanos(b.secs as int, b.nanos as int) - total_nanos(a.secs as int, a.nanos as int),
                1_000_000,
            ),
            None => !in_range_secs(a.secs as int) || !in_range_secs(b.secs as int),
        },
{
    let da = chrono::DateTime::from_timestamp(a.secs, a.nanos)?;
    let db = chrono::DateTime::from_timestamp(b.secs, b.nanos)?;
    Some((db - da).num_milliseconds())
}

/// The `strftime` formats the library renders instants with.
pub open spec fn known_format(fmt: Seq<char>) -> bool {
    fmt == "%Y-%m-%d"@ || fmt == "%Y-%m-%dT%H:%M:%S%.3fZ"@ || fmt == "%b %d %H:%M:%S"@ || fmt
        == "%d/%b/%Y:%H:%M:%S %z"@
}

/// `DateTime<Utc>::format(fmt)` of an instant (after `DateTime::from_timestamp`); an
/// instant chrono cannot represent gives "". (Rendering a malformed format fails, so
/// only the library's own formats are passed.)
#[verifier::external_body]
pub(crate) fn format_ts(ts: Timestamp, fmt: &str) -> (r: String)
    requires
        known_format(fmt@),
    ensures
        r@ == spec_format(ts.secs, ts.nanos, fmt@),
{
    match chrono::DateTime::from_timestamp(ts.secs, ts.nanos) {
        Some(d) => d.format(fmt).to_string(),
        None => String::new(),
    }
}

/// The current year on the local clock (`chrono::Local::now().year()`); it depends on
/// the time of the call, so nothing is stated of it. Like `Utc::now`, it panics when
/// the system clock is set before 1970, which no input can rule out.
#[verifier::external_body]
pub(crate) fn local_year() -> (r: i32) {
    chrono::Local::now().year()
}

/// The current instant (`chrono::Utc::now()`); it depends on the time of the call. Its
/// seconds come from the system clock after the Unix epoch, within `chrono`'s range
/// (years up to 262142), and its nanoseconds from `Duration::subsec_nanos`. `Utc::now`
/// panics when the system clock is set before 1970, which no input can rule out.
#[verifier::external_body]
pub(crate) fn now() -> (r: Timestamp)
    ensures
        0 <= r.secs <= 10_000_000_000_000,
        r.nanos < 1_000_000_000,
{
    let d = chrono::Utc::now();
    Timestamp { secs: d.timestamp(), nanos: d.timestamp_subsec_nanos() }
}

} // verus!

//! Capture time: epoch seconds from the system clock, and the calendar date
//! of a timestamp at a fixed UTC offset (used to partition saved images by
//! day).

use chrono::Datelike;
use chrono::Offset;
use chrono::TimeZone;
use vstd::prelude::*;

verus! {

/// The calendar date of an epoch-seconds timestamp at a fixed UTC offset,
/// as `(year, month, day)`; `None` when the offset or the timestamp lies
/// outside the calendar's supported range. A fixed function of the two
/// arguments, computed by the `chrono` crate.
pub uninterp spec fn ymd_of(ts: int, offset_seconds: int) -> Option<(int, int, int)>;

/// The calendar date of `timestamp` at the given UTC offset.
#[derive(Clone, Copy, PartialEq, Eq, Structural, Debug)]
pub struct DateParts {
    pub year: i32,
    pub month: u32,
    pub day: u32,
}

/// Relies on `chrono`'s `FixedOffset::east_opt`, `TimeZone::timestamp_opt`
/// and the `Datelike` accessors: the date parts depend on the timestamp and
/// the offset alone.
#[verifier::external_body]
fn chrono_ymd(ts: i64, offset_seconds: i32) -> (r: Option<(i32, u32, u32)>)
    ensures
        r is Some <==> ymd_of(ts as int, offset_seconds as int) is Some,
        r matches Some(p) ==> ymd_of(ts as int, offset_seconds as int) == Some(
            (p.0 as int, p.1 as int, p.2 as int),
        ),
{
    let tz = chrono::FixedOffset::east_opt(offset_seconds)?;
    let utc = match chrono::Utc.timestamp_opt(ts, 0) {
        chrono::LocalResult::Single(dt) => dt,
        _ => return None,
    };
    let local = utc.with_timezone(&tz);
    Some((local.year(), local.month(), local.day()))
}

/// Relies on `chrono`'s `Utc::now`: the current time in epoch seconds.
/// Nothing is promised of the value.
#[verifier::external_body]
pub fn get_current_timestamp() -> i64 {
    chrono::Utc::now().timestamp()
}

/// Relies on `chrono`'s `Local::now` and `Offset::fix`: the local UTC
/// offset in seconds. A `FixedOffset` always lies strictly within one day.
#[verifier::external_body]
fn local_offset_seconds() -> (r: i32)
    ensures
        -86400 < r < 86400,
{
    chrono::Local::now().offset().fix().local_minus_utc()
}

/// The calendar date of `timestamp` at a fixed UTC offset given in seconds;
/// `None` when either lies outside the calendar's supported range.
pub fn timestamp_to_datetime(timestamp: i64, offset_seconds: i32) -> (r: Option<DateParts>)
    ensures
        r is Some <==> ymd_of(timestamp as int, offset_seconds as int) is Some,
        r matches Some(d) ==> ymd_of(timestamp as int, offset_seconds as int) == Some(
            (d.year as int, d.month as int, d.day as int),
        ),
{
    match chrono_ymd(timestamp, offset_seconds) {
        Some(p) => Some(DateParts { year: p.0, month: p.1, day: p.2 }),
        None => None,
    }
}

/// A capture instant: epoch seconds plus its local calendar date.
#[derive(Clone, Copy, PartialEq, Eq, Structural, Debug)]
pub struct CaptureMoment {
    pub timestamp: i64,
    pub date: DateParts,
}

/// The date parts belong to the timestamp at some in-range UTC offset.
pub open spec fn moment_consistent(m: CaptureMoment) -> bool {
    exists|off: int|
        -86400 < off < 86400 && #[trigger] ymd_of(m.timestamp as int, off) == Some(
            (m.date.year as int, m.date.month as int, m.date.day as int),
        )
}

/// The current instant with its local calendar date, read from the system
/// clock and the local time zone; `None` only if the clock reports a time
/// outside the calendar's supported range. Clock and time zone are
/// environment data, so nothing is promised of their values, only that the
/// date parts belong to the timestamp at the local offset.
pub fn get_current_date_time() -> (r: Option<CaptureMoment>)
    ensures
        r matches Some(m) ==> moment_consistent(m),
{
    let ts = get_current_timestamp();
    let off = local_offset_seconds();
    match timestamp_to_datetime(ts, off) {
        Some(d) => {
            let m = CaptureMoment { timestamp: ts, date: d };
            proof {
                assert(ymd_of(m.timestamp as int, off as int) == Some(
                    (m.date.year as int, m.date.month as int, m.date.day as int),
                ));
                assert(moment_consistent(m));
            }
            Some(m)
        },
        None => None,
    }
}

} // verus!

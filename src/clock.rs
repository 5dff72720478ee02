use vstd::prelude::*;

use chrono::{DateTime, Datelike, Local, NaiveDate, TimeZone};

use crate::models::DatabaseError;
use crate::time::{valid_instant, valid_local, SECONDS_PER_DAY};

verus! {

/// Day numbers (days since 1970-01-01) that the calendar library can name.
pub const MAX_DAY: i64 = 60_000_000;

/// How a local wall-clock reading maps to UTC: to no instant (a gap), to exactly one,
/// or to two (a fold, earliest first).
#[derive(Clone, Copy, Debug, PartialEq, Eq, Structural)]
pub enum LocalMapping {
    Gap,
    Single(i64),
    Fold(i64, i64),
}

/// The ISO 8601 (year, week number) of a day.
pub uninterp spec fn iso_week_of(day: int) -> (int, int);

/// Relies on chrono's `TimeZone::from_utc_datetime` for `Local`, followed by
/// `naive_local`: the local reading of a UTC instant. It depends on the machine's time
/// zone, so nothing names it; chrono's offsets (`FixedOffset`) are always less than a
/// day.
#[verifier::external_body]
pub fn to_local(utc: i64) -> (r: i64)
    requires
        valid_instant(utc as int),
    ensures
        utc - SECONDS_PER_DAY < r < utc + SECONDS_PER_DAY,
{
    let naive = DateTime::from_timestamp(utc, 0).unwrap().naive_utc();
    Local.from_utc_datetime(&naive).naive_local().and_utc().timestamp()
}

/// Relies on chrono's `TimeZone::from_local_datetime` for `Local`: the UTC instants that
/// a local reading stands for, in the machine's time zone. Each lies less than a day
/// from the reading.
#[verifier::external_body]
fn local_mapping(local: i64) -> (r: LocalMapping)
    requires
        valid_local(local as int),
    ensures
        r matches LocalMapping::Single(u) ==> local - SECONDS_PER_DAY < u < local
            + SECONDS_PER_DAY,
{
    let naive = DateTime::from_timestamp(local, 0).unwrap().naive_utc();
    match Local.from_local_datetime(&naive) {
        chrono::LocalResult::None => LocalMapping::Gap,
        chrono::LocalResult::Single(t) => LocalMapping::Single(t.timestamp()),
        chrono::LocalResult::Ambiguous(a, b) => LocalMapping::Fold(a.timestamp(), b.timestamp()),
    }
}

/// Relies on chrono's `NaiveDate::from_epoch_days` and `Datelike::iso_week`: the ISO
/// year and week number of a day.
#[verifier::external_body]
pub(crate) fn iso_week_label(day: i64) -> (r: (i32, u32))
    requires
        -MAX_DAY <= day <= MAX_DAY,
    ensures
        (r.0 as int, r.1 as int) == iso_week_of(day as int),
{
    let w = NaiveDate::from_epoch_days(day as i32).unwrap().iso_week();
    (w.year(), w.week())
}

/// The one UTC instant that a mapping gives, or `BadTime` when it gives none or two.
pub fn single_instant(mapping: LocalMapping) -> (r: Result<i64, DatabaseError>)
    ensures
        r == match mapping {
            LocalMapping::Single(u) => Ok::<i64, DatabaseError>(u),
            _ => Err(DatabaseError::BadTime),
        },
{
    match mapping {
        LocalMapping::Single(u) => Ok(u),
        LocalMapping::Gap => Err(DatabaseError::BadTime),
        LocalMapping::Fold(_, _) => Err(DatabaseError::BadTime),
    }
}

/// The UTC instant of a local wall-clock reading. A reading that the time zone skips, or
/// repeats, is refused with `BadTime` rather than resolved to one of its instants.
pub fn to_utc(local: i64) -> (r: Result<i64, DatabaseError>)
    requires
        valid_local(local as int),
    ensures
        r matches Err(e) ==> e == DatabaseError::BadTime,
        r matches Ok(u) ==> local - SECONDS_PER_DAY < u < local + SECONDS_PER_DAY,
{
    single_instant(local_mapping(local))
}

} // verus!

//! Instants, held as nanoseconds since the Unix epoch.

use vstd::prelude::*;
use crate::date::{Date, DateView, is_valid_ymd};

verus! {

/// Nanoseconds per civil day.
pub open spec fn nanos_per_day() -> int {
    86_400_000_000_000
}

/// The instants that jiff can represent: from the start of -9999-01-02 (UTC)
/// to the end of 9999-12-30 (UTC), leaving room for any time zone offset.
pub open spec fn timestamp_in_range(nanos: int) -> bool {
    -377_705_023_201_000_000_000 <= nanos <= 253_402_207_200_999_999_999
}

/// The UTC day (counted from 1970-01-01) on which an instant falls.
pub open spec fn utc_day_number(nanos: int) -> int {
    nanos / nanos_per_day()
}

/// The current instant, from the system clock through jiff.
/// Nothing is claimed of the value but that jiff can represent it.
#[verifier::external_body]
pub(crate) fn now_nanos() -> (t: i128)
    ensures
        timestamp_in_range(t as int),
{
    jiff::Timestamp::now().as_nanosecond()
}

/// The UTC calendar date of an instant, through jiff.
/// Claims that the date is valid and that the instant falls within it.
#[verifier::external_body]
fn jiff_utc_date(nanos: i128) -> (ymd: (i16, i8, i8))
    requires
        timestamp_in_range(nanos as int),
    ensures
        is_valid_ymd(ymd.0 as int, ymd.1 as int, ymd.2 as int),
        (DateView { year: ymd.0 as int, month: ymd.1 as int, day: ymd.2 as int }).day_number()
            == utc_day_number(nanos as int),
{
    let date = jiff::Timestamp::from_nanosecond(nanos).unwrap().to_zoned(jiff::tz::TimeZone::UTC).date();
    (date.year(), date.month(), date.day())
}

/// The UTC calendar date on which an instant falls.
pub fn utc_date(nanos: i128) -> (d: Date)
    requires
        timestamp_in_range(nanos as int),
    ensures
        d@.is_valid(),
        d@.day_number() == utc_day_number(nanos as int),
{
    let (y, m, dd) = jiff_utc_date(nanos);
    Date::new(y, m, dd).unwrap()
}

/// The local day (counted from 1970-01-01) on which an instant falls on a
/// clock `offset` seconds ahead of UTC.
pub open spec fn local_day_number(nanos: int, offset: int) -> int {
    (nanos / 1_000_000_000 + offset) / 86400
}

/// `d` is the date of the instant `nanos` on some local clock: the instant
/// moved by an offset of at most 25:59:59 falls on `d`.
pub open spec fn is_local_date_of(d: DateView, nanos: int) -> bool {
    exists|offset: int| -93599 <= offset <= 93599 && d.day_number() == #[trigger] local_day_number(nanos, offset)
}

/// The calendar date of an instant in the system's time zone, through jiff's
/// `Timestamp::to_zoned` with `TimeZone::system`. Claims that the date is
/// valid and that it is the instant's date under some offset within
/// ±25:59:59 (the bound of jiff's `Offset`); which offset depends on the
/// system's time zone database and is not stated.
#[verifier::external_body]
fn jiff_local_date(nanos: i128) -> (ymd: (i16, i8, i8))
    requires
        timestamp_in_range(nanos as int),
    ensures
        is_valid_ymd(ymd.0 as int, ymd.1 as int, ymd.2 as int),
        is_local_date_of(DateView { year: ymd.0 as int, month: ymd.1 as int, day: ymd.2 as int }, nanos as int),
{
    let date = jiff::Timestamp::from_nanosecond(nanos).unwrap().to_zoned(jiff::tz::TimeZone::system()).date();
    (date.year(), date.month(), date.day())
}

/// The calendar date of an instant in the system's time zone.
pub fn local_date(nanos: i128) -> (d: Date)
    requires
        timestamp_in_range(nanos as int),
    ensures
        d@.is_valid(),
        is_local_date_of(d@, nanos as int),
{
    let (y, m, dd) = jiff_local_date(nanos);
    Date::new(y, m, dd).unwrap()
}

/// Today's date in the system's time zone, from jiff's `Zoned::now`.
/// Nothing is claimed of it but that it is a valid date.
#[verifier::external_body]
fn jiff_local_today() -> (ymd: (i16, i8, i8))
    ensures
        is_valid_ymd(ymd.0 as int, ymd.1 as int, ymd.2 as int),
{
    let date = jiff::Zoned::now().date();
    (date.year(), date.month(), date.day())
}

/// Today's date in the system's time zone.
pub fn local_today() -> (today: Date)
    ensures
        today@.is_valid(),
{
    let (y, m, d) = jiff_local_today();
    Date::new(y, m, d).unwrap()
}

} // verus!

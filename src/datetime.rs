use chrono::{DateTime, Datelike, Local, NaiveDate, TimeZone, Timelike, Utc};
use vstd::prelude::*;

use crate::error::ReportError;

verus! {

/// Length of a day, in seconds.
pub const SECONDS_PER_DAY: i64 = 86400;

/// A calendar date with a wall-clock time, read in the viewer's time zone.
#[derive(Debug, Clone, Copy, PartialEq, Eq, Structural)]
pub struct CivilDateTime {
    pub year: i32,
    pub month: u32,
    pub day: u32,
    pub hour: u32,
    pub minute: u32,
    pub second: u32,
}

/// A calendar date in the viewer's time zone.
#[derive(Debug, Clone, Copy, PartialEq, Eq, Structural)]
pub struct CalendarDate {
    pub year: i32,
    pub month: u32,
    pub day: u32,
}

impl CivilDateTime {
    /// Each field lies in the range of its calendar or clock unit.
    pub open spec fn wf(self) -> bool {
        &&& 1 <= self.month <= 12
        &&& 1 <= self.day <= 31
        &&& self.hour < 24
        &&& self.minute < 60
        &&& self.second < 60
    }

    /// Midnight at the start of the given date.
    pub open spec fn spec_midnight(year: i32, month: u32, day: u32) -> CivilDateTime {
        CivilDateTime { year, month, day, hour: 0, minute: 0, second: 0 }
    }

    /// Midnight at the start of the given date.
    pub fn midnight(year: i32, month: u32, day: u32) -> (r: CivilDateTime)
        ensures
            r == Self::spec_midnight(year, month, day),
    {
        CivilDateTime { year, month, day, hour: 0, minute: 0, second: 0 }
    }
}

/// The year, month and day that `%Y-%m-%d` reads from a text, if it reads one.
pub uninterp spec fn parsed_calendar_date(s: Seq<char>) -> Option<(i32, u32, u32)>;

/// Relies on chrono's `Utc::now`: the current instant, in whole seconds since
/// the Unix epoch. Nothing is known of the value.
#[verifier::external_body]
pub fn now() -> (r: i64) {
    Utc::now().timestamp()
}

/// Relies on chrono's `DateTime::from_timestamp`, `Local.offset_from_utc_datetime`
/// and `NaiveDateTime::checked_add_offset`: the local calendar date and clock
/// time of an instant given in seconds since the Unix epoch, or `None` where
/// chrono cannot represent the instant or its local time. The ranges of the
/// fields are those that chrono's `Datelike` and `Timelike` document.
#[verifier::external_body]
pub(crate) fn local_civil_of(instant: i64) -> (r: Option<CivilDateTime>)
    ensures
        r matches Some(c) ==> c.wf(),
{
    let utc = DateTime::from_timestamp(instant, 0)?.naive_utc();
    let local = utc.checked_add_offset(Local.offset_from_utc_datetime(&utc))?;
    Some(
        CivilDateTime {
            year: local.year(),
            month: local.month(),
            day: local.day(),
            hour: local.hour(),
            minute: local.minute(),
            second: local.second(),
        },
    )
}

/// Relies on chrono's `Local.from_local_datetime(..).single()`: the instant,
/// in seconds since the Unix epoch, at which the local clock shows the given
/// date and time, or `None` where the fields name no valid date and time or the
/// local time zone maps them to no instant or to two.
#[verifier::external_body]
fn instant_of_local(c: CivilDateTime) -> (r: Option<i64>) {
    let naive = NaiveDate::from_ymd_opt(c.year, c.month, c.day)?.and_hms_opt(
        c.hour,
        c.minute,
        c.second,
    )?;
    match Local.from_local_datetime(&naive).single() {
        Some(local) => Some(local.timestamp()),
        None => None,
    }
}

/// Relies on chrono's `NaiveDate::parse_from_str` with the format `%Y-%m-%d`.
#[verifier::external_body]
fn parse_calendar_date(s: &str) -> (r: Option<(i32, u32, u32)>)
    ensures
        r == parsed_calendar_date(s@),
{
    match NaiveDate::parse_from_str(s, "%Y-%m-%d") {
        Ok(date) => Some((date.year(), date.month(), date.day())),
        Err(_) => None,
    }
}

/// The same date at midnight.
pub open spec fn spec_start_of_day(c: CivilDateTime) -> CivilDateTime {
    CivilDateTime::spec_midnight(c.year, c.month, c.day)
}

/// The same date at midnight.
pub fn start_of_day(c: CivilDateTime) -> (r: CivilDateTime)
    ensures
        r == spec_start_of_day(c),
{
    CivilDateTime::midnight(c.year, c.month, c.day)
}

/// The month after `(year, month)`; December is followed by January of the
/// next year.
pub open spec fn spec_next_month(year: i32, month: u32) -> Option<(i32, u32)> {
    if month == 12 {
        if year < i32::MAX {
            Some(((year + 1) as i32, 1u32))
        } else {
            None
        }
    } else {
        Some((year, (month + 1) as u32))
    }
}

/// The month after `(year, month)`, or `None` where its year does not fit.
pub fn next_month(year: i32, month: u32) -> (r: Option<(i32, u32)>)
    requires
        1 <= month <= 12,
    ensures
        r == spec_next_month(year, month),
        month == 12 && r is Some ==> r == Some(((year + 1) as i32, 1u32)),
        month < 12 ==> r == Some((year, (month + 1) as u32)),
{
    if month == 12 {
        if year < i32::MAX {
            Some((year + 1, 1))
        } else {
            None
        }
    } else {
        Some((year, month + 1))
    }
}

/// Midnight on the first day of the month of `c`, and midnight on the first
/// day of the month after.
pub open spec fn spec_month_bounds(c: CivilDateTime) -> Option<(CivilDateTime, CivilDateTime)> {
    match spec_next_month(c.year, c.month) {
        Some((y, m)) => Some(
            (CivilDateTime::spec_midnight(c.year, c.month, 1), CivilDateTime::spec_midnight(y, m, 1)),
        ),
        None => None,
    }
}

/// Midnight on the first day of the month of `c`, and midnight on the first
/// day of the month after; `None` where the next month's year does not fit.
pub fn month_bounds(c: CivilDateTime) -> (r: Option<(CivilDateTime, CivilDateTime)>)
    requires
        c.wf(),
    ensures
        r == spec_month_bounds(c),
{
    match next_month(c.year, c.month) {
        Some((y, m)) => Some((CivilDateTime::midnight(c.year, c.month, 1), CivilDateTime::midnight(y, m, 1))),
        None => None,
    }
}

/// The local day that holds `instant`: the instant of its local midnight and
/// the instant one day of 86400 seconds later.
///
/// Fails with `TimeConversionError` where the local midnight is no single
/// instant or the end does not fit.
pub fn calc_day_range(instant: i64) -> (r: Result<(i64, i64), ReportError>)
    ensures
        r matches Ok((start, end)) ==> end == start + SECONDS_PER_DAY,
        r matches Err(e) ==> e == ReportError::TimeConversionError,
{
    let local = match local_civil_of(instant) {
        Some(c) => c,
        None => return Err(ReportError::TimeConversionError),
    };
    let start = match instant_of_local(start_of_day(local)) {
        Some(s) => s,
        None => return Err(ReportError::TimeConversionError),
    };
    match start.checked_add(SECONDS_PER_DAY) {
        Some(end) => Ok((start, end)),
        None => Err(ReportError::TimeConversionError),
    }
}

/// The local month that holds `instant`: the instants of local midnight on
/// its first day and on the first day of the month after.
///
/// Fails with `TimeConversionError` where either bound is no single instant.
pub fn calc_start_and_end_date(instant: i64) -> (r: Result<(i64, i64), ReportError>)
    ensures
        r matches Err(e) ==> e == ReportError::TimeConversionError,
{
    let local = match local_civil_of(instant) {
        Some(c) => c,
        None => return Err(ReportError::TimeConversionError),
    };
    let (first, next) = match month_bounds(local) {
        Some(bounds) => bounds,
        None => return Err(ReportError::TimeConversionError),
    };
    let start = match instant_of_local(first) {
        Some(s) => s,
        None => return Err(ReportError::TimeConversionError),
    };
    let end = match instant_of_local(next) {
        Some(e) => e,
        None => return Err(ReportError::TimeConversionError),
    };
    Ok((start, end))
}

/// The local calendar date of an instant; fails with `TimeConversionError`
/// where the instant cannot be represented.
pub fn local_date_of(instant: i64) -> (r: Result<CalendarDate, ReportError>)
    ensures
        r matches Ok(d) ==> 1 <= d.month <= 12 && 1 <= d.day <= 31,
        r matches Err(e) ==> e == ReportError::TimeConversionError,
{
    match local_civil_of(instant) {
        Some(c) => Ok(CalendarDate { year: c.year, month: c.month, day: c.day }),
        None => Err(ReportError::TimeConversionError),
    }
}

/// The instant of local midnight at the start of a date written `YYYY-MM-DD`.
///
/// Fails with `InvalidDateFormat` exactly where the text reads as no date, and
/// otherwise only with `TimeConversionError`.
pub fn parse_date(s: &str) -> (r: Result<i64, ReportError>)
    ensures
        r == Err::<i64, ReportError>(ReportError::InvalidDateFormat) <==> parsed_calendar_date(
            s@,
        ) is None,
        r matches Err(e) ==> e == ReportError::InvalidDateFormat || e
            == ReportError::TimeConversionError,
{
    match parse_calendar_date(s) {
        Some((y, m, d)) => match instant_of_local(CivilDateTime::midnight(y, m, d)) {
            Some(t) => Ok(t),
            None => Err(ReportError::TimeConversionError),
        },
        None => Err(ReportError::InvalidDateFormat),
    }
}

/// The instant of local midnight on the first day of a month written
/// `YYYY-MM`.
///
/// Fails with `InvalidDateFormat` exactly where the text followed by `-01`
/// reads as no date, and otherwise only with `TimeConversionError`.
pub fn parse_month(s: &str) -> (r: Result<i64, ReportError>)
    ensures
        r == Err::<i64, ReportError>(ReportError::InvalidDateFormat) <==> parsed_calendar_date(
            s@ + "-01"@,
        ) is None,
        r matches Err(e) ==> e == ReportError::InvalidDateFormat || e
            == ReportError::TimeConversionError,
{
    let mut target = String::from_str(s);
    target.append("-01");
    parse_date(target.as_str())
}

} // verus!

verus! {

/// The month that follows a December is the January of the next year.
pub proof fn lemma_december_rolls_over(c: CivilDateTime)
    requires
        c.wf(),
        c.month == 12,
        c.year < i32::MAX,
    ensures
        spec_month_bounds(c) == Some(
            (
                CivilDateTime::spec_midnight(c.year, 12, 1),
                CivilDateTime::spec_midnight((c.year + 1) as i32, 1, 1),
            ),
        ),
{
}

} // verus!

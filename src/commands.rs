use vstd::prelude::*;

use crate::datetime::{
    calc_day_range, calc_start_and_end_date, local_date_of, now, CalendarDate, SECONDS_PER_DAY,
};
use crate::error::ReportError;
use crate::time_entry::{entries_view, TimeEntry};
use crate::toggl::{starts_within, TogglRepository};
use crate::totals::{
    calc_daily_durations, calc_project_tag_duration, date_before, day_dates, entries_on,
    spec_totals, DayTotals, DurationTotals, TotalsMap,
};

verus! {

/// A source of the current instant, in seconds since the Unix epoch.
pub trait Clock {
    /// The current instant.
    fn now(&self) -> i64;
}

/// The clock of the system.
pub struct SystemClock;

impl Clock for SystemClock {
    fn now(&self) -> i64 {
        now()
    }
}

/// The instant a command reports on: the one given, else the current one.
pub open spec fn spec_reference_instant(given: Option<i64>, now: i64) -> i64 {
    match given {
        Some(t) => t,
        None => now,
    }
}

/// The instant a command reports on: the one given, else the current one.
pub fn reference_instant(given: Option<i64>, now: i64) -> (r: i64)
    ensures
        r == spec_reference_instant(given, now),
{
    match given {
        Some(t) => t,
        None => now,
    }
}

/// The local day to list: the one that holds `date`, or `now` where `date` is
/// absent, from its local midnight to 24 hours later.
///
/// Fails only with `TimeConversionError`, where that day has no single local
/// midnight or its end does not fit.
pub fn daily_range(date: Option<i64>, now: i64) -> (r: Result<(i64, i64), ReportError>)
    ensures
        r matches Ok((s, e)) ==> e == s + SECONDS_PER_DAY,
        r matches Err(x) ==> x == ReportError::TimeConversionError,
{
    calc_day_range(reference_instant(date, now))
}

/// The local month to summarise: the one that holds `month`, or `now` where
/// `month` is absent, from local midnight on its first day to local midnight
/// on the first day of the month after.
///
/// Fails only with `TimeConversionError`, where a bound is no single instant.
pub fn monthly_range(month: Option<i64>, now: i64) -> (r: Result<(i64, i64), ReportError>)
    ensures
        r matches Err(x) ==> x == ReportError::TimeConversionError,
{
    calc_start_and_end_date(reference_instant(month, now))
}

/// All entries start within one span of 24 hours from some instant.
pub open spec fn within_one_day(entries: Seq<TimeEntry>) -> bool {
    exists|s: int, e: int| e == s + SECONDS_PER_DAY && #[trigger] starts_within(entries, s, e)
}

/// The arguments of the daily listing.
#[derive(Debug, Clone, Copy, PartialEq, Eq)]
pub struct DailyArgs {
    /// An instant within the day to list; the current day where absent.
    pub date: Option<i64>,
}

/// Lists the entries of one local day.
pub struct DailyCommand<'a, T: TogglRepository, C: Clock> {
    toggl_client: &'a T,
    clock: &'a C,
}

impl<'a, T: TogglRepository, C: Clock> DailyCommand<'a, T, C> {
    /// A command that reads from `toggl_client` and takes the current day from
    /// `clock`.
    pub fn new(toggl_client: &'a T, clock: &'a C) -> (r: Self)
        ensures
            r.toggl_client() == toggl_client,
            r.clock() == clock,
    {
        Self { toggl_client, clock }
    }

    /// The repository read from.
    pub closed spec fn toggl_client(&self) -> &'a T {
        self.toggl_client
    }

    /// The clock that gives the current day.
    pub closed spec fn clock(&self) -> &'a C {
        self.clock
    }

    /// The entries of the local day that holds `daily.date`, or the current
    /// instant where it is absent: from local midnight to 24 hours later.
    pub fn run(&self, daily: DailyArgs) -> (r: Result<Vec<TimeEntry>, ReportError>)
        ensures
            r matches Ok(v) ==> within_one_day(v@),
    {
        let now = self.clock.now();
        match daily_range(daily.date, now) {
            Ok((start_at, end_at)) => {
                let r = self.toggl_client.read_time_entries(start_at, end_at);
                proof {
                    if r is Ok {
                        assert(starts_within(r->Ok_0@, start_at as int, end_at as int));
                        assert(end_at == start_at + SECONDS_PER_DAY);
                    }
                }
                r
            },
            Err(e) => Err(e),
        }
    }
}

/// The arguments of the monthly summary.
#[derive(Debug, Clone, Copy, PartialEq, Eq)]
pub struct MonthlyArgs {
    /// An instant within the month to summarise; the current month where
    /// absent.
    pub month: Option<i64>,
    /// Whether to break the totals down by day.
    pub daily: bool,
}

impl MonthlyArgs {
    /// Whether to break the totals down by day.
    pub fn get_daily(&self) -> (r: bool)
        ensures
            r == self.daily,
    {
        self.daily
    }
}

/// `totals` are the totals, by project and tag, of some entries that all
/// start within one range of instants.
pub open spec fn monthly_totals_of(totals: TotalsMap) -> bool {
    exists|entries: Seq<TimeEntry>, s: int, e: int|
        #![trigger starts_within(entries, s, e), spec_totals(entries_view(entries))]
        starts_within(entries, s, e) && totals == spec_totals(entries_view(entries))
}

/// `days` are the daily totals of `entries`, entry `i` falling on `dates[i]`:
/// each date listed once, with the totals of the entries on it.
pub open spec fn daily_totals_match(
    days: Seq<DayTotals>,
    entries: Seq<TimeEntry>,
    dates: Seq<CalendarDate>,
) -> bool {
    &&& dates.len() == entries.len()
    &&& forall|d: CalendarDate| #[trigger] day_dates(days).contains(d) <==> dates.contains(d)
    &&& forall|i: int|
        0 <= i < days.len() ==> (#[trigger] days[i]).totals@ == spec_totals(
            entries_on(entries_view(entries), dates, days[i].date),
        )
}

/// `days` are the daily totals of some entries that all start within one
/// range of instants, each entry falling on some date.
pub open spec fn daily_totals_of(days: Seq<DayTotals>) -> bool {
    exists|entries: Seq<TimeEntry>, dates: Seq<CalendarDate>, s: int, e: int|
        #![trigger starts_within(entries, s, e), daily_totals_match(days, entries, dates)]
        starts_within(entries, s, e) && daily_totals_match(days, entries, dates)
}

/// Summarises the entries of one local month.
pub struct MonthlyCommand<'a, T: TogglRepository, C: Clock> {
    toggl_client: &'a T,
    clock: &'a C,
}

/// The local calendar date on which each entry starts.
pub fn local_dates(time_entries: &[TimeEntry]) -> (r: Result<Vec<CalendarDate>, ReportError>)
    ensures
        r matches Ok(v) ==> v@.len() == time_entries@.len(),
        r matches Err(e) ==> e == ReportError::TimeConversionError,
{
    let mut dates: Vec<CalendarDate> = Vec::new();
    let mut i: usize = 0;
    while i < time_entries.len()
        invariant
            i <= time_entries@.len(),
            dates@.len() == i,
        decreases time_entries.len() - i,
    {
        match local_date_of(time_entries[i].start) {
            Ok(d) => dates.push(d),
            Err(e) => return Err(e),
        }
        i = i + 1;
    }
    Ok(dates)
}

impl<'a, T: TogglRepository, C: Clock> MonthlyCommand<'a, T, C> {
    /// A command that reads from `toggl_client` and takes the current month
    /// from `clock`.
    pub fn new(toggl_client: &'a T, clock: &'a C) -> (r: Self)
        ensures
            r.toggl_client() == toggl_client,
            r.clock() == clock,
    {
        Self { toggl_client, clock }
    }

    /// The repository read from.
    pub closed spec fn toggl_client(&self) -> &'a T {
        self.toggl_client
    }

    /// The clock that gives the current month.
    pub closed spec fn clock(&self) -> &'a C {
        self.clock
    }

    fn read_month(&self, monthly: MonthlyArgs) -> (r: Result<Vec<TimeEntry>, ReportError>)
        ensures
            r matches Ok(v) ==> exists|s: int, e: int| #[trigger] starts_within(v@, s, e),
    {
        let now = self.clock.now();
        match monthly_range(monthly.month, now) {
            Ok((start_at, end_at)) => self.toggl_client.read_time_entries(start_at, end_at),
            Err(e) => Err(e),
        }
    }

    /// Totals by project and tag of the entries of the local month that holds
    /// `monthly.month`, or the current instant where it is absent.
    pub fn run_monthly_duration(&self, monthly: MonthlyArgs) -> (r: Result<
        DurationTotals,
        ReportError,
    >)
        ensures
            r matches Ok(t) ==> t.wf() && monthly_totals_of(t@),
    {
        match self.read_month(monthly) {
            Ok(entries) => {
                let r = calc_project_tag_duration(entries.as_slice());
                proof {
                    if r is Ok {
                        assert(r->Ok_0@ == spec_totals(entries_view(entries@)));
                    }
                }
                r
            },
            Err(e) => Err(e),
        }
    }

    /// Totals by project and tag for each local day of the month that holds
    /// `monthly.month`, or the current instant where it is absent; the days in
    /// calendar order. A failure on any day fails the whole summary.
    pub fn run_daily_duration(&self, monthly: MonthlyArgs) -> (r: Result<
        Vec<DayTotals>,
        ReportError,
    >)
        ensures
            r matches Ok(v) ==> forall|i: int, j: int|
                0 <= i < j < v@.len() ==> date_before(v@[i].date, v@[j].date),
            r matches Ok(v) ==> daily_totals_of(v@),
    {
        let entries = match self.read_month(monthly) {
            Ok(entries) => entries,
            Err(e) => return Err(e),
        };
        let dates = match local_dates(entries.as_slice()) {
            Ok(dates) => dates,
            Err(e) => return Err(e),
        };
        let entry_slice = entries.as_slice();
        let date_slice = dates.as_slice();
        assert(entry_slice@ == entries@ && date_slice@ == dates@);
        let r = calc_daily_durations(entry_slice, date_slice);
        proof {
            if r is Ok {
                let v = r->Ok_0@;
                assert forall|i: int| 0 <= i < v.len() implies (#[trigger] v[i]).totals@ == spec_totals(
                    entries_on(entries_view(entries@), dates@, v[i].date),
                ) by {
                    assert(v[i].totals.wf());
                }
                assert(daily_totals_match(v, entries@, dates@));
            }
        }
        r
    }
}

} // verus!

use std::cell::RefCell;
use std::collections::HashMap;

use chrono::{DateTime, Datelike, Duration, Local, NaiveDate, TimeZone, Timelike, Utc};
use tooggls::commands::{daily_range, monthly_range, reference_instant};
use tooggls::{
    Clock, DailyArgs, DailyCommand, DurationTotals, MonthlyArgs, MonthlyCommand, ReportError,
    TimeEntry, TogglRepository,
};

type ProjectDurations = HashMap<String, HashMap<String, i64>>;

struct FixedClock(i64);

impl Clock for FixedClock {
    fn now(&self) -> i64 {
        self.0
    }
}

struct FakeRepository {
    result: Result<Vec<TimeEntry>, ReportError>,
    calls: RefCell<Vec<(i64, i64)>>,
}

impl FakeRepository {
    fn new(result: Result<Vec<TimeEntry>, ReportError>) -> Self {
        FakeRepository { result, calls: RefCell::new(vec![]) }
    }
}

impl TogglRepository for FakeRepository {
    fn read_time_entries(&self, start_at: i64, end_at: i64) -> Result<Vec<TimeEntry>, ReportError> {
        self.calls.borrow_mut().push((start_at, end_at));
        self.result.clone()
    }
}

fn instant(s: &str) -> i64 {
    DateTime::parse_from_rfc3339(s).unwrap().timestamp()
}

fn local(t: i64) -> DateTime<Local> {
    Local.timestamp_opt(t, 0).unwrap()
}

fn calc_start_and_end(t: i64) -> (DateTime<Local>, DateTime<Local>) {
    let start_at = local(t)
        .with_day0(0)
        .unwrap()
        .with_hour(0)
        .unwrap()
        .with_minute(0)
        .unwrap()
        .with_second(0)
        .unwrap();
    let end_year = if start_at.month() == 12 { start_at.year() + 1 } else { start_at.year() };
    let end_month = if start_at.month() == 12 { 1 } else { start_at.month() + 1 };
    let end_at = start_at.with_year(end_year).unwrap().with_month(end_month).unwrap();
    (start_at, end_at)
}

fn daily_case(date: Option<i64>) {
    let now = date.unwrap_or(Utc::now().timestamp());
    let today = local(now).with_hour(0).unwrap().with_minute(0).unwrap().with_second(0).unwrap();
    let tomorrow = today + Duration::days(1);
    let entries = vec![TimeEntry {
        description: "test 1".to_string(),
        start: today.with_hour(3).unwrap().timestamp(),
        stop: Some(today.with_hour(4).unwrap().timestamp()),
        duration: 3600,
        project: None,
        tags: vec![],
    }];
    let toggl = FakeRepository::new(Ok(entries.clone()));
    let clock = FixedClock(now);

    let command = DailyCommand::new(&toggl, &clock);
    let result = command.run(DailyArgs { date });

    assert!(result.is_ok());
    assert_eq!(entries, result.unwrap());
    assert_eq!(*toggl.calls.borrow(), vec![(today.timestamp(), tomorrow.timestamp())]);
}

#[test]
fn test_daily_command_no_date() {
    daily_case(None);
    daily_case(Some(instant("2024-01-01T00:00:00+00:00")));
}

#[test]
fn test_error_daily_command_get_time_entries() {
    let toggl = FakeRepository::new(Err(ReportError::RemoteRequestError));
    let clock = FixedClock(Utc::now().timestamp());
    let command = DailyCommand::new(&toggl, &clock);
    let result = command.run(DailyArgs { date: None });

    assert!(result.is_err());
    let today = local(clock.0).with_hour(0).unwrap().with_minute(0).unwrap().with_second(0).unwrap();
    let tomorrow = today + Duration::days(1);
    assert_eq!(*toggl.calls.borrow(), vec![(today.timestamp(), tomorrow.timestamp())]);
}

fn dummy_entry(pattern: u8) -> TimeEntry {
    let e = |desc: &str, start: &str, stop: Option<&str>, duration: i64, project: Option<&str>, tags: &[&str]| TimeEntry {
        description: desc.to_string(),
        start: instant(start),
        stop: stop.map(instant),
        duration,
        project: project.map(|p| p.to_string()),
        tags: tags.iter().map(|t| t.to_string()).collect(),
    };
    match pattern {
        1 => e("entry1", "2024-01-02T01:00:00+00:00", Some("2024-01-02T02:00:00+00:00"), 3600, None, &[]),
        2 => e("entry2", "2024-01-03T02:00:00+00:00", Some("2024-01-03T03:00:05+00:00"), 3605, Some("project1"), &[]),
        3 => e("entry3", "2024-01-03T04:00:00+00:00", Some("2024-01-03T05:00:10+00:00"), 3610, None, &["tag1"]),
        4 => e("entry4", "2024-01-03T05:00:00+00:00", Some("2024-01-03T06:00:15+00:00"), 3615, Some("project1"), &["tag1"]),
        5 => e("entry5", "2024-01-03T06:00:00+00:00", Some("2024-01-03T07:00:20+00:00"), 3620, Some("project1"), &["tag1"]),
        6 => e("entry5", "2024-01-03T07:00:00+00:00", Some("2024-01-03T08:00:25+00:00"), 3625, Some("project2"), &["tag1"]),
        7 => e("entry5", "2024-01-03T08:00:00+00:00", Some("2024-01-03T09:00:30+00:00"), 3630, Some("project1"), &["tag2"]),
        8 => e("entry5", "2024-01-03T08:00:00+00:00", None, -1, Some("project3"), &["tag3"]),
        _ => panic!("Invalid pattern: {}", pattern),
    }
}

fn entry_cases() -> Vec<Vec<TimeEntry>> {
    vec![
        vec![],
        vec![dummy_entry(1)],
        vec![dummy_entry(2)],
        vec![dummy_entry(3)],
        vec![dummy_entry(8)],
        vec![dummy_entry(4), dummy_entry(5), dummy_entry(6), dummy_entry(7)],
    ]
}

fn fold_durations(entries: &[TimeEntry]) -> ProjectDurations {
    entries.iter().fold(ProjectDurations::new(), |mut acc, entry| {
        if entry.stop.is_none() {
            return acc;
        }
        let key = entry.project.clone().unwrap_or_default();
        let project_entry = acc.entry(key).or_default();
        entry.tags.iter().for_each(|tag| {
            *project_entry.entry(tag.clone()).or_insert(0) += entry.duration;
        });
        acc
    })
}

fn as_map(totals: &DurationTotals) -> ProjectDurations {
    totals
        .projects
        .iter()
        .map(|p| (p.project.clone(), p.tags.iter().map(|t| (t.tag.clone(), t.seconds)).collect()))
        .collect()
}

fn month_option_case(month: Option<i64>, daily: bool) {
    let now = month.unwrap_or(Utc::now().timestamp());
    let (start_at, end_at) = calc_start_and_end(now);
    let entries = vec![TimeEntry {
        description: "test 1".to_string(),
        start: start_at.with_hour(3).unwrap().timestamp(),
        stop: Some(end_at.with_hour(4).unwrap().timestamp()),
        duration: 3600,
        project: None,
        tags: vec![],
    }];
    let toggl = FakeRepository::new(Ok(entries));
    let clock = FixedClock(now);
    let command = MonthlyCommand::new(&toggl, &clock);
    let args = MonthlyArgs { month, daily };
    if daily {
        assert!(command.run_daily_duration(args).is_ok());
    } else {
        assert!(command.run_monthly_duration(args).is_ok());
    }
    assert_eq!(*toggl.calls.borrow(), vec![(start_at.timestamp(), end_at.timestamp())]);
}

#[test]
fn test_run_monthly_duration_month_option() {
    month_option_case(None, false);
    month_option_case(Some(instant("2024-01-05T00:00:00+00:00")), false);
    month_option_case(Some(instant("2024-12-05T00:00:00+00:00")), false);
}

#[test]
fn test_run_monthly_duration_time_entries() {
    let now = instant("2024-01-05T04:00:00+00:00");
    let (start_at, end_at) = calc_start_and_end(now);
    for entries in entry_cases() {
        let expected = fold_durations(&entries);
        let toggl = FakeRepository::new(Ok(entries));
        let clock = FixedClock(now);
        let command = MonthlyCommand::new(&toggl, &clock);
        let result = command.run_monthly_duration(MonthlyArgs { month: Some(now), daily: false });

        assert!(result.is_ok());
        assert_eq!(expected, as_map(&result.unwrap()));
        assert_eq!(*toggl.calls.borrow(), vec![(start_at.timestamp(), end_at.timestamp())]);
    }
}

#[test]
fn test_run_monthly_duration_error_time_entry() {
    let now = instant("2024-01-05T04:00:00+00:00");
    let toggl = FakeRepository::new(Err(ReportError::RemoteRequestError));
    let clock = FixedClock(now);
    let command = MonthlyCommand::new(&toggl, &clock);
    let result = command.run_monthly_duration(MonthlyArgs { month: Some(now), daily: false });

    assert!(result.is_err());
    let (start_at, end_at) = calc_start_and_end(now);
    assert_eq!(*toggl.calls.borrow(), vec![(start_at.timestamp(), end_at.timestamp())]);
}

#[test]
fn test_run_daily_duration_month_option() {
    month_option_case(None, true);
    month_option_case(Some(instant("2024-01-05T00:00:00+00:00")), true);
    month_option_case(Some(instant("2024-12-05T00:00:00+00:00")), true);
}

#[test]
fn test_run_daily_duration_time_entries() {
    let now = instant("2024-01-05T04:00:00+00:00");
    for entries in entry_cases() {
        let mut daily_entries: HashMap<NaiveDate, Vec<TimeEntry>> = HashMap::new();
        for entry in &entries {
            daily_entries.entry(local(entry.start).date_naive()).or_default().push(entry.clone());
        }
        let expected: HashMap<NaiveDate, ProjectDurations> = daily_entries
            .iter()
            .map(|(date, entries)| (*date, fold_durations(entries)))
            .collect();
        let toggl = FakeRepository::new(Ok(entries));
        let clock = FixedClock(now);
        let command = MonthlyCommand::new(&toggl, &clock);
        let result = command.run_daily_duration(MonthlyArgs { month: Some(now), daily: true });

        assert!(result.is_ok());
        let (start_at, end_at) = calc_start_and_end(now);
        assert_eq!(*toggl.calls.borrow(), vec![(start_at.timestamp(), end_at.timestamp())]);
        let actual: HashMap<NaiveDate, ProjectDurations> = result
            .unwrap()
            .iter()
            .map(|d| {
                (NaiveDate::from_ymd_opt(d.date.year, d.date.month, d.date.day).unwrap(), as_map(&d.totals))
            })
            .collect();
        assert_eq!(expected, actual);
    }
}

#[test]
fn test_run_daily_duration_error_time_entry() {
    let now = instant("2024-01-05T04:00:00+00:00");
    let toggl = FakeRepository::new(Err(ReportError::RemoteRequestError));
    let clock = FixedClock(now);
    let command = MonthlyCommand::new(&toggl, &clock);
    let result = command.run_daily_duration(MonthlyArgs { month: Some(now), daily: true });

    assert!(result.is_err());
    let (start_at, end_at) = calc_start_and_end(now);
    assert_eq!(*toggl.calls.borrow(), vec![(start_at.timestamp(), end_at.timestamp())]);
}

#[test]
fn monthly_args_daily_flag() {
    assert!(MonthlyArgs { month: None, daily: true }.get_daily());
    assert!(!MonthlyArgs { month: None, daily: false }.get_daily());
}

#[test]
fn reference_instant_prefers_the_given_one() {
    assert_eq!(reference_instant(Some(5), 9), 5);
    assert_eq!(reference_instant(None, 9), 9);
}

#[test]
fn daily_and_monthly_ranges_use_the_reference_instant() {
    let given = instant("2024-12-05T10:00:00+00:00");
    let other = instant("2023-03-01T10:00:00+00:00");
    let (s, e) = daily_range(Some(given), other).unwrap();
    assert_eq!(e - s, 86400);
    let today = local(given).with_hour(0).unwrap().with_minute(0).unwrap().with_second(0).unwrap();
    assert_eq!(s, today.timestamp());
    assert_eq!(daily_range(None, given), daily_range(Some(given), other));
    let (start_at, end_at) = calc_start_and_end(given);
    assert_eq!(monthly_range(Some(given), other), Ok((start_at.timestamp(), end_at.timestamp())));
    assert_eq!(monthly_range(None, given), monthly_range(Some(given), other));
}

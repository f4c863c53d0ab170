use std::collections::HashMap;

use chrono::{DateTime, Datelike, Local, NaiveDate, TimeZone};
use tooggls::totals::calc_daily_durations;
use tooggls::{calc_project_tag_duration, CalendarDate, DayTotals, DurationTotals, ReportError, TimeEntry};

type ProjectDurations = HashMap<String, HashMap<String, i64>>;

fn instant(s: &str) -> i64 {
    DateTime::parse_from_rfc3339(s).unwrap().timestamp()
}

fn entry(start: &str, stop: Option<&str>, duration: i64, project: Option<&str>, tags: &[&str]) -> TimeEntry {
    TimeEntry {
        start: instant(start),
        stop: stop.map(instant),
        duration,
        description: "entry".to_string(),
        project: project.map(|p| p.to_string()),
        tags: tags.iter().map(|t| t.to_string()).collect(),
    }
}

fn as_map(totals: &DurationTotals) -> ProjectDurations {
    totals
        .projects
        .iter()
        .map(|p| (p.project.clone(), p.tags.iter().map(|t| (t.tag.clone(), t.seconds)).collect()))
        .collect()
}

fn expected(entries: &[TimeEntry]) -> ProjectDurations {
    entries.iter().fold(ProjectDurations::new(), |mut acc, entry| {
        if entry.stop.is_none() {
            return acc;
        }
        let key = entry.project.clone().unwrap_or_default();
        let project_entry = acc.entry(key).or_default();
        entry.tags.iter().for_each(|tag| {
            *project_entry.entry(tag.clone()).or_insert(0) += entry.duration;
        });
        acc
    })
}

#[test]
fn totals_by_project_and_tag() {
    let entries = vec![
        entry("2024-01-03T05:00:00+00:00", Some("2024-01-03T06:00:15+00:00"), 3615, Some("project1"), &["tag1"]),
        entry("2024-01-03T06:00:00+00:00", Some("2024-01-03T07:00:20+00:00"), 3620, Some("project1"), &["tag1"]),
        entry("2024-01-03T07:00:00+00:00", Some("2024-01-03T08:00:25+00:00"), 3625, Some("project2"), &["tag1"]),
        entry("2024-01-03T08:00:00+00:00", Some("2024-01-03T09:00:30+00:00"), 3630, Some("project1"), &["tag2"]),
    ];
    let totals = calc_project_tag_duration(&entries).unwrap();
    assert_eq!(as_map(&totals), expected(&entries));
    assert_eq!(totals.seconds("project1", "tag1"), Some(7235));
    assert_eq!(totals.seconds("project1", "tag2"), Some(3630));
    assert_eq!(totals.seconds("project2", "tag1"), Some(3625));
    assert_eq!(totals.seconds("project2", "tag2"), None);
}

#[test]
fn no_entries_no_totals() {
    let totals = calc_project_tag_duration(&[]).unwrap();
    assert!(totals.projects.is_empty());
}

#[test]
fn entry_without_project_or_tags_opens_an_empty_bucket() {
    let entries = vec![entry("2024-01-02T01:00:00+00:00", Some("2024-01-02T02:00:00+00:00"), 3600, None, &[])];
    let totals = calc_project_tag_duration(&entries).unwrap();
    assert_eq!(as_map(&totals), expected(&entries));
    assert_eq!(totals.projects.len(), 1);
    assert_eq!(totals.projects[0].project, "");
    assert!(totals.projects[0].tags.is_empty());
}

#[test]
fn entry_without_project_counts_under_empty_name() {
    let entries = vec![entry("2024-01-03T04:00:00+00:00", Some("2024-01-03T05:00:10+00:00"), 3610, None, &["tag1"])];
    let totals = calc_project_tag_duration(&entries).unwrap();
    assert_eq!(totals.seconds("", "tag1"), Some(3610));
}

#[test]
fn running_entry_counts_for_nothing() {
    let running = entry("2024-01-03T08:00:00+00:00", None, -1, Some("project3"), &["tag3"]);
    let totals = calc_project_tag_duration(&[running.clone()]).unwrap();
    assert!(totals.projects.is_empty());
    let done = entry("2024-01-03T05:00:00+00:00", Some("2024-01-03T06:00:00+00:00"), 3600, Some("project3"), &["tag3"]);
    let with = calc_project_tag_duration(&[done.clone(), running]).unwrap();
    let without = calc_project_tag_duration(&[done]).unwrap();
    assert_eq!(with, without);
}

#[test]
fn each_tag_gets_the_full_duration() {
    let entries = vec![entry("2024-01-03T05:00:00+00:00", Some("2024-01-03T06:00:00+00:00"), 3600, Some("P"), &["t1", "t2"])];
    let totals = calc_project_tag_duration(&entries).unwrap();
    assert_eq!(totals.seconds("P", "t1"), Some(3600));
    assert_eq!(totals.seconds("P", "t2"), Some(3600));
}

#[test]
fn repeated_tag_counts_twice() {
    let entries = vec![entry("2024-01-03T05:00:00+00:00", Some("2024-01-03T06:00:00+00:00"), 100, Some("P"), &["t", "t"])];
    let totals = calc_project_tag_duration(&entries).unwrap();
    assert_eq!(totals.seconds("P", "t"), Some(200));
}

#[test]
fn overflowing_total_is_an_error() {
    let entries = vec![
        entry("2024-01-03T05:00:00+00:00", Some("2024-01-03T06:00:00+00:00"), i64::MAX, Some("P"), &["t"]),
        entry("2024-01-03T06:00:00+00:00", Some("2024-01-03T07:00:00+00:00"), 1, Some("P"), &["t"]),
    ];
    assert_eq!(calc_project_tag_duration(&entries), Err(ReportError::DurationOverflow));
    let fits = vec![
        entry("2024-01-03T05:00:00+00:00", Some("2024-01-03T06:00:00+00:00"), i64::MAX, Some("P"), &["t"]),
        entry("2024-01-03T06:00:00+00:00", Some("2024-01-03T07:00:00+00:00"), -1, Some("P"), &["t"]),
    ];
    assert_eq!(calc_project_tag_duration(&fits).unwrap().seconds("P", "t"), Some(i64::MAX - 1));
}

fn date_of(t: i64) -> CalendarDate {
    let d = Local.timestamp_opt(t, 0).unwrap().date_naive();
    CalendarDate { year: d.year(), month: d.month(), day: d.day() }
}

#[test]
fn daily_totals_group_by_local_date_in_calendar_order() {
    let entries = vec![
        entry("2024-01-05T12:00:00+00:00", Some("2024-01-05T13:00:00+00:00"), 3600, Some("A"), &["x"]),
        entry("2024-01-02T12:00:00+00:00", Some("2024-01-02T12:30:00+00:00"), 1800, Some("A"), &["x"]),
        entry("2024-01-05T15:00:00+00:00", Some("2024-01-05T15:10:00+00:00"), 600, Some("B"), &["y"]),
    ];
    let dates: Vec<CalendarDate> = entries.iter().map(|e| date_of(e.start)).collect();
    let days: Vec<DayTotals> = calc_daily_durations(&entries, &dates).unwrap();

    let mut grouped: HashMap<NaiveDate, Vec<TimeEntry>> = HashMap::new();
    for e in &entries {
        grouped.entry(Local.timestamp_opt(e.start, 0).unwrap().date_naive()).or_default().push(e.clone());
    }
    assert_eq!(days.len(), grouped.len());
    for w in days.windows(2) {
        let a = (w[0].date.year, w[0].date.month, w[0].date.day);
        let b = (w[1].date.year, w[1].date.month, w[1].date.day);
        assert!(a < b);
    }
    for day in &days {
        let key = NaiveDate::from_ymd_opt(day.date.year, day.date.month, day.date.day).unwrap();
        assert_eq!(as_map(&day.totals), expected(&grouped[&key]));
    }
}

#[test]
fn daily_totals_fail_when_a_day_overflows() {
    let entries = vec![
        entry("2024-01-05T12:00:00+00:00", Some("2024-01-05T13:00:00+00:00"), i64::MAX, Some("A"), &["x"]),
        entry("2024-01-05T12:00:00+00:00", Some("2024-01-05T13:00:00+00:00"), i64::MAX, Some("A"), &["x"]),
    ];
    let dates: Vec<CalendarDate> = entries.iter().map(|e| date_of(e.start)).collect();
    assert_eq!(calc_daily_durations(&entries, &dates), Err(ReportError::DurationOverflow));
}

#[test]
fn single_entry_with_distinct_tags() {
    let entries = vec![entry("2024-01-03T05:00:00+00:00", Some("2024-01-03T06:00:00+00:00"), 3600, Some("P"), &["a", "b", "c"])];
    let totals = calc_project_tag_duration(&entries).unwrap();
    assert_eq!(totals.projects.len(), 1);
    assert_eq!(totals.projects[0].tags.len(), 3);
    for t in ["a", "b", "c"] {
        assert_eq!(totals.seconds("P", t), Some(3600));
    }
}

#[test]
fn totals_equal_those_of_stopped_entries() {
    let entries = vec![
        entry("2024-01-03T05:00:00+00:00", Some("2024-01-03T06:00:00+00:00"), 3600, Some("P"), &["a"]),
        entry("2024-01-03T06:00:00+00:00", None, -1, Some("Q"), &["b"]),
        entry("2024-01-03T07:00:00+00:00", Some("2024-01-03T07:30:00+00:00"), 1800, Some("P"), &["a"]),
    ];
    let stopped: Vec<TimeEntry> = entries.iter().filter(|e| e.stop.is_some()).cloned().collect();
    assert_eq!(calc_project_tag_duration(&entries), calc_project_tag_duration(&stopped));
}

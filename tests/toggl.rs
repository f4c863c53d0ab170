use chrono::DateTime;
use tooggls::toggl::{all_start_within, project_names};
use tooggls::{join_time_entries, ReportError, TimeEntry, TogglProject, TogglTimeEntry};

fn dummy_time_entry(pattern: u8) -> TogglTimeEntry {
    match pattern {
        1 => TogglTimeEntry {
            description: "entry 1".to_string(),
            project_id: Some(1),
            start: "2024-01-02T01:02:03+09:00".to_string(),
            stop: Some("2024-01-02T01:02:04+09:00".to_string()),
            duration: 1,
            tags: vec!["tag 1".to_string()],
        },
        2 => TogglTimeEntry {
            description: "entry 2".to_string(),
            project_id: None,
            start: "2024-01-02T01:03:00+09:00".to_string(),
            stop: Some("2024-01-02T01:04:00+09:00".to_string()),
            duration: 60,
            tags: vec![],
        },
        _ => panic!("Invalid pattern: {}", pattern),
    }
}

fn dummy_projects(pattern: u8) -> TogglProject {
    match pattern {
        1 => TogglProject { id: 1, name: "project 1".to_string() },
        2 => TogglProject { id: 2, name: "project 2".to_string() },
        _ => panic!("Invalid pattern: {}", pattern),
    }
}

fn to_time_entry(entry: &TogglTimeEntry, projects: &[TogglProject]) -> TimeEntry {
    let start = DateTime::parse_from_rfc3339(&entry.start).unwrap().timestamp();
    let stop = entry
        .stop
        .clone()
        .map(|stop| DateTime::parse_from_rfc3339(&stop).unwrap().timestamp());
    let project = entry
        .project_id
        .map(|id| {
            projects
                .iter()
                .find(|project| project.id == id)
                .map(|project| project.name.clone())
        })
        .unwrap_or_default();
    TimeEntry {
        start,
        stop,
        duration: entry.duration,
        description: entry.description.clone(),
        project,
        tags: entry.tags.clone(),
    }
}

#[test]
fn join_keeps_order_and_resolves_projects() {
    let cases: Vec<(Vec<TogglTimeEntry>, Vec<TogglProject>)> = vec![
        (vec![dummy_time_entry(1)], vec![dummy_projects(1)]),
        (vec![], vec![dummy_projects(1)]),
        (vec![dummy_time_entry(1)], vec![]),
        (vec![], vec![]),
        (
            vec![dummy_time_entry(1), dummy_time_entry(2)],
            vec![dummy_projects(1), dummy_projects(2)],
        ),
    ];
    for (time_entries, projects) in cases {
        let expected: Vec<TimeEntry> =
            time_entries.iter().map(|entry| to_time_entry(entry, &projects)).collect();
        let joined = join_time_entries(&time_entries, &projects).unwrap();
        assert_eq!(expected, joined);
    }
}

#[test]
fn timestamps_are_read_as_utc_seconds() {
    let joined = join_time_entries(&vec![dummy_time_entry(1)], &vec![dummy_projects(1)]).unwrap();
    assert_eq!(joined[0].start, 1704124923);
    assert_eq!(joined[0].stop, Some(1704124924));
    assert_eq!(joined[0].project, Some("project 1".to_string()));
}

#[test]
fn unknown_project_is_absent_not_an_error() {
    let mut entry = dummy_time_entry(1);
    entry.project_id = Some(42);
    let joined = join_time_entries(&vec![entry], &vec![dummy_projects(1), dummy_projects(2)]);
    assert!(joined.is_ok());
    assert_eq!(joined.unwrap()[0].project, None);
}

#[test]
fn malformed_timestamp_is_an_error() {
    let mut entry = dummy_time_entry(2);
    entry.start = "2024-01-02 01:03".to_string();
    assert_eq!(
        join_time_entries(&vec![dummy_time_entry(1), entry], &vec![]),
        Err(ReportError::MalformedTimestamp)
    );
    let mut entry = dummy_time_entry(2);
    entry.stop = Some("yesterday".to_string());
    assert_eq!(join_time_entries(&vec![entry], &vec![]), Err(ReportError::MalformedTimestamp));
}

#[test]
fn later_project_with_same_id_wins() {
    let projects = vec![
        TogglProject { id: 7, name: "old".to_string() },
        TogglProject { id: 7, name: "new".to_string() },
    ];
    let names = project_names(&projects);
    assert_eq!(names.get(&7), Some(&"new".to_string()));
    let mut entry = dummy_time_entry(1);
    entry.project_id = Some(7);
    let joined = join_time_entries(&vec![entry], &projects).unwrap();
    assert_eq!(joined[0].project, Some("new".to_string()));
}

#[test]
fn range_check_of_entries() {
    let joined = join_time_entries(&vec![dummy_time_entry(1), dummy_time_entry(2)], &vec![]).unwrap();
    assert!(all_start_within(&joined, 1704124923, 1704124981));
    assert!(!all_start_within(&joined, 1704124923, 1704124980));
    assert!(!all_start_within(&joined, 1704124924, 1704124981));
    assert!(all_start_within(&[], 5, 5));
}

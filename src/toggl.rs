use chrono::DateTime;
use std::collections::HashMap;
use vstd::prelude::*;

use crate::error::ReportError;
use crate::time_entry::{
    copy_strings, entries_view, opt_string_view, strings_view, EntryView, TimeEntry,
};

verus! {

broadcast use vstd::std_specs::hash::group_hash_axioms;

/// A time entry as the remote service reports it.
#[derive(Debug, Clone, PartialEq)]
pub struct TogglTimeEntry {
    pub description: String,
    pub project_id: Option<i64>,
    /// A date-time with a fixed offset, in RFC 3339 form.
    pub start: String,
    /// A date-time with a fixed offset, in RFC 3339 form.
    pub stop: Option<String>,
    pub duration: i64,
    pub tags: Vec<String>,
}

/// A project as the remote service reports it.
#[derive(Debug, Clone, PartialEq)]
pub struct TogglProject {
    pub id: i64,
    pub name: String,
}

/// The read operations of the remote time-tracking service.
pub trait TogglRepository {
    /// The entries that start in `[start_at, end_at)`, instants in seconds
    /// since the Unix epoch, joined with their projects.
    fn read_time_entries(&self, start_at: i64, end_at: i64) -> (r: Result<Vec<TimeEntry>, ReportError>)
        ensures
            r matches Ok(v) ==> starts_within(v@, start_at as int, end_at as int),
    ;
}

/// Every entry starts in `[start_at, end_at)`.
pub open spec fn starts_within(entries: Seq<TimeEntry>, start_at: int, end_at: int) -> bool {
    forall|i: int| 0 <= i < entries.len() ==> start_at <= #[trigger] entries[i].start < end_at
}

/// Whether every entry starts in `[start_at, end_at)`.
pub fn all_start_within(entries: &[TimeEntry], start_at: i64, end_at: i64) -> (r: bool)
    ensures
        r == starts_within(entries@, start_at as int, end_at as int),
{
    let mut i: usize = 0;
    while i < entries.len()
        invariant
            i <= entries@.len(),
            forall|k: int| 0 <= k < i ==> start_at <= #[trigger] entries@[k].start < end_at,
        decreases entries.len() - i,
    {
        if entries[i].start < start_at || entries[i].start >= end_at {
            return false;
        }
        i = i + 1;
    }
    true
}

/// The instant, in whole seconds since the Unix epoch, that an RFC 3339
/// date-time denotes, if the text is one.
pub uninterp spec fn rfc3339_seconds(s: Seq<char>) -> Option<i64>;

/// Relies on chrono's `DateTime::parse_from_rfc3339` and `DateTime::timestamp`.
#[verifier::external_body]
fn parse_timestamp(s: &str) -> (r: Option<i64>)
    ensures
        r == rfc3339_seconds(s@),
{
    match DateTime::parse_from_rfc3339(s) {
        Ok(t) => Some(t.timestamp()),
        Err(_) => None,
    }
}

/// The name of the last project in `projects` whose id is `id`.
pub open spec fn spec_project_name(projects: Seq<TogglProject>, id: i64) -> Option<Seq<char>>
    decreases projects.len(),
{
    if projects.len() == 0 {
        None
    } else if projects.last().id == id {
        Some(projects.last().name@)
    } else {
        spec_project_name(projects.drop_last(), id)
    }
}

/// The project name that an optional project id resolves to; an id that no
/// project has resolves to no name.
pub open spec fn spec_resolve_project(projects: Seq<TogglProject>, id: Option<i64>) -> Option<
    Seq<char>,
> {
    match id {
        Some(i) => spec_project_name(projects, i),
        None => None,
    }
}

/// The value of `m` at `k`, if any.
pub open spec fn map_lookup<K, V>(m: Map<K, V>, k: K) -> Option<V> {
    if m.contains_key(k) {
        Some(m[k])
    } else {
        None
    }
}

/// The names of the projects by id; where two projects share an id, the later
/// one is kept.
pub fn project_names(projects: &Vec<TogglProject>) -> (r: HashMap<i64, String>)
    ensures
        forall|id: i64| #[trigger]
            opt_string_view(map_lookup(r@, id)) == spec_project_name(projects@, id),
{
    let mut names: HashMap<i64, String> = HashMap::new();
    let mut i: usize = 0;
    while i < projects.len()
        invariant
            i <= projects.len(),
            forall|id: i64| #[trigger]
                opt_string_view(map_lookup(names@, id)) == spec_project_name(
                    projects@.take(i as int),
                    id,
                ),
        decreases projects.len() - i,
    {
        let p = &projects[i];
        let ghost before = names@;
        let name = p.name.clone();
        names.insert(p.id, name);
        proof {
            assert(vstd::std_specs::hash::obeys_key_model::<i64>());
            assert(names@ == before.insert(p.id, name));
            let next = projects@.take(i + 1);
            assert(next.drop_last() == projects@.take(i as int));
            assert(next.last() == projects@[i as int]);
            assert forall|id: i64| #[trigger]
                opt_string_view(map_lookup(names@, id)) == spec_project_name(next, id) by {
                if id == p.id {
                    assert(map_lookup(names@, id) == Some(name));
                    assert(spec_project_name(next, id) == Some(p.name@));
                } else {
                    assert(map_lookup(names@, id) == map_lookup(before, id));
                    assert(spec_project_name(next, id) == spec_project_name(projects@.take(i as int), id));
                }
            }
        }
        i = i + 1;
    }
    proof {
        assert(projects@.take(projects.len() as int) == projects@);
    }
    names
}

/// The name that an optional project id resolves to in `names`.
pub fn resolve_project(names: &HashMap<i64, String>, id: Option<i64>) -> (r: Option<String>)
    ensures
        r == match id {
            Some(i) => map_lookup(names@, i),
            None => None,
        },
{
    match id {
        Some(i) => match names.get(&i) {
            Some(name) => Some(name.clone()),
            None => None,
        },
        None => None,
    }
}

/// `raw` names a project id that no project in `projects` has.
pub open spec fn project_unknown(raw: TogglTimeEntry, projects: Seq<TogglProject>) -> bool {
    &&& raw.project_id is Some
    &&& forall|k: int| 0 <= k < projects.len() ==> projects[k].id != raw.project_id->Some_0
}

/// Whether every timestamp of `raw` reads as an instant.
pub open spec fn timestamps_readable(raw: TogglTimeEntry) -> bool {
    &&& rfc3339_seconds(raw.start@) is Some
    &&& raw.stop matches Some(s) ==> rfc3339_seconds(s@) is Some
}

/// The entry that `raw` becomes once its timestamps are read and its project
/// id is resolved in `projects`.
pub open spec fn spec_joined(raw: TogglTimeEntry, projects: Seq<TogglProject>) -> EntryView {
    EntryView {
        start: rfc3339_seconds(raw.start@)->Some_0,
        stop: match raw.stop {
            Some(s) => Some(rfc3339_seconds(s@)->Some_0),
            None => None,
        },
        duration: raw.duration,
        description: raw.description@,
        project: spec_resolve_project(projects, raw.project_id),
        tags: strings_view(raw.tags@),
    }
}

/// The entry built from a raw entry, its read timestamps and its project name.
pub fn joined_entry(raw: &TogglTimeEntry, start: i64, stop: Option<i64>, project: Option<String>) -> (r:
    TimeEntry)
    ensures
        r@ == (EntryView {
            start,
            stop,
            duration: raw.duration,
            description: raw.description@,
            project: opt_string_view(project),
            tags: strings_view(raw.tags@),
        }),
{
    TimeEntry {
        start,
        stop,
        duration: raw.duration,
        description: raw.description.clone(),
        project,
        tags: copy_strings(&raw.tags),
    }
}

/// Joins each raw entry with the name of its project, keeping their order.
///
/// An entry whose project id matches no project gets no project name. Fails
/// with `MalformedTimestamp` exactly where some timestamp does not read.
pub fn join_time_entries(raw: &Vec<TogglTimeEntry>, projects: &Vec<TogglProject>) -> (r: Result<
    Vec<TimeEntry>,
    ReportError,
>)
    ensures
        r is Ok <==> forall|i: int| 0 <= i < raw@.len() ==> #[trigger] timestamps_readable(raw@[i]),
        r matches Err(e) ==> e == ReportError::MalformedTimestamp,
        r matches Ok(v) ==> entries_view(v@) == raw@.map_values(
            |t: TogglTimeEntry| spec_joined(t, projects@),
        ),
        r matches Ok(v) ==> forall|i: int|
            0 <= i < raw@.len() && project_unknown(raw@[i], projects@) ==> (#[trigger] v@[i]).project
                is None,
{
    let names = project_names(projects);
    let mut out: Vec<TimeEntry> = Vec::new();
    let mut i: usize = 0;
    while i < raw.len()
        invariant
            i <= raw.len(),
            out@.len() == i,
            forall|j: int| 0 <= j < i ==> #[trigger] timestamps_readable(raw@[j]),
            forall|j: int| 0 <= j < i ==> #[trigger] out@[j]@ == spec_joined(raw@[j], projects@),
            forall|id: i64| #[trigger]
                opt_string_view(map_lookup(names@, id)) == spec_project_name(projects@, id),
        decreases raw.len() - i,
    {
        let t = &raw[i];
        let start = match parse_timestamp(t.start.as_str()) {
            Some(s) => s,
            None => {
                assert(!timestamps_readable(raw@[i as int]));
                return Err(ReportError::MalformedTimestamp);
            },
        };
        let stop = match &t.stop {
            Some(s) => match parse_timestamp(s.as_str()) {
                Some(v) => Some(v),
                None => {
                    assert(!timestamps_readable(raw@[i as int]));
                    return Err(ReportError::MalformedTimestamp);
                },
            },
            None => None,
        };
        let project = resolve_project(&names, t.project_id);
        let entry = joined_entry(t, start, stop, project);
        out.push(entry);
        i = i + 1;
    }
    assert(entries_view(out@) =~= raw@.map_values(|t: TogglTimeEntry| spec_joined(t, projects@)));
    assert forall|i: int|
        0 <= i < raw@.len() && project_unknown(raw@[i], projects@) implies (#[trigger] out@[i]).project
            is None by {
        lemma_unknown_project_is_absent(raw@[i], projects@);
        assert(out@[i]@ == spec_joined(raw@[i], projects@));
        assert(opt_string_view(out@[i].project) is None);
    }
    Ok(out)
}

} // verus!

verus! {

proof fn lemma_no_project_with_id(projects: Seq<TogglProject>, id: i64)
    requires
        forall|i: int| 0 <= i < projects.len() ==> projects[i].id != id,
    ensures
        spec_project_name(projects, id) is None,
    decreases projects.len(),
{
    if projects.len() > 0 {
        lemma_no_project_with_id(projects.drop_last(), id);
    }
}

/// An entry whose project id matches no known project is joined with no
/// project name; the join fails only on unreadable timestamps, so such an
/// entry is no error.
pub proof fn lemma_unknown_project_is_absent(raw: TogglTimeEntry, projects: Seq<TogglProject>)
    requires
        project_unknown(raw, projects),
    ensures
        spec_joined(raw, projects).project is None,
{
    lemma_no_project_with_id(projects, raw.project_id->Some_0);
}

} // verus!

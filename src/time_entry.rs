use vstd::prelude::*;

verus! {

/// A tracked interval joined with the name of its project.
///
/// Instants are whole seconds since the Unix epoch, in UTC.
#[derive(Debug, Clone, PartialEq)]
pub struct TimeEntry {
    pub start: i64,
    pub stop: Option<i64>,
    /// Length in seconds; meaningful once the entry has stopped.
    pub duration: i64,
    pub description: String,
    pub project: Option<String>,
    pub tags: Vec<String>,
}

/// The mathematical content of a `TimeEntry`.
pub struct EntryView {
    pub start: i64,
    pub stop: Option<i64>,
    pub duration: i64,
    pub description: Seq<char>,
    pub project: Option<Seq<char>>,
    pub tags: Seq<Seq<char>>,
}

/// The characters of each string, in order.
pub open spec fn strings_view(v: Seq<String>) -> Seq<Seq<char>> {
    v.map_values(|s: String| s@)
}

/// The characters of an optional string.
pub open spec fn opt_string_view(o: Option<String>) -> Option<Seq<char>> {
    match o {
        Some(s) => Some(s@),
        None => None,
    }
}

impl View for TimeEntry {
    type V = EntryView;

    open spec fn view(&self) -> EntryView {
        EntryView {
            start: self.start,
            stop: self.stop,
            duration: self.duration,
            description: self.description@,
            project: opt_string_view(self.project),
            tags: strings_view(self.tags@),
        }
    }
}

/// The views of a sequence of entries.
pub open spec fn entries_view(v: Seq<TimeEntry>) -> Seq<EntryView> {
    v.map_values(|e: TimeEntry| e@)
}

/// A copy of a list of strings.
pub fn copy_strings(v: &Vec<String>) -> (r: Vec<String>)
    ensures
        strings_view(r@) == strings_view(v@),
{
    let mut r: Vec<String> = Vec::new();
    let mut i: usize = 0;
    while i < v.len()
        invariant
            i <= v.len(),
            r@.len() == i,
            forall|j: int| 0 <= j < i ==> #[trigger] r@[j]@ == v@[j]@,
        decreases v.len() - i,
    {
        r.push(v[i].clone());
        i = i + 1;
    }
    assert(strings_view(r@) =~= strings_view(v@));
    r
}

/// A copy of an optional string.
pub fn copy_opt_string(o: &Option<String>) -> (r: Option<String>)
    ensures
        opt_string_view(r) == opt_string_view(*o),
{
    match o {
        Some(s) => Some(s.clone()),
        None => None,
    }
}

impl TimeEntry {
    /// A copy of the entry.
    pub fn duplicate(&self) -> (r: TimeEntry)
        ensures
            r@ == self@,
    {
        TimeEntry {
            start: self.start,
            stop: self.stop,
            duration: self.duration,
            description: self.description.clone(),
            project: copy_opt_string(&self.project),
            tags: copy_strings(&self.tags),
        }
    }
}

} // verus!

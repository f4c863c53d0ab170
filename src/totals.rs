use vstd::prelude::*;

use crate::datetime::CalendarDate;
use crate::error::ReportError;
use crate::time_entry::{entries_view, strings_view, EntryView, TimeEntry};

verus! {

/// Seconds by project name, then by tag name.
pub type TotalsMap = Map<Seq<char>, Map<Seq<char>, int>>;

/// The map that an association list denotes; a later pair wins over an
/// earlier one with the same key.
pub open spec fn assoc<V>(s: Seq<(Seq<char>, V)>) -> Map<Seq<char>, V>
    decreases s.len(),
{
    if s.len() == 0 {
        Map::empty()
    } else {
        assoc(s.drop_last()).insert(s.last().0, s.last().1)
    }
}

/// No two pairs of the association list share a key.
pub open spec fn keys_unique<V>(s: Seq<(Seq<char>, V)>) -> bool {
    forall|i: int, j: int| 0 <= i < j < s.len() ==> s[i].0 != s[j].0
}

proof fn lemma_assoc_absent<V>(s: Seq<(Seq<char>, V)>, k: Seq<char>)
    requires
        forall|i: int| 0 <= i < s.len() ==> s[i].0 != k,
    ensures
        !assoc(s).contains_key(k),
    decreases s.len(),
{
    if s.len() > 0 {
        lemma_assoc_absent(s.drop_last(), k);
    }
}

proof fn lemma_assoc_at<V>(s: Seq<(Seq<char>, V)>, i: int)
    requires
        keys_unique(s),
        0 <= i < s.len(),
    ensures
        assoc(s).contains_key(s[i].0),
        assoc(s)[s[i].0] == s[i].1,
    decreases s.len(),
{
    if i < s.len() - 1 {
        lemma_assoc_at(s.drop_last(), i);
    }
}

proof fn lemma_assoc_update<V>(s: Seq<(Seq<char>, V)>, i: int, v: V)
    requires
        keys_unique(s),
        0 <= i < s.len(),
    ensures
        assoc(s.update(i, (s[i].0, v))) == assoc(s).insert(s[i].0, v),
        keys_unique(s.update(i, (s[i].0, v))),
    decreases s.len(),
{
    let u = s.update(i, (s[i].0, v));
    if i == s.len() - 1 {
        assert(u.drop_last() == s.drop_last());
        assert(assoc(u) =~= assoc(s).insert(s[i].0, v));
    } else {
        assert(u.drop_last() == s.drop_last().update(i, (s[i].0, v)));
        lemma_assoc_update(s.drop_last(), i, v);
        assert(assoc(u) =~= assoc(s).insert(s[i].0, v));
    }
}

proof fn lemma_assoc_push<V>(s: Seq<(Seq<char>, V)>, k: Seq<char>, v: V)
    requires
        keys_unique(s),
        forall|i: int| 0 <= i < s.len() ==> s[i].0 != k,
    ensures
        assoc(s.push((k, v))) == assoc(s).insert(k, v),
        keys_unique(s.push((k, v))),
{
    assert(s.push((k, v)).drop_last() == s);
}

/// The seconds that `m` holds for `t`, zero where it holds none.
pub open spec fn seconds_or_zero(m: Map<Seq<char>, int>, t: Seq<char>) -> int {
    if m.contains_key(t) {
        m[t]
    } else {
        0
    }
}

/// The tag totals that `m` holds for project `p`, empty where it holds none.
pub open spec fn tags_or_empty(m: TotalsMap, p: Seq<char>) -> Map<Seq<char>, int> {
    if m.contains_key(p) {
        m[p]
    } else {
        Map::empty()
    }
}

/// The key under which an entry is counted: its project name, or the empty
/// name where it has no project.
pub open spec fn project_key(e: EntryView) -> Seq<char> {
    match e.project {
        Some(p) => p,
        None => Seq::empty(),
    }
}

/// The tag totals `m` after `d` seconds are added for each tag of `tags`, in
/// order.
#[verifier::opaque]
pub open spec fn add_tags(m: Map<Seq<char>, int>, tags: Seq<Seq<char>>, d: int) -> Map<
    Seq<char>,
    int,
>
    decreases tags.len(),
{
    if tags.len() == 0 {
        m
    } else {
        let prev = add_tags(m, tags.drop_last(), d);
        prev.insert(tags.last(), seconds_or_zero(prev, tags.last()) + d)
    }
}

/// The totals `t` after one entry is counted: a stopped entry adds its
/// duration to each of its tags under its project key; an entry that has not
/// stopped changes nothing.
pub open spec fn add_entry(t: TotalsMap, e: EntryView) -> TotalsMap {
    if e.stop is None {
        t
    } else {
        t.insert(
            project_key(e),
            add_tags(tags_or_empty(t, project_key(e)), e.tags, e.duration as int),
        )
    }
}

/// The totals `init` after the entries of `s` are counted in order.
pub open spec fn fold_totals(init: TotalsMap, s: Seq<EntryView>) -> TotalsMap
    decreases s.len(),
{
    if s.len() == 0 {
        init
    } else {
        add_entry(fold_totals(init, s.drop_last()), s.last())
    }
}

/// The totals of a sequence of entries.
pub open spec fn spec_totals(s: Seq<EntryView>) -> TotalsMap {
    fold_totals(Map::empty(), s)
}

/// Whether `x` fits in an `i64`.
pub open spec fn fits_i64(x: int) -> bool {
    i64::MIN <= x <= i64::MAX
}

/// Whether each running total stays within `i64` while `d` seconds are added
/// for each tag of `tags` to `m`.
pub open spec fn tags_fit(m: Map<Seq<char>, int>, tags: Seq<Seq<char>>, d: int) -> bool {
    forall|j: int|
        #![trigger tags[j]]
        0 <= j < tags.len() ==> fits_i64(seconds_or_zero(add_tags(m, tags.take(j), d), tags[j]) + d)
}

/// Whether each running total stays within `i64` while `e` is counted into `t`.
pub open spec fn entry_fits(t: TotalsMap, e: EntryView) -> bool {
    e.stop is None || tags_fit(tags_or_empty(t, project_key(e)), e.tags, e.duration as int)
}

/// Whether each running total stays within `i64` while the entries of `s` are
/// counted in order.
pub open spec fn totals_fit(s: Seq<EntryView>) -> bool {
    forall|k: int| 0 <= k < s.len() ==> #[trigger] entry_fits(spec_totals(s.take(k)), s[k])
}

/// The seconds counted for one tag.
#[derive(Debug, Clone, PartialEq)]
pub struct TagTotal {
    pub tag: String,
    pub seconds: i64,
}

/// The tag totals of one project.
#[derive(Debug, Clone, PartialEq)]
pub struct ProjectTotals {
    /// The project name; the empty name stands for entries without a project.
    pub project: String,
    pub tags: Vec<TagTotal>,
}

/// Seconds by project name, then by tag name, each name listed once, in the
/// order in which it was first counted.
#[derive(Debug, Clone, PartialEq)]
pub struct DurationTotals {
    pub projects: Vec<ProjectTotals>,
}

/// The tag totals as an association list.
pub open spec fn tag_pairs(s: Seq<TagTotal>) -> Seq<(Seq<char>, int)> {
    s.map_values(|t: TagTotal| (t.tag@, t.seconds as int))
}

/// The tag totals as a map.
pub open spec fn tags_view(s: Seq<TagTotal>) -> Map<Seq<char>, int> {
    assoc(tag_pairs(s))
}

/// The project totals as an association list.
pub open spec fn project_pairs(s: Seq<ProjectTotals>) -> Seq<(Seq<char>, Map<Seq<char>, int>)> {
    s.map_values(|p: ProjectTotals| (p.project@, tags_view(p.tags@)))
}

impl View for DurationTotals {
    type V = TotalsMap;

    open spec fn view(&self) -> TotalsMap {
        assoc(project_pairs(self.projects@))
    }
}

fn find_tag(tags: &Vec<TagTotal>, tag: &String) -> (r: Option<usize>)
    ensures
        r matches Some(j) ==> j < tags@.len() && tags@[j as int].tag@ == tag@,
        r is None ==> forall|j: int| 0 <= j < tags@.len() ==> tags@[j].tag@ != tag@,
{
    let mut j: usize = 0;
    while j < tags.len()
        invariant
            j <= tags.len(),
            forall|k: int| 0 <= k < j ==> tags@[k].tag@ != tag@,
        decreases tags.len() - j,
    {
        if tags[j].tag == *tag {
            return Some(j);
        }
        j = j + 1;
    }
    None
}

fn find_project(projects: &Vec<ProjectTotals>, project: &String) -> (r: Option<usize>)
    ensures
        r matches Some(i) ==> i < projects@.len() && projects@[i as int].project@ == project@,
        r is None ==> forall|i: int| 0 <= i < projects@.len() ==> projects@[i].project@ != project@,
{
    let mut i: usize = 0;
    while i < projects.len()
        invariant
            i <= projects.len(),
            forall|k: int| 0 <= k < i ==> projects@[k].project@ != project@,
        decreases projects.len() - i,
    {
        if projects[i].project == *project {
            return Some(i);
        }
        i = i + 1;
    }
    None
}

/// Adds `d` seconds to the total of `tag`; `false`, where the new total does
/// not fit.
fn add_to_tag(tags: &mut Vec<TagTotal>, tag: &String, d: i64) -> (ok: bool)
    requires
        keys_unique(tag_pairs(old(tags)@)),
    ensures
        ok == fits_i64(seconds_or_zero(tags_view(old(tags)@), tag@) + d),
        ok ==> keys_unique(tag_pairs(final(tags)@)),
        ok ==> tags_view(final(tags)@) == tags_view(old(tags)@).insert(
            tag@,
            seconds_or_zero(tags_view(old(tags)@), tag@) + d,
        ),
{
    let ghost before = tags@;
    match find_tag(tags, tag) {
        Some(j) => {
            proof {
                lemma_assoc_at(tag_pairs(before), j as int);
            }
            match tags[j].seconds.checked_add(d) {
                Some(total) => {
                    tags.set(j, TagTotal { tag: tag.clone(), seconds: total });
                    proof {
                        assert(tag_pairs(tags@) =~= tag_pairs(before).update(
                            j as int,
                            (tag_pairs(before)[j as int].0, total as int),
                        ));
                        lemma_assoc_update(tag_pairs(before), j as int, total as int);
                    }
                    true
                },
                None => false,
            }
        },
        None => {
            proof {
                lemma_assoc_absent(tag_pairs(before), tag@);
            }
            tags.push(TagTotal { tag: tag.clone(), seconds: d });
            proof {
                assert(tag_pairs(tags@) =~= tag_pairs(before).push((tag@, d as int)));
                lemma_assoc_push(tag_pairs(before), tag@, d as int);
            }
            true
        },
    }
}

proof fn lemma_add_tags_step(m: Map<Seq<char>, int>, ts: Seq<Seq<char>>, k: int, d: int)
    requires
        0 <= k < ts.len(),
    ensures
        add_tags(m, ts.take(k + 1), d) == add_tags(m, ts.take(k), d).insert(
            ts[k],
            seconds_or_zero(add_tags(m, ts.take(k), d), ts[k]) + d,
        ),
{
    reveal(add_tags);
    assert(ts.take(k + 1).drop_last() == ts.take(k));
    assert(ts.take(k + 1).last() == ts[k]);
}

/// Adds `d` seconds to the total of each tag of `entry_tags`, in order;
/// `false`, where a running total does not fit.
#[verifier::rlimit(50)]
fn add_to_tags(tags: &mut Vec<TagTotal>, entry_tags: &Vec<String>, d: i64) -> (ok: bool)
    requires
        keys_unique(tag_pairs(old(tags)@)),
    ensures
        ok == tags_fit(tags_view(old(tags)@), strings_view(entry_tags@), d as int),
        ok ==> keys_unique(tag_pairs(final(tags)@)),
        ok ==> tags_view(final(tags)@) == add_tags(
            tags_view(old(tags)@),
            strings_view(entry_tags@),
            d as int,
        ),
{
    let ghost inner0 = tags_view(tags@);
    let ghost ts = strings_view(entry_tags@);
    proof {
        reveal(add_tags);
        assert(ts.take(0) =~= Seq::<Seq<char>>::empty());
    }
    let mut k: usize = 0;
    while k < entry_tags.len()
        invariant
            k <= entry_tags.len(),
            ts == strings_view(entry_tags@),
            inner0 == tags_view(old(tags)@),
            keys_unique(tag_pairs(tags@)),
            tags_view(tags@) == add_tags(inner0, ts.take(k as int), d as int),
            forall|j: int|
                #![trigger ts[j]]
                0 <= j < k ==> fits_i64(seconds_or_zero(add_tags(inner0, ts.take(j), d as int), ts[j]) + d),
        decreases entry_tags.len() - k,
    {
        assert(ts[k as int] == entry_tags@[k as int]@);
        if !add_to_tag(tags, &entry_tags[k], d) {
            assert(!fits_i64(seconds_or_zero(add_tags(inner0, ts.take(k as int), d as int), ts[k as int]) + d));
            return false;
        }
        proof {
            lemma_add_tags_step(inner0, ts, k as int, d as int);
        }
        k = k + 1;
    }
    assert(ts.take(ts.len() as int) == ts);
    true
}

impl DurationTotals {
    /// Each project name is listed once, and each tag name once per project.
    pub open spec fn wf(&self) -> bool {
        &&& keys_unique(project_pairs(self.projects@))
        &&& forall|i: int|
            0 <= i < self.projects@.len() ==> keys_unique(
                tag_pairs(#[trigger] self.projects@[i].tags@),
            )
    }

    /// No totals.
    pub fn new() -> (r: DurationTotals)
        ensures
            r.wf(),
            r@ == TotalsMap::empty(),
    {
        let r = DurationTotals { projects: Vec::new() };
        assert(r@ =~= TotalsMap::empty());
        r
    }

    /// Counts one entry; fails with `DurationOverflow` exactly where a running
    /// total leaves the range of `i64`.
    fn add(&mut self, e: &TimeEntry) -> (r: Result<(), ReportError>)
        requires
            old(self).wf(),
        ensures
            r is Ok <==> entry_fits(old(self)@, e@),
            r matches Err(err) ==> err == ReportError::DurationOverflow,
            r is Ok ==> final(self).wf() && final(self)@ == add_entry(old(self)@, e@),
    {
        if e.stop.is_none() {
            return Ok(());
        }
        let key = match &e.project {
            Some(p) => p.clone(),
            None => String::new(),
        };
        assert(key@ == project_key(e@));
        let ghost before = self.projects@;
        let idx = match find_project(&self.projects, &key) {
            Some(i) => {
                proof {
                    lemma_assoc_at(project_pairs(before), i as int);
                }
                i
            },
            None => {
                proof {
                    lemma_assoc_absent(project_pairs(before), key@);
                }
                let n = self.projects.len();
                let fresh = ProjectTotals { project: key.clone(), tags: Vec::new() };
                assert(tag_pairs(fresh.tags@) =~= Seq::<(Seq<char>, int)>::empty());
                assert(tags_view(fresh.tags@) =~= Map::<Seq<char>, int>::empty());
                self.projects.push(fresh);
                proof {
                    assert(project_pairs(self.projects@) =~= project_pairs(before).push(
                        (key@, Map::empty()),
                    ));
                    lemma_assoc_push(project_pairs(before), key@, Map::empty());
                }
                n
            },
        };
        let ghost mid = self.projects@;
        assert(project_pairs(mid)[idx as int].0 == key@);
        proof {
            lemma_assoc_at(project_pairs(mid), idx as int);
        }
        let ghost inner0 = tags_view(mid[idx as int].tags@);
        assert(inner0 == tags_or_empty(old(self)@, key@));
        let mut p = self.projects.remove(idx);
        if !add_to_tags(&mut p.tags, &e.tags, e.duration) {
            return Err(ReportError::DurationOverflow);
        }
        let ghost new_inner = tags_view(p.tags@);
        self.projects.insert(idx, p);
        proof {
            assert(self.projects@ =~= mid.update(idx as int, p));
            assert(project_pairs(self.projects@) =~= project_pairs(mid).update(
                idx as int,
                (key@, new_inner),
            ));
            lemma_assoc_update(project_pairs(mid), idx as int, new_inner);
            assert(self@ =~= add_entry(old(self)@, e@));
        }
        Ok(())
    }
}

/// Totals by project, then by tag, of the entries that have stopped.
///
/// A stopped entry adds its duration to each of its tags under its project
/// (the empty name where it has none); an entry that has not stopped counts for
/// nothing. Fails with `DurationOverflow` exactly where a running total leaves
/// the range of `i64`.
pub fn calc_project_tag_duration(time_entries: &[TimeEntry]) -> (r: Result<
    DurationTotals,
    ReportError,
>)
    ensures
        r is Ok <==> totals_fit(entries_view(time_entries@)),
        r matches Err(e) ==> e == ReportError::DurationOverflow,
        r matches Ok(t) ==> t.wf() && t@ == spec_totals(entries_view(time_entries@)),
{
    let ghost s = entries_view(time_entries@);
    let mut totals = DurationTotals::new();
    let mut i: usize = 0;
    while i < time_entries.len()
        invariant
            i <= time_entries@.len(),
            s == entries_view(time_entries@),
            totals.wf(),
            totals@ == spec_totals(s.take(i as int)),
            forall|k: int| 0 <= k < i ==> #[trigger] entry_fits(spec_totals(s.take(k)), s[k]),
        decreases time_entries.len() - i,
    {
        assert(s[i as int] == time_entries@[i as int]@);
        match totals.add(&time_entries[i]) {
            Ok(()) => {},
            Err(e) => {
                assert(!entry_fits(spec_totals(s.take(i as int)), s[i as int]));
                return Err(e);
            },
        }
        proof {
            assert(s.take(i + 1).drop_last() == s.take(i as int));
            assert(s.take(i + 1).last() == s[i as int]);
        }
        i = i + 1;
    }
    assert(s.take(s.len() as int) == s);
    Ok(totals)
}

} // verus!

verus! {

/// `a` comes before `b` in the calendar.
pub open spec fn date_before(a: CalendarDate, b: CalendarDate) -> bool {
    a.year < b.year || (a.year == b.year && (a.month < b.month || (a.month == b.month && a.day
        < b.day)))
}

/// Whether `a` comes before `b` in the calendar.
pub fn is_date_before(a: CalendarDate, b: CalendarDate) -> (r: bool)
    ensures
        r == date_before(a, b),
{
    a.year < b.year || (a.year == b.year && (a.month < b.month || (a.month == b.month && a.day
        < b.day)))
}

/// The entries of `s` whose date in `dates` is `d`, in their order in `s`.
pub open spec fn entries_on(s: Seq<EntryView>, dates: Seq<CalendarDate>, d: CalendarDate) -> Seq<
    EntryView,
>
    decreases s.len(),
{
    if s.len() == 0 || dates.len() != s.len() {
        Seq::empty()
    } else if dates.last() == d {
        entries_on(s.drop_last(), dates.drop_last(), d).push(s.last())
    } else {
        entries_on(s.drop_last(), dates.drop_last(), d)
    }
}

/// The totals of the entries of one local calendar day.
#[derive(Debug, Clone, PartialEq)]
pub struct DayTotals {
    pub date: CalendarDate,
    pub totals: DurationTotals,
}

/// The distinct dates of `dates`, in calendar order.
pub fn distinct_dates(dates: &[CalendarDate]) -> (r: Vec<CalendarDate>)
    ensures
        forall|i: int, j: int| 0 <= i < j < r@.len() ==> date_before(r@[i], r@[j]),
        forall|d: CalendarDate| r@.contains(d) <==> dates@.contains(d),
{
    let mut out: Vec<CalendarDate> = Vec::new();
    let mut i: usize = 0;
    while i < dates.len()
        invariant
            i <= dates@.len(),
            forall|a: int, b: int| 0 <= a < b < out@.len() ==> date_before(out@[a], out@[b]),
            forall|d: CalendarDate| out@.contains(d) <==> dates@.take(i as int).contains(d),
        decreases dates.len() - i,
    {
        let d = dates[i];
        let mut pos: usize = 0;
        while pos < out.len() && is_date_before(out[pos], d)
            invariant
                pos <= out@.len(),
                forall|k: int| 0 <= k < pos ==> date_before(out@[k], d),
            decreases out.len() - pos,
        {
            pos = pos + 1;
        }
        let ghost before = out@;
        proof {
            assert(dates@.take(i + 1) == dates@.take(i as int).push(d));
            assert forall|k: int| pos <= k < before.len() implies !date_before(before[k], d) by {
                if k > pos {
                    assert(date_before(before[pos as int], before[k]));
                }
            }
        }
        if pos < out.len() && out[pos] == d {
            proof {
                assert forall|x: CalendarDate| out@.contains(x) <==> dates@.take(i + 1).contains(x) by {
                    if dates@.take(i + 1).contains(x) && !dates@.take(i as int).contains(x) {
                        assert(x == d);
                        assert(out@[pos as int] == x);
                    }
                    if dates@.take(i as int).contains(x) {
                        let j = choose|j: int| 0 <= j < i && #[trigger] dates@.take(i as int)[j] == x;
                        assert(dates@.take(i + 1)[j] == x);
                    }
                }
            }
        } else {
            proof {
                assert forall|k: int| pos <= k < before.len() implies date_before(d, before[k]) by {
                    assert(!date_before(before[k], d));
                    if k == pos {
                        assert(before[k] != d);
                    } else {
                        assert(date_before(before[pos as int], before[k]));
                        assert(before[pos as int] != d);
                    }
                }
            }
            out.insert(pos, d);
            proof {
                assert forall|x: CalendarDate| out@.contains(x) <==> dates@.take(i + 1).contains(x) by {
                    if out@.contains(x) {
                        let k = choose|k: int| 0 <= k < out@.len() && #[trigger] out@[k] == x;
                        if k < pos {
                            assert(before.contains(x));
                        } else if k > pos {
                            assert(before[k - 1] == x);
                            assert(before.contains(x));
                        } else {
                            assert(dates@.take(i + 1)[i as int] == x);
                        }
                        if x != d {
                            let j = choose|j: int| 0 <= j < i && #[trigger] dates@.take(i as int)[j] == x;
                            assert(dates@.take(i + 1)[j] == x);
                        }
                    }
                    if dates@.take(i + 1).contains(x) {
                        if x == d {
                            assert(out@[pos as int] == x);
                        } else {
                            let j = choose|j: int| 0 <= j < i + 1 && #[trigger] dates@.take(i + 1)[j] == x;
                            assert(j < i);
                            assert(dates@.take(i as int)[j] == x);
                            assert(before.contains(x));
                            let k = choose|k: int| 0 <= k < before.len() && #[trigger] before[k] == x;
                            if k < pos {
                                assert(out@[k] == x);
                            } else {
                                assert(out@[k + 1] == x);
                            }
                        }
                    }
                }
            }
        }
        i = i + 1;
    }
    assert(dates@.take(dates@.len() as int) == dates@);
    out
}

} // verus!

verus! {

/// The dates of the days, in order.
pub open spec fn day_dates(v: Seq<DayTotals>) -> Seq<CalendarDate> {
    v.map_values(|x: DayTotals| x.date)
}

/// The entries whose date in `dates` is `d`, in their order.
pub fn entries_on_date(time_entries: &[TimeEntry], dates: &[CalendarDate], d: CalendarDate) -> (r:
    Vec<TimeEntry>)
    requires
        dates@.len() == time_entries@.len(),
    ensures
        entries_view(r@) == entries_on(entries_view(time_entries@), dates@, d),
{
    let ghost s = entries_view(time_entries@);
    let mut out: Vec<TimeEntry> = Vec::new();
    let mut i: usize = 0;
    proof {
        assert(entries_view(out@) =~= Seq::<EntryView>::empty());
    }
    while i < time_entries.len()
        invariant
            i <= time_entries@.len(),
            dates@.len() == time_entries@.len(),
            s == entries_view(time_entries@),
            entries_view(out@) == entries_on(s.take(i as int), dates@.take(i as int), d),
        decreases time_entries.len() - i,
    {
        let ghost before = entries_view(out@);
        proof {
            assert(s.take(i + 1).drop_last() == s.take(i as int));
            assert(dates@.take(i + 1).drop_last() == dates@.take(i as int));
            assert(s.take(i + 1).last() == s[i as int]);
            assert(dates@.take(i + 1).last() == dates@[i as int]);
        }
        if dates[i] == d {
            out.push(time_entries[i].duplicate());
            assert(entries_view(out@) =~= before.push(s[i as int]));
        }
        i = i + 1;
    }
    proof {
        assert(s.take(s.len() as int) == s);
        assert(dates@.take(dates@.len() as int) == dates@);
    }
    out
}

/// Totals by project and tag for each local calendar day, the days in
/// calendar order; `dates[i]` is the local date on which entry `i` starts.
///
/// Each day that some entry starts on is listed once, with the totals of the
/// entries that start on it. Fails with `DurationOverflow` exactly where the
/// totals of some day do.
pub fn calc_daily_durations(time_entries: &[TimeEntry], dates: &[CalendarDate]) -> (r: Result<
    Vec<DayTotals>,
    ReportError,
>)
    requires
        dates@.len() == time_entries@.len(),
    ensures
        r is Ok <==> forall|d: CalendarDate| #[trigger]
            dates@.contains(d) ==> totals_fit(entries_on(entries_view(time_entries@), dates@, d)),
        r matches Err(e) ==> e == ReportError::DurationOverflow,
        r matches Ok(v) ==> {
            &&& forall|i: int, j: int|
                0 <= i < j < v@.len() ==> date_before(v@[i].date, v@[j].date)
            &&& forall|d: CalendarDate| #[trigger] day_dates(v@).contains(d) <==> dates@.contains(d)
            &&& forall|i: int|
                0 <= i < v@.len() ==> #[trigger] v@[i].totals.wf() && v@[i].totals@ == spec_totals(
                    entries_on(entries_view(time_entries@), dates@, v@[i].date),
                )
        },
{
    let ghost s = entries_view(time_entries@);
    let days = distinct_dates(dates);
    let mut out: Vec<DayTotals> = Vec::new();
    let mut k: usize = 0;
    while k < days.len()
        invariant
            k <= days@.len(),
            s == entries_view(time_entries@),
            dates@.len() == time_entries@.len(),
            out@.len() == k,
            forall|i: int, j: int| 0 <= i < j < days@.len() ==> date_before(days@[i], days@[j]),
            forall|d: CalendarDate| days@.contains(d) <==> dates@.contains(d),
            forall|j: int| 0 <= j < k ==> #[trigger] out@[j].date == days@[j],
            forall|j: int| 0 <= j < k ==> totals_fit(entries_on(s, dates@, #[trigger] days@[j])),
            forall|j: int| 0 <= j < k ==> (#[trigger] out@[j]).totals.wf(),
            forall|j: int|
                0 <= j < k ==> (#[trigger] out@[j]).totals@ == spec_totals(
                    entries_on(s, dates@, out@[j].date),
                ),
        decreases days.len() - k,
    {
        let day = days[k];
        let on_day = entries_on_date(time_entries, dates, day);
        match calc_project_tag_duration(on_day.as_slice()) {
            Ok(totals) => {
                let ghost before = out@;
                out.push(DayTotals { date: day, totals });
                assert(forall|j: int| 0 <= j < k ==> out@[j] == before[j]);
            },
            Err(e) => {
                proof {
                    assert(days@.contains(day));
                    assert(dates@.contains(day));
                }
                return Err(e);
            },
        }
        k = k + 1;
    }
    proof {
        assert forall|d: CalendarDate| #[trigger]
            dates@.contains(d) implies totals_fit(entries_on(s, dates@, d)) by {
            assert(days@.contains(d));
            let j = choose|j: int| 0 <= j < days@.len() && #[trigger] days@[j] == d;
            assert(totals_fit(entries_on(s, dates@, days@[j])));
        }
        assert forall|d: CalendarDate| #[trigger]
            day_dates(out@).contains(d) <==> dates@.contains(d) by {
            if day_dates(out@).contains(d) {
                let j = choose|j: int| 0 <= j < out@.len() && #[trigger] day_dates(out@)[j] == d;
                assert(days@[j] == d);
                assert(days@.contains(d));
            }
            if dates@.contains(d) {
                assert(days@.contains(d));
                let j = choose|j: int| 0 <= j < days@.len() && #[trigger] days@[j] == d;
                assert(day_dates(out@)[j] == d);
            }
        }
    }
    Ok(out)
}

} // verus!

verus! {

/// How many times `t` occurs in `tags`.
pub open spec fn occurrences(tags: Seq<Seq<char>>, t: Seq<char>) -> nat
    decreases tags.len(),
{
    if tags.len() == 0 {
        0
    } else {
        occurrences(tags.drop_last(), t) + if tags.last() == t {
            1nat
        } else {
            0nat
        }
    }
}

proof fn lemma_fold_concat(init: TotalsMap, a: Seq<EntryView>, b: Seq<EntryView>)
    ensures
        fold_totals(init, a + b) == fold_totals(fold_totals(init, a), b),
    decreases b.len(),
{
    if b.len() == 0 {
        assert(a + b == a);
    } else {
        assert((a + b).drop_last() == a + b.drop_last());
        assert((a + b).last() == b.last());
        lemma_fold_concat(init, a, b.drop_last());
    }
}

proof fn lemma_add_tags_counts(m: Map<Seq<char>, int>, tags: Seq<Seq<char>>, d: int, t: Seq<char>)
    ensures
        seconds_or_zero(add_tags(m, tags, d), t) == seconds_or_zero(m, t) + occurrences(tags, t) * d,
    decreases tags.len(),
{
    reveal(add_tags);
    if tags.len() > 0 {
        lemma_add_tags_counts(m, tags.drop_last(), d, t);
        let prev = add_tags(m, tags.drop_last(), d);
        let n = occurrences(tags.drop_last(), t);
        assert(add_tags(m, tags, d) == prev.insert(tags.last(), seconds_or_zero(prev, tags.last()) + d));
        if tags.last() == t {
            assert(occurrences(tags, t) == n + 1);
            assert(seconds_or_zero(add_tags(m, tags, d), t) == seconds_or_zero(prev, t) + d);
            assert((n + 1) * d == n * d + d) by (nonlinear_arith);
        } else {
            assert(occurrences(tags, t) == n);
            assert(seconds_or_zero(add_tags(m, tags, d), t) == seconds_or_zero(prev, t));
        }
    } else {
        assert(occurrences(tags, t) == 0);
        assert(0 * d == 0);
    }
}

proof fn lemma_occurs_once(tags: Seq<Seq<char>>, j: int)
    requires
        tags.no_duplicates(),
        0 <= j < tags.len(),
    ensures
        occurrences(tags, tags[j]) == 1,
    decreases tags.len(),
{
    if j < tags.len() - 1 {
        lemma_occurs_once(tags.drop_last(), j);
    } else {
        lemma_occurs_never(tags.drop_last(), tags[j]);
    }
}

proof fn lemma_occurs_never(tags: Seq<Seq<char>>, t: Seq<char>)
    requires
        !tags.contains(t),
    ensures
        occurrences(tags, t) == 0,
    decreases tags.len(),
{
    if tags.len() > 0 {
        assert(!tags.drop_last().contains(t)) by {
            if tags.drop_last().contains(t) {
                let k = choose|k: int| 0 <= k < tags.len() - 1 && #[trigger] tags.drop_last()[k] == t;
                assert(tags[k] == t);
            }
        }
        lemma_occurs_never(tags.drop_last(), t);
    }
}

/// An entry that has not stopped contributes nothing: the totals of a
/// sequence of entries are those of the same sequence without it.
pub proof fn lemma_unstopped_entry_contributes_nothing(s: Seq<EntryView>, i: int)
    requires
        0 <= i < s.len(),
        s[i].stop is None,
    ensures
        spec_totals(s) == spec_totals(s.remove(i)),
{
    let a = s.take(i);
    let b = s.skip(i + 1);
    assert(s == (a + seq![s[i]]) + b);
    assert(s.remove(i) == a + b);
    lemma_fold_concat(TotalsMap::empty(), a + seq![s[i]], b);
    lemma_fold_concat(TotalsMap::empty(), a, b);
    assert((a + seq![s[i]]).drop_last() == a);
}

/// A stopped entry adds its full duration to the total of each of its tags
/// under its project, once per occurrence of the tag; with no tag repeated,
/// each of its tags gains exactly the duration. Other projects are untouched.
pub proof fn lemma_entry_adds_full_duration_to_each_tag(s: Seq<EntryView>, e: EntryView)
    requires
        e.stop is Some,
    ensures
        forall|t: Seq<char>|
            #[trigger] seconds_or_zero(tags_or_empty(spec_totals(s.push(e)), project_key(e)), t)
                == seconds_or_zero(tags_or_empty(spec_totals(s), project_key(e)), t) + occurrences(
                e.tags,
                t,
            ) * e.duration,
        e.tags.no_duplicates() ==> forall|j: int|
            0 <= j < e.tags.len() ==> seconds_or_zero(
                tags_or_empty(spec_totals(s.push(e)), project_key(e)),
                #[trigger] e.tags[j],
            ) == seconds_or_zero(tags_or_empty(spec_totals(s), project_key(e)), e.tags[j])
                + e.duration,
        forall|p: Seq<char>|
            p != project_key(e) ==> #[trigger] tags_or_empty(spec_totals(s.push(e)), p)
                == tags_or_empty(spec_totals(s), p),
{
    assert(s.push(e).drop_last() == s);
    let m = tags_or_empty(spec_totals(s), project_key(e));
    assert forall|t: Seq<char>| #[trigger]
        seconds_or_zero(tags_or_empty(spec_totals(s.push(e)), project_key(e)), t) == seconds_or_zero(
            m,
            t,
        ) + occurrences(e.tags, t) * e.duration by {
        lemma_add_tags_counts(m, e.tags, e.duration as int, t);
    }
    if e.tags.no_duplicates() {
        assert forall|j: int| 0 <= j < e.tags.len() implies seconds_or_zero(
            tags_or_empty(spec_totals(s.push(e)), project_key(e)),
            #[trigger] e.tags[j],
        ) == seconds_or_zero(m, e.tags[j]) + e.duration by {
            lemma_add_tags_counts(m, e.tags, e.duration as int, e.tags[j]);
            lemma_occurs_once(e.tags, j);
        }
    }
}

} // verus!

verus! {

impl DurationTotals {
    /// The seconds counted for `tag` under `project`, if any.
    pub fn seconds(&self, project: &str, tag: &str) -> (r: Option<i64>)
        requires
            self.wf(),
        ensures
            r matches Some(v) ==> self@.contains_key(project@) && self@[project@].contains_key(tag@)
                && self@[project@][tag@] == v,
            r is None ==> !(self@.contains_key(project@) && self@[project@].contains_key(tag@)),
    {
        let project_key = String::from_str(project);
        let tag_key = String::from_str(tag);
        match find_project(&self.projects, &project_key) {
            Some(i) => {
                proof {
                    lemma_assoc_at(project_pairs(self.projects@), i as int);
                }
                let p = &self.projects[i];
                match find_tag(&p.tags, &tag_key) {
                    Some(j) => {
                        proof {
                            lemma_assoc_at(tag_pairs(p.tags@), j as int);
                        }
                        Some(p.tags[j].seconds)
                    },
                    None => {
                        proof {
                            lemma_assoc_absent(tag_pairs(p.tags@), tag@);
                        }
                        None
                    },
                }
            },
            None => {
                proof {
                    lemma_assoc_absent(project_pairs(self.projects@), project@);
                }
                None
            },
        }
    }
}

} // verus!

verus! {

/// Whether an entry has stopped.
pub open spec fn has_stopped() -> spec_fn(EntryView) -> bool {
    |e: EntryView| e.stop is Some
}

/// Entries that have not stopped contribute nothing: the totals of a sequence
/// of entries are those of its stopped entries alone.
pub proof fn lemma_totals_of_stopped_entries(s: Seq<EntryView>)
    ensures
        spec_totals(s) == spec_totals(s.filter(has_stopped())),
    decreases s.len(),
{
    reveal(Seq::filter);
    if s.len() > 0 {
        lemma_totals_of_stopped_entries(s.drop_last());
        let f = s.drop_last().filter(has_stopped());
        if s.last().stop is Some {
            assert(f.push(s.last()).drop_last() == f);
        }
    }
}

proof fn lemma_add_tags_keys(m: Map<Seq<char>, int>, tags: Seq<Seq<char>>, d: int, t: Seq<char>)
    ensures
        add_tags(m, tags, d).contains_key(t) <==> (m.contains_key(t) || tags.contains(t)),
    decreases tags.len(),
{
    reveal(add_tags);
    if tags.len() > 0 {
        lemma_add_tags_keys(m, tags.drop_last(), d, t);
        if tags.drop_last().contains(t) {
            let k = choose|k: int| 0 <= k < tags.len() - 1 && #[trigger] tags.drop_last()[k] == t;
            assert(tags[k] == t);
        }
        if tags.contains(t) && t != tags.last() {
            let k = choose|k: int| 0 <= k < tags.len() && #[trigger] tags[k] == t;
            assert(tags.drop_last()[k] == t);
        }
        if t == tags.last() {
            assert(tags[tags.len() - 1] == t);
        }
    }
}

/// The totals of one stopped entry whose tags are pairwise distinct: they
/// always fit, hold only its project, and under it exactly its tags, each
/// with the full duration of the entry.
pub proof fn lemma_single_entry_totals(e: EntryView)
    requires
        e.stop is Some,
        e.tags.no_duplicates(),
    ensures
        totals_fit(seq![e]),
        spec_totals(seq![e]).dom() == set![project_key(e)],
        forall|t: Seq<char>|
            #[trigger] spec_totals(seq![e])[project_key(e)].contains_key(t) <==> e.tags.contains(t),
        forall|j: int|
            0 <= j < e.tags.len() ==> spec_totals(seq![e])[project_key(e)][#[trigger] e.tags[j]]
                == e.duration,
        spec_totals(seq![e])[project_key(e)].dom().len() == e.tags.len(),
{
    let s = seq![e];
    let d = e.duration as int;
    let empty = Map::<Seq<char>, int>::empty();
    assert(s.drop_last() =~= Seq::<EntryView>::empty());
    assert(s.last() == e);
    assert(s.take(0) =~= Seq::<EntryView>::empty());
    let inner = add_tags(empty, e.tags, d);
    assert(fold_totals(TotalsMap::empty(), s.drop_last()) == TotalsMap::empty());
    assert(tags_or_empty(TotalsMap::empty(), project_key(e)) == empty);
    assert(spec_totals(s) == add_entry(TotalsMap::empty(), e));
    assert(spec_totals(s) == TotalsMap::empty().insert(project_key(e), inner));
    assert(spec_totals(s).dom() =~= set![project_key(e)]);
    assert forall|j: int| 0 <= j < e.tags.len() implies fits_i64(
        seconds_or_zero(add_tags(empty, e.tags.take(j), d), #[trigger] e.tags[j]) + d,
    ) by {
        assert(!e.tags.take(j).contains(e.tags[j])) by {
            if e.tags.take(j).contains(e.tags[j]) {
                let k = choose|k: int| 0 <= k < j && #[trigger] e.tags.take(j)[k] == e.tags[j];
                assert(e.tags[k] == e.tags[j]);
            }
        }
        lemma_occurs_never(e.tags.take(j), e.tags[j]);
        lemma_add_tags_counts(empty, e.tags.take(j), d, e.tags[j]);
    }
    assert(entry_fits(spec_totals(s.take(0)), s[0]));
    assert forall|t: Seq<char>| #[trigger] inner.contains_key(t) <==> e.tags.contains(t) by {
        lemma_add_tags_keys(empty, e.tags, d, t);
    }
    assert forall|j: int| 0 <= j < e.tags.len() implies inner[#[trigger] e.tags[j]] == e.duration by {
        lemma_add_tags_counts(empty, e.tags, d, e.tags[j]);
        lemma_occurs_once(e.tags, j);
        lemma_add_tags_keys(empty, e.tags, d, e.tags[j]);
        assert(e.tags.contains(e.tags[j]));
    }
    assert(inner.dom() =~= e.tags.to_set()) by {
        assert forall|t: Seq<char>| inner.dom().contains(t) <==> e.tags.to_set().contains(t) by {
            lemma_add_tags_keys(empty, e.tags, d, t);
        }
    }
    e.tags.unique_seq_to_set();
}

} // verus!

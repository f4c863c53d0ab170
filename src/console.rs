use vstd::prelude::*;

use crate::datetime::{local_civil_of, CivilDateTime};
use crate::error::ReportError;
use crate::text::{clock_text, date_text, format_clock, format_date, format_hours, hours_text};
use crate::time_entry::{entries_view, EntryView, TimeEntry};
use crate::totals::{date_before, is_date_before, DayTotals, DurationTotals, ProjectTotals, TagTotal};

verus! {

/// Entries are in ascending order of their start.
pub open spec fn sorted_by_start(s: Seq<EntryView>) -> bool {
    forall|i: int, j: int| 0 <= i < j < s.len() ==> s[i].start <= s[j].start
}

/// Whether an entry starts at `t`.
pub open spec fn starts_at(t: i64) -> spec_fn(EntryView) -> bool {
    |e: EntryView| e.start == t
}

/// The entries of `s` that start at `t`, in their order in `s`.
pub open spec fn with_start(s: Seq<EntryView>, t: i64) -> Seq<EntryView> {
    s.filter(starts_at(t))
}

proof fn lemma_filter_none(s: Seq<EntryView>, t: i64)
    requires
        forall|i: int| 0 <= i < s.len() ==> s[i].start != t,
    ensures
        with_start(s, t) == Seq::<EntryView>::empty(),
    decreases s.len(),
{
    reveal(Seq::filter);
    if s.len() > 0 {
        lemma_filter_none(s.drop_last(), t);
    }
}

proof fn lemma_filter_push(s: Seq<EntryView>, x: EntryView, t: i64)
    ensures
        with_start(s.push(x), t) == if x.start == t {
            with_start(s, t).push(x)
        } else {
            with_start(s, t)
        },
{
    reveal(Seq::filter);
    assert(s.push(x).drop_last() == s);
}

/// Inserting `x` after every entry that starts no later than `x` keeps each
/// group of equal starts in order and appends `x` to its own group.
proof fn lemma_insert_keeps_groups(s: Seq<EntryView>, pos: int, x: EntryView, t: i64)
    requires
        0 <= pos <= s.len(),
        forall|k: int| pos <= k < s.len() ==> s[k].start > x.start,
    ensures
        with_start(s.insert(pos, x), t) == if x.start == t {
            with_start(s, t).push(x)
        } else {
            with_start(s, t)
        },
{
    let a = s.take(pos);
    let b = s.skip(pos);
    assert(s == a + b);
    assert(s.insert(pos, x) == a + seq![x] + b);
    Seq::filter_distributes_over_add(a, b, starts_at(t));
    Seq::filter_distributes_over_add(a + seq![x], b, starts_at(t));
    Seq::filter_distributes_over_add(a, seq![x], starts_at(t));
    lemma_filter_push(Seq::<EntryView>::empty(), x, t);
    assert(Seq::<EntryView>::empty().push(x) == seq![x]);
    reveal(Seq::filter);
    assert(Seq::<EntryView>::empty().filter(starts_at(t)) =~= Seq::<EntryView>::empty());
    if x.start == t {
        lemma_filter_none(b, t);
        assert(with_start(s, t) == with_start(a, t));
        assert(with_start(a, t) + seq![x] == with_start(a, t).push(x));
    } else {
        assert(with_start(seq![x], t) =~= Seq::<EntryView>::empty());
    }
}

/// The entries in ascending order of their start; entries with equal starts
/// keep their relative order.
pub fn sort_by_start(time_entries: &[TimeEntry]) -> (r: Vec<TimeEntry>)
    ensures
        sorted_by_start(entries_view(r@)),
        forall|t: i64|
            #[trigger] with_start(entries_view(r@), t) == with_start(entries_view(time_entries@), t),
        r@.len() == time_entries@.len(),
{
    let ghost input = entries_view(time_entries@);
    let mut out: Vec<TimeEntry> = Vec::new();
    let mut i: usize = 0;
    while i < time_entries.len()
        invariant
            i <= time_entries@.len(),
            input == entries_view(time_entries@),
            out@.len() == i,
            sorted_by_start(entries_view(out@)),
            forall|t: i64|
                #[trigger] with_start(entries_view(out@), t) == with_start(input.take(i as int), t),
        decreases time_entries.len() - i,
    {
        let x = time_entries[i].duplicate();
        let ghost v = entries_view(out@);
        let mut pos: usize = 0;
        while pos < out.len() && out[pos].start <= x.start
            invariant
                pos <= out@.len(),
                v == entries_view(out@),
                forall|k: int| 0 <= k < pos ==> v[k].start <= x.start,
            decreases out.len() - pos,
        {
            pos = pos + 1;
        }
        proof {
            assert forall|k: int| pos <= k < v.len() implies v[k].start > x.start by {
                if pos < v.len() {
                    assert(v[pos as int].start > x.start);
                }
            }
        }
        out.insert(pos, x);
        proof {
            assert(entries_view(out@) =~= v.insert(pos as int, x@));
            assert(input.take(i + 1) == input.take(i as int).push(x@));
            assert forall|t: i64| #[trigger]
                with_start(entries_view(out@), t) == with_start(input.take(i + 1), t) by {
                lemma_insert_keeps_groups(v, pos as int, x@, t);
                lemma_filter_push(input.take(i as int), x@, t);
            }
        }
        i = i + 1;
    }
    assert(input.take(input.len() as int) == input);
    out
}

} // verus!

verus! {

/// One line of the entry list: `- HH:MM ~ HH:MM: description`.
pub open spec fn entry_line(start: Seq<char>, stop: Seq<char>, description: Seq<char>) -> Seq<
    char,
> {
    "- "@ + start + " ~ "@ + stop + ": "@ + description + "\n"@
}

/// The clock time at which an entry stopped, or `now` where it runs on.
pub open spec fn stop_text(stop: Option<CivilDateTime>) -> Seq<char> {
    match stop {
        Some(c) => clock_text(c),
        None => "now"@,
    }
}

/// One line of the entry list for an entry with the given local start and
/// stop times.
pub fn format_entry_line(
    start: &CivilDateTime,
    stop: &Option<CivilDateTime>,
    description: &String,
) -> (r: String)
    requires
        start.wf(),
        stop matches Some(c) ==> c.wf(),
    ensures
        r@ == entry_line(clock_text(*start), stop_text(*stop), description@),
{
    let mut s = String::from_str("- ");
    let start_text = format_clock(start);
    s.append(start_text.as_str());
    s.append(" ~ ");
    match stop {
        Some(c) => {
            let stop_clock = format_clock(c);
            s.append(stop_clock.as_str());
        },
        None => {
            s.append("now");
        },
    }
    s.append(": ");
    s.append(description.as_str());
    s.append("\n");
    s
}

/// One line of the totals list: `  - tag: hours`.
pub open spec fn tag_line(t: TagTotal) -> Seq<char> {
    "  - "@ + t.tag@ + ": "@ + hours_text(t.seconds as int) + "\n"@
}

/// The lines of the tag totals, in order.
pub open spec fn tag_lines(s: Seq<TagTotal>) -> Seq<char>
    decreases s.len(),
{
    if s.len() == 0 {
        Seq::empty()
    } else {
        tag_lines(s.drop_last()) + tag_line(s.last())
    }
}

/// The block of one project: `- project` and a line per tag.
pub open spec fn project_block(p: ProjectTotals) -> Seq<char> {
    "- "@ + p.project@ + "\n"@ + tag_lines(p.tags@)
}

/// The blocks of the projects, in order.
pub open spec fn durations_text(s: Seq<ProjectTotals>) -> Seq<char>
    decreases s.len(),
{
    if s.len() == 0 {
        Seq::empty()
    } else {
        durations_text(s.drop_last()) + project_block(s.last())
    }
}

/// The section of one day: `## YYYY-MM-DD` and the blocks of its projects.
pub open spec fn day_section(d: DayTotals) -> Seq<char> {
    "## "@ + date_text(d.date.year as int, d.date.month as nat, d.date.day as nat) + "\n"@
        + durations_text(d.totals.projects@)
}

/// The lines of one project's tag totals.
pub fn format_project_block(p: &ProjectTotals) -> (r: String)
    ensures
        r@ == project_block(*p),
{
    let mut s = String::from_str("- ");
    s.append(p.project.as_str());
    s.append("\n");
    let ghost head = s@;
    let mut i: usize = 0;
    while i < p.tags.len()
        invariant
            i <= p.tags@.len(),
            s@ == head + tag_lines(p.tags@.take(i as int)),
        decreases p.tags.len() - i,
    {
        let t = &p.tags[i];
        s.append("  - ");
        s.append(t.tag.as_str());
        s.append(": ");
        let hours = format_hours(t.seconds);
        s.append(hours.as_str());
        s.append("\n");
        proof {
            assert(p.tags@.take(i + 1).drop_last() == p.tags@.take(i as int));
            assert(p.tags@.take(i + 1).last() == *t);
            assert(s@ =~= head + tag_lines(p.tags@.take(i + 1)));
        }
        i = i + 1;
    }
    assert(p.tags@.take(p.tags@.len() as int) == p.tags@);
    s
}

/// The blocks of all projects of the totals, in order.
pub fn format_durations(totals: &DurationTotals) -> (r: String)
    ensures
        r@ == durations_text(totals.projects@),
{
    let mut s = String::new();
    let mut i: usize = 0;
    while i < totals.projects.len()
        invariant
            i <= totals.projects@.len(),
            s@ == durations_text(totals.projects@.take(i as int)),
        decreases totals.projects.len() - i,
    {
        let block = format_project_block(&totals.projects[i]);
        s.append(block.as_str());
        proof {
            assert(totals.projects@.take(i + 1).drop_last() == totals.projects@.take(i as int));
            assert(totals.projects@.take(i + 1).last() == totals.projects@[i as int]);
        }
        i = i + 1;
    }
    assert(totals.projects@.take(totals.projects@.len() as int) == totals.projects@);
    s
}

/// The sections of the days taken in the order of the indices `order`.
pub open spec fn ordered_daily_text(days: Seq<DayTotals>, order: Seq<usize>) -> Seq<char>
    decreases order.len(),
{
    if order.len() == 0 {
        Seq::empty()
    } else {
        ordered_daily_text(days, order.drop_last()) + day_section(days[order.last() as int])
    }
}

/// `order` lists each index of `days` once, by ascending date.
pub open spec fn date_order(days: Seq<DayTotals>, order: Seq<usize>) -> bool {
    &&& order.len() == days.len()
    &&& forall|i: int| 0 <= i < order.len() ==> #[trigger] order[i] < days.len()
    &&& order.no_duplicates()
    &&& forall|i: int, j: int|
        0 <= i < j < order.len() ==> !date_before(
            days[order[j] as int].date,
            days[order[i] as int].date,
        )
}

/// The indices of the days in ascending order of date; days with the same
/// date keep their order.
pub fn order_by_date(days: &[DayTotals]) -> (r: Vec<usize>)
    ensures
        date_order(days@, r@),
{
    let ghost d = days@;
    let mut order: Vec<usize> = Vec::new();
    let mut k: usize = 0;
    while k < days.len()
        invariant
            k <= days@.len(),
            d == days@,
            order@.len() == k,
            forall|i: int| 0 <= i < order@.len() ==> #[trigger] order@[i] < k,
            order@.no_duplicates(),
            forall|i: int, j: int|
                0 <= i < j < order@.len() ==> !date_before(
                    d[order@[j] as int].date,
                    d[order@[i] as int].date,
                ),
        decreases days.len() - k,
    {
        let dk = days[k].date;
        let mut pos: usize = 0;
        while pos < order.len() && !is_date_before(dk, days[order[pos]].date)
            invariant
                pos <= order@.len(),
                d == days@,
                forall|i: int| 0 <= i < order@.len() ==> #[trigger] order@[i] < k,
                k < days@.len(),
                dk == d[k as int].date,
                forall|q: int| 0 <= q < pos ==> !date_before(dk, d[order@[q] as int].date),
            decreases order.len() - pos,
        {
            pos = pos + 1;
        }
        let ghost before = order@;
        proof {
            assert forall|b: int| pos <= b < before.len() implies !date_before(
                d[before[b] as int].date,
                dk,
            ) by {
                if date_before(d[before[b] as int].date, dk) {
                    assert(date_before(dk, d[before[pos as int] as int].date));
                    if b > pos {
                        assert(!date_before(d[before[b] as int].date, d[before[pos as int] as int].date));
                    }
                }
            }
        }
        order.insert(pos, k);
        proof {
            assert(order@ == before.insert(pos as int, k));
            assert forall|i: int| 0 <= i < order@.len() implies #[trigger] order@[i] < k + 1 by {
                if i < pos {
                    assert(order@[i] == before[i]);
                } else if i > pos {
                    assert(order@[i] == before[i - 1]);
                }
            }
            assert forall|i: int, j: int| 0 <= i < j < order@.len() implies order@[i] != order@[j] by {
                if i < pos && j > pos {
                    assert(order@[j] == before[j - 1]);
                } else if i > pos {
                    assert(order@[i] == before[i - 1]);
                    assert(order@[j] == before[j - 1]);
                } else if j == pos {
                    assert(order@[i] == before[i]);
                } else if i == pos {
                    assert(order@[j] == before[j - 1]);
                }
            }
            assert forall|i: int, j: int| 0 <= i < j < order@.len() implies !date_before(
                d[order@[j] as int].date,
                d[order@[i] as int].date,
            ) by {
                if j < pos {
                } else if j == pos {
                    assert(order@[i] == before[i]);
                } else if i < pos {
                    assert(order@[j] == before[j - 1]);
                    assert(order@[i] == before[i]);
                } else if i == pos {
                    assert(order@[j] == before[j - 1]);
                } else {
                    assert(order@[j] == before[j - 1]);
                    assert(order@[i] == before[i - 1]);
                }
            }
        }
        k = k + 1;
    }
    order
}

/// The sections of the days, taken in the order of the indices `order`.
pub fn format_days_in_order(days: &[DayTotals], order: &[usize]) -> (r: String)
    requires
        forall|i: int| 0 <= i < order@.len() ==> #[trigger] order@[i] < days@.len(),
    ensures
        r@ == ordered_daily_text(days@, order@),
{
    let mut s = String::new();
    let mut i: usize = 0;
    while i < order.len()
        invariant
            i <= order@.len(),
            forall|k: int| 0 <= k < order@.len() ==> #[trigger] order@[k] < days@.len(),
            s@ == ordered_daily_text(days@, order@.take(i as int)),
        decreases order.len() - i,
    {
        let d = &days[order[i]];
        s.append("## ");
        let date = format_date(d.date.year, d.date.month, d.date.day);
        s.append(date.as_str());
        s.append("\n");
        let body = format_durations(&d.totals);
        s.append(body.as_str());
        proof {
            assert(order@.take(i + 1).drop_last() == order@.take(i as int));
            assert(order@.take(i + 1).last() == order@[i as int]);
            assert(s@ =~= ordered_daily_text(days@, order@.take(i + 1)));
        }
        i = i + 1;
    }
    assert(order@.take(order@.len() as int) == order@);
    s
}

/// The lines of the entry list for entries with the given local start and
/// stop times, in order.
pub open spec fn entries_text(
    entries: Seq<TimeEntry>,
    starts: Seq<CivilDateTime>,
    stops: Seq<Option<CivilDateTime>>,
) -> Seq<char>
    decreases entries.len(),
{
    if entries.len() == 0 || starts.len() != entries.len() || stops.len() != entries.len() {
        Seq::empty()
    } else {
        entries_text(entries.drop_last(), starts.drop_last(), stops.drop_last()) + entry_line(
            clock_text(starts.last()),
            stop_text(stops.last()),
            entries.last().description@,
        )
    }
}

/// Every start and stop time lies in the range of its clock fields.
pub open spec fn clock_times_wf(starts: Seq<CivilDateTime>, stops: Seq<Option<CivilDateTime>>) -> bool {
    &&& forall|i: int| 0 <= i < starts.len() ==> (#[trigger] starts[i]).wf()
    &&& forall|i: int| 0 <= i < stops.len() ==> (#[trigger] stops[i] matches Some(c) ==> c.wf())
}

/// The lines of the entry list: for entry `i`, its local start `starts[i]`
/// and its local stop `stops[i]`, or `now` where it has none.
pub fn format_time_entries(
    entries: &[TimeEntry],
    starts: &[CivilDateTime],
    stops: &[Option<CivilDateTime>],
) -> (r: String)
    requires
        starts@.len() == entries@.len(),
        stops@.len() == entries@.len(),
        clock_times_wf(starts@, stops@),
    ensures
        r@ == entries_text(entries@, starts@, stops@),
{
    let mut s = String::new();
    let mut i: usize = 0;
    while i < entries.len()
        invariant
            i <= entries@.len(),
            starts@.len() == entries@.len(),
            stops@.len() == entries@.len(),
            clock_times_wf(starts@, stops@),
            s@ == entries_text(entries@.take(i as int), starts@.take(i as int), stops@.take(i as int)),
        decreases entries.len() - i,
    {
        let line = format_entry_line(&starts[i], &stops[i], &entries[i].description);
        s.append(line.as_str());
        proof {
            assert(entries@.take(i + 1).drop_last() == entries@.take(i as int));
            assert(starts@.take(i + 1).drop_last() == starts@.take(i as int));
            assert(stops@.take(i + 1).drop_last() == stops@.take(i as int));
            assert(entries@.take(i + 1).last() == entries@[i as int]);
            assert(starts@.take(i + 1).last() == starts@[i as int]);
            assert(stops@.take(i + 1).last() == stops@[i as int]);
        }
        i = i + 1;
    }
    proof {
        assert(entries@.take(entries@.len() as int) == entries@);
        assert(starts@.take(starts@.len() as int) == starts@);
        assert(stops@.take(stops@.len() as int) == stops@);
    }
    s
}

/// An entry has a local stop time exactly where it has stopped.
pub open spec fn stops_match(entries: Seq<TimeEntry>, stops: Seq<Option<CivilDateTime>>) -> bool {
    forall|i: int| 0 <= i < stops.len() ==> (#[trigger] stops[i] is Some <==> entries[i].stop is Some)
}

/// `text` is the entry list of `time_entries`: the entries sorted by start,
/// equal starts in their given order, one line each with some local start
/// and stop clock times.
pub open spec fn is_entry_list(time_entries: Seq<TimeEntry>, text: Seq<char>) -> bool {
    exists|sorted: Seq<TimeEntry>, starts: Seq<CivilDateTime>, stops: Seq<Option<CivilDateTime>>|
        #![trigger entries_text(sorted, starts, stops)]
        {
            &&& sorted_by_start(entries_view(sorted))
            &&& forall|t: i64|
                #[trigger] with_start(entries_view(sorted), t) == with_start(
                    entries_view(time_entries),
                    t,
                )
            &&& starts.len() == sorted.len()
            &&& stops.len() == sorted.len()
            &&& clock_times_wf(starts, stops)
            &&& stops_match(sorted, stops)
            &&& text == entries_text(sorted, starts, stops)
        }
}

/// The local start and stop clock times of each entry; fails with
/// `TimeConversionError` where an instant cannot be represented.
fn local_clock_times(entries: &[TimeEntry]) -> (r: Result<
    (Vec<CivilDateTime>, Vec<Option<CivilDateTime>>),
    ReportError,
>)
    ensures
        r matches Ok((starts, stops)) ==> starts@.len() == entries@.len() && stops@.len()
            == entries@.len() && clock_times_wf(starts@, stops@) && stops_match(entries@, stops@),
        r matches Err(e) ==> e == ReportError::TimeConversionError,
{
    let mut starts: Vec<CivilDateTime> = Vec::new();
    let mut stops: Vec<Option<CivilDateTime>> = Vec::new();
    let mut i: usize = 0;
    while i < entries.len()
        invariant
            i <= entries@.len(),
            starts@.len() == i,
            stops@.len() == i,
            clock_times_wf(starts@, stops@),
            forall|j: int| 0 <= j < i ==> (#[trigger] stops@[j] is Some <==> entries@[j].stop is Some),
        decreases entries.len() - i,
    {
        let entry = &entries[i];
        let start = match local_civil_of(entry.start) {
            Some(c) => c,
            None => return Err(ReportError::TimeConversionError),
        };
        let stop = match entry.stop {
            Some(t) => match local_civil_of(t) {
                Some(c) => Some(c),
                None => return Err(ReportError::TimeConversionError),
            },
            None => None,
        };
        starts.push(start);
        stops.push(stop);
        i = i + 1;
    }
    Ok((starts, stops))
}

/// Relies on std's `Write::write_all`: `true` where every byte of `text` was
/// written.
#[verifier::external_body]
fn write_text<W: std::io::Write>(writer: &mut W, text: &str) -> (ok: bool) {
    writer.write_all(text.as_bytes()).is_ok()
}

/// Writes entries and totals as Markdown lists.
pub struct ConsoleMarkdownList<W> {
    writer: W,
    written: Ghost<Seq<char>>,
}

impl<W: std::io::Write> ConsoleMarkdownList<W> {
    /// The writer that the list goes to.
    pub closed spec fn writer(&self) -> W {
        self.writer
    }

    /// The text handed to the writer so far.
    pub closed spec fn written(&self) -> Seq<char> {
        self.written@
    }

    /// A list that writes to `writer`.
    pub fn new(writer: W) -> (r: Self)
        ensures
            r.writer() == writer,
            r.written() == Seq::<char>::empty(),
    {
        Self { writer, written: Ghost(Seq::empty()) }
    }

    fn write(&mut self, text: &str) -> (r: Result<(), ReportError>)
        ensures
            r matches Err(e) ==> e == ReportError::OutputError,
            r is Ok ==> final(self).written() == old(self).written() + text@,
    {
        if write_text(&mut self.writer, text) {
            self.written = Ghost(self.written@ + text@);
            Ok(())
        } else {
            Err(ReportError::OutputError)
        }
    }

    /// Writes one line per entry, in ascending order of start (equal starts
    /// keep their order), with local clock times; an entry that has not
    /// stopped shows `now` as its end.
    pub fn show_time_entries(&mut self, time_entries: &[TimeEntry]) -> (r: Result<(), ReportError>)
        ensures
            r matches Err(e) ==> e == ReportError::TimeConversionError || e
                == ReportError::OutputError,
            r is Ok ==> is_entry_list(
                time_entries@,
                final(self).written().subrange(
                    old(self).written().len() as int,
                    final(self).written().len() as int,
                ),
            ),
            r is Ok ==> final(self).written().subrange(0, old(self).written().len() as int)
                == old(self).written(),
    {
        let sorted = sort_by_start(time_entries);
        let (starts, stops) = match local_clock_times(sorted.as_slice()) {
            Ok(times) => times,
            Err(e) => return Err(e),
        };
        let text = format_time_entries(sorted.as_slice(), starts.as_slice(), stops.as_slice());
        let ghost before = self.written@;
        proof {
            assert(is_entry_list(time_entries@, text@)) by {
                assert(entries_text(sorted@, starts@, stops@) == text@);
            }
        }
        let r = self.write(text.as_str());
        proof {
            if r is Ok {
                assert(self.written@.subrange(before.len() as int, self.written@.len() as int) =~= text@);
                assert(self.written@.subrange(0, before.len() as int) =~= before);
            }
        }
        r
    }

    /// Writes a line per project, each followed by a line per tag with its
    /// hours.
    pub fn show_durations(&mut self, durations: &DurationTotals) -> (r: Result<(), ReportError>)
        ensures
            r matches Err(e) ==> e == ReportError::OutputError,
            r is Ok ==> final(self).written() == old(self).written() + durations_text(
                durations.projects@,
            ),
    {
        let text = format_durations(durations);
        self.write(text.as_str())
    }

    /// Writes, in ascending order of date, a heading per day followed by the
    /// totals of that day.
    pub fn show_multi_durations(&mut self, durations: &[DayTotals]) -> (r: Result<(), ReportError>)
        ensures
            r matches Err(e) ==> e == ReportError::OutputError,
            r is Ok ==> exists|order: Seq<usize>|
                #![trigger ordered_daily_text(durations@, order)]
                date_order(durations@, order) && final(self).written() == old(self).written()
                    + ordered_daily_text(durations@, order),
    {
        let order = order_by_date(durations);
        let text = format_days_in_order(durations, order.as_slice());
        let r = self.write(text.as_str());
        proof {
            if r is Ok {
                assert(date_order(durations@, order@));
            }
        }
        r
    }
}

} // verus!

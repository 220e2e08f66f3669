//! The week view's figures: the week's entries, their total, the
//! per-project breakdown and the entries of each local day with its total.
use rusqlite::Connection;
use vstd::prelude::*;

use crate::aggregate::{
    breakdown_by_project, calculate_entries_duration, capped, group_by_calendar_day, is_breakdown,
    is_day_grouping, lemma_day_totals_add_up, sum_group_totals, total_seconds, DayEntries, ProjectTime,
};
use crate::calendar::{days_since_monday, get_current_week_range};
use crate::db::{
    entry_table, get_all_projects, get_entries_for_date_range, lists_entries_where, lists_projects,
    names_ordered, newest_first, project_table, starts_within, EntryRow, Project, StorageError,
    TimeEntry,
};

verus! {

/// The Monday-to-Sunday week around a day, as the week view shows it.
pub struct WeekSummary {
    pub first_day: i64,
    pub last_day: i64,
    /// The entries read around the week, most recent first.
    pub read: Vec<TimeEntry>,
    /// The local day of each of `read`, at the same position.
    pub read_days: Vec<i64>,
    /// The week's entries: those of `read` whose local day is in the week.
    pub entries: Vec<TimeEntry>,
    /// The local day of each of `entries`, at the same position.
    pub entry_days: Vec<i64>,
    pub total_seconds: i64,
    /// The projects the breakdown is labelled from.
    pub projects: Vec<Project>,
    pub breakdown: Vec<ProjectTime>,
    pub days: Vec<DayEntries>,
    /// Total of each group of `days`, at the same position.
    pub day_totals: Vec<i64>,
}

/// `w` holds, once each, exactly the stored entries whose start lies, in
/// UTC, from the day before `first` to the day after `last`.
pub open spec fn reads_around(w: Seq<TimeEntry>, t: Map<i64, EntryRow>, first: int, last: int) -> bool {
    lists_entries_where(w, t, |e: EntryRow| starts_within(e, first - 1, last + 1, 0))
}

/// `window` is what the week view reads around the week `first..=last`,
/// `wdays` the local day of each of its entries as `local_day` gave it,
/// and `entries` with `days` the part of it that falls in the week.
pub open spec fn week_read<F: Fn(i64) -> i64>(
    window: Seq<TimeEntry>,
    wdays: Seq<i64>,
    t: Map<i64, EntryRow>,
    local_day: F,
    first: int,
    last: int,
    entries: Seq<TimeEntry>,
    days: Seq<i64>,
) -> bool {
    &&& reads_around(window, t, first, last)
    &&& newest_first(window)
    &&& wdays.len() == window.len()
    &&& forall|i: int| 0 <= i < window.len() ==> local_day.ensures((window[i].start_time,), #[trigger] wdays[i])
    &&& (entries, days) == within_days(window, wdays, first, last)
}

/// The entries of `rows` whose day in `ds` (at the same position) lies
/// from `first` to `last`, with those days, in their order.
pub open spec fn within_days(rows: Seq<TimeEntry>, ds: Seq<i64>, first: int, last: int) -> (Seq<TimeEntry>, Seq<i64>)
    decreases rows.len(),
{
    if rows.len() == 0 || ds.len() == 0 {
        (Seq::empty(), Seq::empty())
    } else {
        let (a, b) = within_days(rows.drop_last(), ds.drop_last(), first, last);
        if first <= ds.last() <= last { (a.push(rows.last()), b.push(ds.last())) } else { (a, b) }
    }
}

/// The entries of `rows` whose day `days[i]` lies from `first` to `last`
/// (both included), with those days, keeping their order.
pub fn select_days(rows: &Vec<TimeEntry>, days: &Vec<i64>, first: i64, last: i64) -> (r: (Vec<TimeEntry>, Vec<i64>))
    requires
        days.len() == rows.len(),
    ensures
        (r.0@, r.1@) == within_days(rows@, days@, first as int, last as int),
{
    let mut out: Vec<TimeEntry> = Vec::new();
    let mut out_days: Vec<i64> = Vec::new();
    let mut i: usize = 0;
    while i < rows.len()
        invariant
            days.len() == rows.len(),
            0 <= i <= rows.len(),
            (out@, out_days@) == within_days(rows@.take(i as int), days@.take(i as int), first as int, last as int),
        decreases rows.len() - i,
    {
        assert(rows@.take(i + 1).drop_last() =~= rows@.take(i as int));
        assert(days@.take(i + 1).drop_last() =~= days@.take(i as int));
        if first <= days[i] && days[i] <= last {
            out.push(rows[i].duplicate());
            out_days.push(days[i]);
        }
        i += 1;
    }
    assert(rows@.take(rows.len() as int) =~= rows@);
    assert(days@.take(rows.len() as int) =~= days@);
    (out, out_days)
}

/// Reads and sums up the week that holds the local day `today`, counting
/// running entries up to `now`. `local_day` gives the local calendar day of
/// an instant; entries are read from the day before the week to the day
/// after (in UTC, which covers every zone) and kept where their local day
/// falls in the week.
pub fn week_summary<F: Fn(i64) -> i64>(conn: &Connection, today: i64, local_day: &F, now: i64) -> (r: Result<WeekSummary, StorageError>)
    requires
        i64::MIN + 8 <= today <= i64::MAX - 8,
        forall|s: i64| local_day.requires((s,)),
    ensures
        r is Ok ==> r->Ok_0.first_day == today - days_since_monday(today as int)
            && r->Ok_0.last_day == r->Ok_0.first_day + 6,
        r is Ok ==> week_read(r->Ok_0.read@, r->Ok_0.read_days@, entry_table(*conn), *local_day,
            r->Ok_0.first_day as int, r->Ok_0.last_day as int, r->Ok_0.entries@, r->Ok_0.entry_days@),
        r is Ok ==> r->Ok_0.total_seconds == capped(total_seconds(r->Ok_0.entries@, now as int)),
        r is Ok ==> lists_projects(r->Ok_0.projects@, project_table(*conn)) && names_ordered(r->Ok_0.projects@),
        r is Ok ==> is_breakdown(r->Ok_0.breakdown@, r->Ok_0.entries@, r->Ok_0.projects@, now as int),
        r is Ok ==> is_day_grouping(r->Ok_0.days@, r->Ok_0.entries@, r->Ok_0.entry_days@),
        r is Ok ==> sum_group_totals(r->Ok_0.days@, now as int) == total_seconds(r->Ok_0.entries@, now as int),
        r is Ok ==> r->Ok_0.day_totals.len() == r->Ok_0.days.len() && forall|g: int| 0 <= g < r->Ok_0.days.len()
            ==> #[trigger] r->Ok_0.day_totals[g] == capped(total_seconds(r->Ok_0.days[g].entries@, now as int)),
{
    let (first_day, last_day) = get_current_week_range(today);
    let window = match get_entries_for_date_range(conn, first_day - 1, last_day + 1, 0) {
        Ok(v) => v,
        Err(e) => { return Err(e); },
    };
    let window_days = local_days_of(&window, local_day);
    let (entries, entry_days) = select_days(&window, &window_days, first_day, last_day);
    let projects = match get_all_projects(conn) {
        Ok(v) => v,
        Err(e) => { return Err(e); },
    };
    let total = calculate_entries_duration(&entries, now);
    let breakdown = breakdown_by_project(&entries, &projects, now);
    proof {
        let (a, b) = within_days(window@, window_days@, first_day as int, last_day as int);
        lemma_within_days_lengths(window@, window_days@, first_day as int, last_day as int);
    }
    let days = group_by_calendar_day(&entries, &entry_days);
    proof { lemma_day_totals_add_up(days@, entries@, entry_days@, now as int); }
    let day_totals = day_totals_of(&days, now);
    let summary = WeekSummary {
        first_day,
        last_day,
        read: window,
        read_days: window_days,
        entries,
        entry_days,
        total_seconds: total,
        projects,
        breakdown,
        days,
        day_totals,
    };
    Ok(summary)
}

/// The local day of each entry's start, as `local_day` gives it.
fn local_days_of<F: Fn(i64) -> i64>(entries: &Vec<TimeEntry>, local_day: &F) -> (r: Vec<i64>)
    requires
        forall|s: i64| local_day.requires((s,)),
    ensures
        r.len() == entries.len(),
        forall|j: int| 0 <= j < entries.len() ==> local_day.ensures((entries[j].start_time,), #[trigger] r[j]),
{
    let mut out: Vec<i64> = Vec::new();
    let mut i: usize = 0;
    while i < entries.len()
        invariant
            forall|s: i64| local_day.requires((s,)),
            0 <= i <= entries.len(),
            out.len() == i,
            forall|j: int| 0 <= j < i ==> local_day.ensures((entries[j].start_time,), #[trigger] out[j]),
        decreases entries.len() - i,
    {
        let d = local_day(entries[i].start_time);
        out.push(d);
        i += 1;
    }
    out
}

/// The total of each group of days.
fn day_totals_of(days: &Vec<DayEntries>, now: i64) -> (r: Vec<i64>)
    ensures
        r.len() == days.len(),
        forall|h: int| 0 <= h < days.len() ==> #[trigger] r[h] == capped(total_seconds(days[h].entries@, now as int)),
{
    let mut out: Vec<i64> = Vec::new();
    let mut g: usize = 0;
    while g < days.len()
        invariant
            0 <= g <= days.len(),
            out.len() == g,
            forall|h: int| 0 <= h < g ==> #[trigger] out[h] == capped(total_seconds(days[h].entries@, now as int)),
        decreases days.len() - g,
    {
        out.push(calculate_entries_duration(&days[g].entries, now));
        g += 1;
    }
    out
}

proof fn lemma_within_days_lengths(rows: Seq<TimeEntry>, ds: Seq<i64>, first: int, last: int)
    requires
        rows.len() == ds.len(),
    ensures
        within_days(rows, ds, first, last).0.len() == within_days(rows, ds, first, last).1.len(),
    decreases rows.len(),
{
    if rows.len() > 0 {
        lemma_within_days_lengths(rows.drop_last(), ds.drop_last(), first, last);
    }
}

} // verus!

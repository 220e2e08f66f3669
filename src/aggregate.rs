//! Totals of tracked time over a set of entries: overall, per project, and
//! per calendar day. Nothing here reads the clock or the database: the
//! current instant and the projects are arguments.
use vstd::prelude::*;


use crate::db::{Project, TimeEntry};

verus! {

/// Seconds an entry covers: from its start to its end, or to `now` while it
/// runs; never negative.
pub open spec fn entry_seconds(e: TimeEntry, now: int) -> int {
    let end: int = match e.end_time {
        Some(t) => t as int,
        None => now,
    };
    if end > e.start_time as int { end - e.start_time } else { 0 }
}

/// Sum of `entry_seconds` over the entries whose project is `key`.
pub open spec fn project_seconds(es: Seq<TimeEntry>, key: Option<i64>, now: int) -> int
    decreases es.len(),
{
    if es.len() == 0 {
        0
    } else {
        project_seconds(es.drop_last(), key, now)
            + if es.last().project_id == key { entry_seconds(es.last(), now) } else { 0 }
    }
}

/// Sum of `entry_seconds` over all entries.
pub open spec fn total_seconds(es: Seq<TimeEntry>, now: int) -> int
    decreases es.len(),
{
    if es.len() == 0 { 0 } else { total_seconds(es.drop_last(), now) + entry_seconds(es.last(), now) }
}

/// A count of seconds as an `i64`, held at `i64::MAX` where it is larger.
pub open spec fn capped(x: int) -> int {
    if x > i64::MAX { i64::MAX as int } else { x }
}

/// The projects of the entries, each once, in the order they first occur
/// (`None` stands for entries without a project).
pub open spec fn group_keys(es: Seq<TimeEntry>) -> Seq<Option<i64>>
    decreases es.len(),
{
    if es.len() == 0 {
        Seq::empty()
    } else {
        let ks = group_keys(es.drop_last());
        if ks.contains(es.last().project_id) { ks } else { ks.push(es.last().project_id) }
    }
}

/// Name and colour shown for a group: those of the first project in `ps`
/// with its id, else "No Project" in grey.
pub open spec fn label_of(ps: Seq<Project>, key: Option<i64>) -> (Seq<char>, Seq<char>)
    decreases ps.len(),
{
    if key is None || ps.len() == 0 {
        ("No Project"@, "#888888"@)
    } else if ps[0].id == key->Some_0 {
        (ps[0].name@, ps[0].color@)
    } else {
        label_of(ps.drop_first(), key)
    }
}

/// The entries of `es` whose day in `ds` (at the same position) is `day`,
/// in their order.
pub open spec fn on_day(es: Seq<TimeEntry>, ds: Seq<i64>, day: int) -> Seq<TimeEntry>
    decreases es.len(),
{
    if es.len() == 0 || ds.len() == 0 {
        Seq::empty()
    } else {
        let rest = on_day(es.drop_last(), ds.drop_last(), day);
        if ds.last() == day { rest.push(es.last()) } else { rest }
    }
}

/// Tracked time of one project over a set of entries.
pub struct ProjectTime {
    pub project_id: Option<i64>,
    pub name: String,
    pub color: String,
    pub seconds: i64,
}

/// The entries of one calendar day.
pub struct DayEntries {
    pub day: i64,
    pub entries: Vec<TimeEntry>,
}

/// `r` is the per-project breakdown of `es`: one row for each project that
/// occurs, with its capped total up to `now` and its label from `ps`, the
/// largest total first and, at equal totals, the project that occurs first
/// in `es` first.
pub open spec fn is_breakdown(r: Seq<ProjectTime>, es: Seq<TimeEntry>, ps: Seq<Project>, now: int) -> bool {
    let keys = group_keys(es);
    &&& r.len() == keys.len()
    &&& forall|i: int| 0 <= i < r.len() ==> keys.contains(#[trigger] r[i].project_id)
    &&& forall|k: Option<i64>| keys.contains(k) ==> exists|i: int| 0 <= i < r.len() && r[i].project_id == k
    &&& forall|i: int, j: int| 0 <= i < j < r.len() ==> r[i].project_id != r[j].project_id
    &&& forall|i: int| 0 <= i < r.len() ==> #[trigger] r[i].seconds == capped(project_seconds(es, r[i].project_id, now))
        && (r[i].name@, r[i].color@) == label_of(ps, r[i].project_id)
    &&& forall|i: int, j: int| 0 <= i < j < r.len() ==> r[i].seconds >= r[j].seconds
    &&& forall|i: int, j: int| 0 <= i < j < r.len() && r[i].seconds == r[j].seconds
        ==> exists|a: int, b: int| 0 <= a < b < keys.len() && keys[a] == r[i].project_id && keys[b] == r[j].project_id
}

/// `r` splits `es` by their days `ds` (at the same positions): one
/// non-empty group per day that occurs, the latest day first, each with
/// its entries in their order in `es`.
pub open spec fn is_day_grouping(r: Seq<DayEntries>, es: Seq<TimeEntry>, ds: Seq<i64>) -> bool {
    &&& forall|g: int, h: int| 0 <= g < h < r.len() ==> r[g].day > r[h].day
    &&& forall|g: int| 0 <= g < r.len() ==> (#[trigger] r[g]).entries@ == on_day(es, ds, r[g].day as int)
        && r[g].entries.len() > 0
    &&& forall|i: int| 0 <= i < es.len() ==> holds_day(r, #[trigger] ds[i] as int)
}

/// Seconds one entry covers, up to `now` while it runs, never negative.
pub fn entry_duration(e: &TimeEntry, now: i64) -> (r: i64)
    ensures
        r == capped(entry_seconds(*e, now as int)),
        r >= 0,
{
    let end: i64 = match e.end_time {
        Some(t) => t,
        None => now,
    };
    if end > e.start_time {
        let d: i128 = end as i128 - e.start_time as i128;
        if d > i64::MAX as i128 { i64::MAX } else { d as i64 }
    } else {
        0
    }
}

/// Total seconds the entries cover (see `entry_duration`); held at
/// `i64::MAX` where the sum is larger.
pub fn calculate_entries_duration(entries: &Vec<TimeEntry>, now: i64) -> (r: i64)
    ensures
        r == capped(total_seconds(entries@, now as int)),
        r >= 0,
{
    let mut total: i64 = 0;
    let mut i: usize = 0;
    while i < entries.len()
        invariant
            0 <= i <= entries.len(),
            total == capped(total_seconds(entries@.take(i as int), now as int)),
            total >= 0,
        decreases entries.len() - i,
    {
        proof { lemma_total_nonneg(entries@.take(i as int), now as int); }
        let d = entry_duration(&entries[i], now);
        total = if d > i64::MAX - total { i64::MAX } else { total + d };
        assert(entries@.take(i + 1).drop_last() =~= entries@.take(i as int));
        i += 1;
    }
    assert(entries@.take(entries.len() as int) =~= entries@);
    total
}

proof fn lemma_total_nonneg(es: Seq<TimeEntry>, now: int)
    ensures
        total_seconds(es, now) >= 0,
    decreases es.len(),
{
    if es.len() > 0 {
        lemma_total_nonneg(es.drop_last(), now);
    }
}

proof fn lemma_project_nonneg(es: Seq<TimeEntry>, key: Option<i64>, now: int)
    ensures
        project_seconds(es, key, now) >= 0,
    decreases es.len(),
{
    if es.len() > 0 {
        lemma_project_nonneg(es.drop_last(), key, now);
    }
}

fn same_project(a: Option<i64>, b: Option<i64>) -> (r: bool)
    ensures
        r == (a == b),
{
    match (a, b) {
        (None, None) => true,
        (Some(x), Some(y)) => x == y,
        _ => false,
    }
}

/// Name and colour shown for the project `key`, looked up in `projects`.
pub fn project_label(projects: &Vec<Project>, key: Option<i64>) -> (r: (String, String))
    ensures
        (r.0@, r.1@) == label_of(projects@, key),
{
    let mut i: usize = 0;
    assert(projects@.skip(0) =~= projects@);
    match key {
        None => {},
        Some(id) => {
            while i < projects.len()
                invariant
                    0 <= i <= projects.len(),
                    key == Some(id),
                    label_of(projects@, key) == label_of(projects@.skip(i as int), key),
                decreases projects.len() - i,
            {
                if projects[i].id == id {
                    return (projects[i].name.clone(), projects[i].color.clone());
                }
                assert(projects@.skip(i as int).drop_first() =~= projects@.skip(i + 1));
                i += 1;
            }
        },
    }
    (String::from_str("No Project"), String::from_str("#888888"))
}

proof fn lemma_group_keys_distinct(es: Seq<TimeEntry>)
    ensures
        group_keys(es).no_duplicates(),
    decreases es.len(),
{
    if es.len() > 0 {
        lemma_group_keys_distinct(es.drop_last());
    }
}

proof fn lemma_absent_key_has_no_time(es: Seq<TimeEntry>, key: Option<i64>, now: int)
    requires
        !group_keys(es).contains(key),
    ensures
        project_seconds(es, key, now) == 0,
    decreases es.len(),
{
    if es.len() > 0 {
        let ks = group_keys(es.drop_last());
        if ks.contains(key) {
            let j = choose|j: int| 0 <= j < ks.len() && ks[j] == key;
            assert(group_keys(es)[j] == key);
        }
        if ks.contains(es.last().project_id) {
            let j = choose|j: int| 0 <= j < ks.len() && ks[j] == es.last().project_id;
            assert(group_keys(es)[j] == es.last().project_id);
        } else {
            assert(group_keys(es)[ks.len() as int] == es.last().project_id);
        }
        lemma_absent_key_has_no_time(es.drop_last(), key, now);
    }
}

spec fn has_rank(v: Seq<(Option<i64>, i64, usize)>, h: int) -> bool {
    exists|a: int| 0 <= a < v.len() && v[a].2 == h
}

fn add_capped(a: i64, b: i64) -> (r: i64)
    requires
        a >= 0,
        b >= 0,
    ensures
        r == capped(a + b),
{
    if b > i64::MAX - a { i64::MAX } else { a + b }
}

/// Tracked time per project over `entries`, up to `now` for a running
/// entry: one row for each project that occurs (and one for entries without
/// a project), named and coloured after the first project in `projects`
/// with its id, the largest total first and, at equal totals, the project
/// that occurs first in `entries` first. Totals are held at `i64::MAX`.
pub fn breakdown_by_project(entries: &Vec<TimeEntry>, projects: &Vec<Project>, now: i64) -> (r: Vec<ProjectTime>)
    ensures
        is_breakdown(r@, entries@, projects@, now as int),
{
    let ghost es = entries@;
    let ghost nw = now as int;
    // Totals per project, in the order the projects first occur.
    let mut groups: Vec<(Option<i64>, i64)> = Vec::new();
    let mut i: usize = 0;
    while i < entries.len()
        invariant
            es == entries@,
            nw == now as int,
            0 <= i <= entries.len(),
            groups.len() == group_keys(es.take(i as int)).len(),
            forall|g: int| 0 <= g < groups.len() ==> #[trigger] groups[g].0 == group_keys(es.take(i as int))[g]
                && groups[g].1 == capped(project_seconds(es.take(i as int), groups[g].0, nw)),
        decreases entries.len() - i,
    {
        let ghost prev = es.take(i as int);
        let ghost old_groups = groups@;
        let key = entries[i].project_id;
        let mut g: usize = 0;
        while g < groups.len() && !same_project(groups[g].0, key)
            invariant
                0 <= g <= groups.len(),
                forall|q: int| 0 <= q < g ==> #[trigger] groups[q].0 != key,
            decreases groups.len() - g,
        {
            g += 1;
        }
        let d = entry_duration(&entries[i], now);
        assert(es.take(i + 1).drop_last() =~= prev);
        assert(es.take(i + 1).last() == entries[i as int]);
        proof {
            assert forall|q: int| 0 <= q < groups.len() implies project_seconds(prev, #[trigger] groups[q].0, nw) >= 0 by {
                lemma_project_nonneg(prev, groups[q].0, nw);
            }
        }
        if g < groups.len() {
            let (k, t) = groups[g];
            proof {
                assert(group_keys(prev).contains(key)) by { assert(group_keys(prev)[g as int] == key); }
            }
            groups.set(g, (k, add_capped(t, d)));
            assert(groups[g as int].1 == capped(old_groups[g as int].1 + d));
        } else {
            proof {
                assert(!group_keys(prev).contains(key)) by {
                    if group_keys(prev).contains(key) {
                        let j = choose|j: int| 0 <= j < group_keys(prev).len() && group_keys(prev)[j] == key;
                        assert(groups[j].0 == key);
                    }
                }
                lemma_absent_key_has_no_time(prev, key, nw);
            }
            groups.push((key, d));
        }
        proof {
            let cur = es.take(i + 1);
            lemma_group_keys_distinct(prev);
            assert(d == capped(entry_seconds(entries[i as int], nw)));
            assert(cur.drop_last() =~= prev);
            assert(group_keys(cur) == (if group_keys(prev).contains(key) { group_keys(prev) } else { group_keys(prev).push(key) }));
            assert forall|q: int| 0 <= q < groups.len() implies #[trigger] groups[q].0 == group_keys(cur)[q]
                && groups[q].1 == capped(project_seconds(cur, groups[q].0, nw)) by {
                assert(project_seconds(cur, groups[q].0, nw) == project_seconds(prev, groups[q].0, nw)
                    + if key == groups[q].0 { entry_seconds(entries[i as int], nw) } else { 0 });
                if q < old_groups.len() {
                    assert(groups[q].0 == old_groups[q].0);
                    lemma_project_nonneg(prev, groups[q].0, nw);
                }
                if q < old_groups.len() && q != g {
                    assert(old_groups[q].0 != key);
                    assert(groups[q] == old_groups[q]);
                }
            }
        }
        i += 1;
    }
    assert(es.take(entries.len() as int) =~= es);
    let ghost keys = group_keys(es);
    proof { lemma_group_keys_distinct(es); }
    // Largest total first; at equal totals, the earlier group first.
    let mut ranked: Vec<(Option<i64>, i64, usize)> = Vec::new();
    let mut g: usize = 0;
    while g < groups.len()
        invariant
            es == entries@,
            nw == now as int,
            keys == group_keys(es),
            keys.no_duplicates(),
            groups.len() == keys.len(),
            forall|h: int| 0 <= h < groups.len() ==> #[trigger] groups[h].0 == keys[h]
                && groups[h].1 == capped(project_seconds(es, groups[h].0, nw)),
            0 <= g <= groups.len(),
            ranked.len() == g,
            forall|a: int| 0 <= a < ranked.len() ==> #[trigger] ranked[a].2 < g
                && ranked[a].0 == groups[ranked[a].2 as int].0 && ranked[a].1 == groups[ranked[a].2 as int].1,
            forall|a: int, b: int| 0 <= a < b < ranked.len() ==> ranked[a].1 > ranked[b].1
                || (ranked[a].1 == ranked[b].1 && ranked[a].2 < ranked[b].2),
            forall|h: int| 0 <= h < g ==> #[trigger] has_rank(ranked@, h),
        decreases groups.len() - g,
    {
        let (k, t) = groups[g];
        let mut p: usize = 0;
        while p < ranked.len() && ranked[p].1 >= t
            invariant
                0 <= p <= ranked.len(),
                forall|q: int| 0 <= q < p ==> #[trigger] ranked[q].1 >= t,
            decreases ranked.len() - p,
        {
            p += 1;
        }
        let ghost before = ranked@;
        ranked.insert(p, (k, t, g));
        proof {
            assert forall|h: int| 0 <= h < g + 1 implies #[trigger] has_rank(ranked@, h) by {
                if h == g {
                    assert(ranked[p as int].2 == h);
                } else {
                    assert(has_rank(before, h));
                    let a = choose|a: int| 0 <= a < before.len() && before[a].2 == h;
                    if a < p {
                        assert(ranked[a].2 == h);
                    } else {
                        assert(ranked[a + 1].2 == h);
                    }
                }
            }
        }
        g += 1;
    }
    let mut out: Vec<ProjectTime> = Vec::new();
    let mut a: usize = 0;
    while a < ranked.len()
        invariant
            es == entries@,
            nw == now as int,
            keys == group_keys(es),
            keys.no_duplicates(),
            groups.len() == keys.len(),
            forall|h: int| 0 <= h < groups.len() ==> #[trigger] groups[h].0 == keys[h]
                && groups[h].1 == capped(project_seconds(es, groups[h].0, nw)),
            ranked.len() == groups.len(),
            forall|b: int| 0 <= b < ranked.len() ==> #[trigger] ranked[b].2 < groups.len()
                && ranked[b].0 == groups[ranked[b].2 as int].0 && ranked[b].1 == groups[ranked[b].2 as int].1,
            forall|b: int, c: int| 0 <= b < c < ranked.len() ==> ranked[b].1 > ranked[c].1
                || (ranked[b].1 == ranked[c].1 && ranked[b].2 < ranked[c].2),
            forall|h: int| 0 <= h < groups.len() ==> #[trigger] has_rank(ranked@, h),
            0 <= a <= ranked.len(),
            out.len() == a,
            forall|b: int| 0 <= b < a ==> (#[trigger] out[b]).project_id == ranked[b].0 && out[b].seconds == ranked[b].1
                && (out[b].name@, out[b].color@) == label_of(projects@, ranked[b].0),
        decreases ranked.len() - a,
    {
        let (k, t, _) = ranked[a];
        let (name, color) = project_label(projects, k);
        out.push(ProjectTime { project_id: k, name, color, seconds: t });
        a += 1;
    }
    proof {
        assert forall|i: int| 0 <= i < out.len() implies #[trigger] out[i].seconds == capped(project_seconds(es, out[i].project_id, nw))
            && (out[i].name@, out[i].color@) == label_of(projects@, out[i].project_id) by {
            assert(groups[ranked[i].2 as int].0 == out[i].project_id);
        }
        assert forall|i: int, j: int| 0 <= i < j < out.len() implies out[i].project_id != out[j].project_id by {
            assert(ranked[i].2 != ranked[j].2);
            assert(keys[ranked[i].2 as int] != keys[ranked[j].2 as int]);
        }
        assert forall|k: Option<i64>| keys.contains(k) implies exists|i: int| 0 <= i < out.len() && out[i].project_id == k by {
            let h = choose|h: int| 0 <= h < keys.len() && keys[h] == k;
            assert(has_rank(ranked@, h));
            let b = choose|b: int| 0 <= b < ranked.len() && ranked[b].2 == h;
            assert(out[b].project_id == k);
        }
        assert forall|i: int| 0 <= i < out.len() implies keys.contains(#[trigger] out[i].project_id) by {
            assert(keys[ranked[i].2 as int] == out[i].project_id);
        }
        assert forall|i: int, j: int| 0 <= i < j < out.len() && out[i].seconds == out[j].seconds
            implies exists|a: int, b: int| 0 <= a < b < keys.len() && keys[a] == out[i].project_id
                && keys[b] == out[j].project_id by {
            assert(keys[ranked[i].2 as int] == out[i].project_id);
            assert(keys[ranked[j].2 as int] == out[j].project_id);
        }
    }
    out
}

/// Some group of `v` is for `day`.
pub open spec fn holds_day(v: Seq<DayEntries>, day: int) -> bool {
    exists|g: int| 0 <= g < v.len() && v[g].day == day
}

/// Splits entries by the calendar day they start on, `days[i]` being the
/// local day of `entries[i]`: one group per day that occurs, the latest day
/// first, each with its entries in their given order.
pub fn group_by_calendar_day(entries: &Vec<TimeEntry>, days: &Vec<i64>) -> (r: Vec<DayEntries>)
    requires
        days.len() == entries.len(),
    ensures
        is_day_grouping(r@, entries@, days@),
{
    let ghost es = entries@;
    let ghost ds = days@;
    let mut groups: Vec<DayEntries> = Vec::new();
    let mut i: usize = 0;
    while i < entries.len()
        invariant
            es == entries@,
            ds == days@,
            days.len() == entries.len(),
            0 <= i <= entries.len(),
            forall|g: int, h: int| 0 <= g < h < groups.len() ==> groups[g].day > groups[h].day,
            forall|g: int| 0 <= g < groups.len() ==> (#[trigger] groups[g]).entries@ == on_day(es.take(i as int), ds.take(i as int), groups[g].day as int)
                && groups[g].entries.len() > 0,
            forall|j: int| 0 <= j < i ==> holds_day(groups@, #[trigger] ds[j] as int),
            forall|d: int| !holds_day(groups@, d) ==> #[trigger] on_day(es.take(i as int), ds.take(i as int), d) == Seq::<TimeEntry>::empty(),
        decreases entries.len() - i,
    {
        let ghost prev = es.take(i as int);
        let ghost cur = es.take(i + 1);
        let ghost pd = ds.take(i as int);
        let ghost cd = ds.take(i + 1);
        let ghost old_groups = groups@;
        let e = entries[i].duplicate();
        let d = days[i];
        assert(cd.drop_last() =~= pd);
        assert(cd.last() == d);
        assert(cur.drop_last() =~= prev);
        assert(cur.last() == e);
        let mut p: usize = 0;
        while p < groups.len() && groups[p].day > d
            invariant
                0 <= p <= groups.len(),
                forall|q: int| 0 <= q < p ==> #[trigger] groups[q].day > d,
            decreases groups.len() - p,
        {
            p += 1;
        }
        let ghost placed: int = p as int;
        if p < groups.len() && groups[p].day == d {
            let mut grp = groups.remove(p);
            grp.entries.push(e);
            groups.insert(p, grp);
            assert(groups@ =~= old_groups.update(placed, groups[placed]));
        } else {
            let mut one: Vec<TimeEntry> = Vec::new();
            one.push(e);
            proof {
                if holds_day(old_groups, d as int) {
                    let g = choose|g: int| 0 <= g < old_groups.len() && old_groups[g].day == d;
                    if g >= p {
                        if g > p {
                            assert(old_groups[p as int].day > old_groups[g].day);
                        }
                    }
                }
                assert(on_day(prev, pd, d as int) == Seq::<TimeEntry>::empty());
                assert(one@ =~= on_day(cur, cd, d as int));
            }
            groups.insert(p, DayEntries { day: d, entries: one });
        }
        proof {
            assert(holds_day(groups@, d as int)) by { assert(groups[placed].day == d); }
            assert forall|g: int| 0 <= g < groups.len() implies (#[trigger] groups[g]).entries@ == on_day(cur, cd, groups[g].day as int)
                && groups[g].entries.len() > 0 by {
                if groups[g].day != d {
                    if g < placed {
                        assert(groups[g] == old_groups[g]);
                    } else if groups.len() == old_groups.len() {
                        assert(groups[g] == old_groups[g]);
                    } else {
                        assert(groups[g] == old_groups[g - 1]);
                    }
                }
            }
            assert forall|j: int| 0 <= j < i + 1 implies holds_day(groups@, #[trigger] ds[j] as int) by {
                if j < i {
                    let dj = ds[j] as int;
                    assert(holds_day(old_groups, dj));
                    let g = choose|g: int| 0 <= g < old_groups.len() && old_groups[g].day == dj;
                    if groups.len() == old_groups.len() || g < placed {
                        assert(groups[g].day == dj);
                    } else {
                        assert(groups[g + 1].day == dj);
                    }
                }
            }
            assert forall|dd: int| !holds_day(groups@, dd) implies #[trigger] on_day(cur, cd, dd) == Seq::<TimeEntry>::empty() by {
                if holds_day(old_groups, dd) {
                    let g = choose|g: int| 0 <= g < old_groups.len() && old_groups[g].day == dd;
                    if groups.len() == old_groups.len() || g < placed {
                        assert(groups[g].day == dd);
                    } else {
                        assert(groups[g + 1].day == dd);
                    }
                }
                assert(dd != d);
                assert(on_day(cur, cd, dd) == on_day(prev, pd, dd));
            }
        }
        i += 1;
    }
    assert(es.take(entries.len() as int) =~= es);
    assert(ds.take(entries.len() as int) =~= ds);
    groups
}

/// Sum of the totals of the groups' entries.
pub open spec fn sum_group_totals(r: Seq<DayEntries>, now: int) -> int
    decreases r.len(),
{
    if r.len() == 0 { 0 } else { sum_group_totals(r.drop_last(), now) + total_seconds(r.last().entries@, now) }
}

/// Sum, over the days of the groups `r`, of the total of the entries on
/// that day.
spec fn sum_on_days(es: Seq<TimeEntry>, ds: Seq<i64>, r: Seq<DayEntries>, now: int) -> int
    decreases r.len(),
{
    if r.len() == 0 { 0 } else { sum_on_days(es, ds, r.drop_last(), now) + total_seconds(on_day(es, ds, r.last().day as int), now) }
}

spec fn days_descend(r: Seq<DayEntries>) -> bool {
    forall|g: int, h: int| 0 <= g < h < r.len() ==> r[g].day > r[h].day
}

proof fn lemma_day_total_step(es: Seq<TimeEntry>, ds: Seq<i64>, d: int, now: int)
    requires
        es.len() > 0,
        ds.len() == es.len(),
    ensures
        total_seconds(on_day(es, ds, d), now) == total_seconds(on_day(es.drop_last(), ds.drop_last(), d), now)
            + if ds.last() == d { entry_seconds(es.last(), now) } else { 0 },
{
    let rest = on_day(es.drop_last(), ds.drop_last(), d);
    if ds.last() == d {
        assert(rest.push(es.last()).drop_last() =~= rest);
    }
}

proof fn lemma_sum_on_days_step(es: Seq<TimeEntry>, ds: Seq<i64>, r: Seq<DayEntries>, now: int)
    requires
        es.len() > 0,
        ds.len() == es.len(),
        days_descend(r),
    ensures
        sum_on_days(es, ds, r, now) == sum_on_days(es.drop_last(), ds.drop_last(), r, now)
            + if holds_day(r, ds.last() as int) { entry_seconds(es.last(), now) } else { 0 },
    decreases r.len(),
{
    if r.len() > 0 {
        let rp = r.drop_last();
        assert(days_descend(rp));
        lemma_sum_on_days_step(es, ds, rp, now);
        lemma_day_total_step(es, ds, r.last().day as int, now);
        if holds_day(r, ds.last() as int) {
            let g = choose|g: int| 0 <= g < r.len() && r[g].day == ds.last();
            if g < rp.len() {
                assert(rp[g].day == ds.last());
            }
        }
        if holds_day(rp, ds.last() as int) {
            let g = choose|g: int| 0 <= g < rp.len() && rp[g].day == ds.last();
            assert(r[g].day == ds.last());
            assert(r[g].day > r[r.len() - 1].day);
        }
    }
}

proof fn lemma_sum_on_nothing(r: Seq<DayEntries>, now: int)
    ensures
        sum_on_days(Seq::empty(), Seq::empty(), r, now) == 0,
    decreases r.len(),
{
    if r.len() > 0 {
        lemma_sum_on_nothing(r.drop_last(), now);
    }
}

proof fn lemma_sum_on_days_total(es: Seq<TimeEntry>, ds: Seq<i64>, r: Seq<DayEntries>, now: int)
    requires
        ds.len() == es.len(),
        days_descend(r),
        forall|i: int| 0 <= i < es.len() ==> holds_day(r, #[trigger] ds[i] as int),
    ensures
        sum_on_days(es, ds, r, now) == total_seconds(es, now),
    decreases es.len(),
{
    if es.len() == 0 {
        assert(es =~= Seq::<TimeEntry>::empty());
        assert(ds =~= Seq::<i64>::empty());
        lemma_sum_on_nothing(r, now);
    } else {
        let ep = es.drop_last();
        let dp = ds.drop_last();
        assert forall|i: int| 0 <= i < ep.len() implies holds_day(r, #[trigger] dp[i] as int) by {
            assert(dp[i] == ds[i]);
        }
        lemma_sum_on_days_total(ep, dp, r, now);
        lemma_sum_on_days_step(es, ds, r, now);
        assert(holds_day(r, ds[es.len() - 1] as int));
    }
}

proof fn lemma_groups_are_days(r: Seq<DayEntries>, es: Seq<TimeEntry>, ds: Seq<i64>, now: int)
    requires
        forall|g: int| 0 <= g < r.len() ==> (#[trigger] r[g]).entries@ == on_day(es, ds, r[g].day as int),
    ensures
        sum_group_totals(r, now) == sum_on_days(es, ds, r, now),
    decreases r.len(),
{
    if r.len() > 0 {
        let rp = r.drop_last();
        assert forall|g: int| 0 <= g < rp.len() implies (#[trigger] rp[g]).entries@ == on_day(es, ds, rp[g].day as int) by {
            assert(rp[g] == r[g]);
        }
        lemma_groups_are_days(rp, es, ds, now);
        assert(r.last() == r[r.len() - 1]);
    }
}

/// The totals of the day groups add up to the total of the entries they
/// split.
pub proof fn lemma_day_totals_add_up(r: Seq<DayEntries>, es: Seq<TimeEntry>, ds: Seq<i64>, now: int)
    requires
        ds.len() == es.len(),
        is_day_grouping(r, es, ds),
    ensures
        sum_group_totals(r, now) == total_seconds(es, now),
{
    lemma_groups_are_days(r, es, ds, now);
    lemma_sum_on_days_total(es, ds, r, now);
}

} // verus!

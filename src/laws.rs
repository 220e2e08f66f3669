//! Properties that relate several operations, proved over the models that
//! the operations' contracts use.
use vstd::prelude::*;

use crate::aggregate::{entry_seconds, total_seconds};
use crate::db::{detached, is_latest_running, lists_entries_where, EntryRow, ProjectRow, TimeEntry};
use crate::session::{at_most_one_running, tracks_storage};

verus! {

/// Deleting an entry id that is not stored leaves the entry table as it
/// was; deleting any id leaves every other row as it was.
pub proof fn lemma_delete_entry_is_idempotent(t: Map<i64, EntryRow>, id: i64)
    ensures
        !t.contains_key(id) ==> t.remove(id) == t,
        forall|k: i64| k != id && #[trigger] t.contains_key(k) ==> t.remove(id).contains_key(k) && t.remove(id)[k] == t[k],
{
    if !t.contains_key(id) {
        assert(t.remove(id) =~= t);
    }
}

/// Deleting a project id that is not stored leaves the project table as
/// it was (`delete_project` then leaves the entries as they were too);
/// deleting any project id leaves every other project as it was.
pub proof fn lemma_delete_project_is_idempotent(projects: Map<i64, ProjectRow>, id: i64)
    ensures
        !projects.contains_key(id) ==> projects.remove(id) == projects,
        forall|k: i64| k != id && #[trigger] projects.contains_key(k)
            ==> projects.remove(id).contains_key(k) && projects.remove(id)[k] == projects[k],
{
    if !projects.contains_key(id) {
        assert(projects.remove(id) =~= projects);
    }
}

/// While the session tracks storage, storage holds at most one running
/// entry, and that entry is the session's: it is the one the running-entry
/// query picks.
pub proof fn lemma_tracked_session_has_one_running(running: Option<TimeEntry>, t: Map<i64, EntryRow>)
    requires
        tracks_storage(running, t),
    ensures
        at_most_one_running(t),
        running matches Some(e) ==> is_latest_running(t, e.id) && t[e.id] == e.row(),
        running is None ==> forall|k: i64| #[trigger] t.contains_key(k) ==> t[k].end_time is Some,
{
}

/// Of two running entries, with no other running, the running-entry query
/// picks the one that started later.
pub proof fn lemma_later_start_wins(t: Map<i64, EntryRow>, a: i64, b: i64)
    requires
        t.contains_key(a),
        t.contains_key(b),
        t[a].end_time is None,
        t[b].end_time is None,
        t[a].start_time < t[b].start_time,
        forall|k: i64| #[trigger] t.contains_key(k) && t[k].end_time is None ==> k == a || k == b,
    ensures
        is_latest_running(t, b),
        forall|id: i64| is_latest_running(t, id) ==> id == b,
{
}

/// After a project is deleted, every entry that referred to it still
/// exists, refers to no project, and is otherwise unchanged.
pub proof fn lemma_project_deletion_detaches(t: Map<i64, EntryRow>, p: i64, k: i64)
    requires
        t.contains_key(k),
        t[k].project_id == Some(p),
    ensures
        detached(t, p).contains_key(k),
        detached(t, p)[k].project_id is None,
        detached(t, p)[k].description == t[k].description,
        detached(t, p)[k].start_time == t[k].start_time,
        detached(t, p)[k].end_time == t[k].end_time,
        detached(t, p)[k].created_at == t[k].created_at,
{
}

/// Every entry adds a non-negative number of seconds to a total, and none
/// at all where it ends before it starts.
pub proof fn lemma_duration_never_negative(e: TimeEntry, now: int)
    ensures
        entry_seconds(e, now) >= 0,
        e.end_time matches Some(end) && end < e.start_time ==> entry_seconds(e, now) == 0,
{
}

/// A total of entries is never negative.
pub proof fn lemma_total_never_negative(es: Seq<TimeEntry>, now: int)
    ensures
        total_seconds(es, now) >= 0,
    decreases es.len(),
{
    if es.len() > 0 {
        lemma_total_never_negative(es.drop_last(), now);
    }
}

/// An entry stored with start `x` is read back, by any query that lists
/// stored entries, with start `x`.
pub proof fn lemma_start_time_round_trip(
    before: Map<i64, EntryRow>,
    e: TimeEntry,
    x: i64,
    read: Seq<TimeEntry>,
    keep: spec_fn(EntryRow) -> bool,
    i: int,
)
    requires
        e.start_time == x,
        lists_entries_where(read, before.insert(e.id, e.row()), keep),
        0 <= i < read.len(),
        read[i].id == e.id,
    ensures
        read[i].start_time == x,
        read[i].row() == e.row(),
{
    assert(before.insert(e.id, e.row()).contains_key(read[i].id));
}

} // verus!

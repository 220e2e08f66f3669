//! Durable storage of projects and time entries in SQLite.
//!
//! The two tables are modelled as maps from row id to row contents
//! (`project_table`, `entry_table`). Each SQL statement runs behind one
//! small function whose contract says what it does to those maps; the
//! queries' filtering, ordering and tie-breaking are verified code.
//!
//! Instants are stored as whole seconds since the Unix epoch. Read back, a
//! stored integer, or a text of digits (what a column declared `TEXT`
//! makes of an integer), is that count of seconds; any other text (a
//! date-time, as column defaults and older rows hold) stands for the
//! instant that SQLite's `strftime('%s', ...)` reads in it.
use rusqlite::Connection;
use vstd::prelude::*;

use crate::calendar::{day_of, day_of_instant, now_seconds, SECONDS_PER_DAY};

verus! {

#[verifier::external_type_specification]
#[verifier::external_body]
pub struct ExConnection(rusqlite::Connection);

#[verifier::external_type_specification]
#[verifier::external_body]
pub struct ExSqliteError(rusqlite::Error);

/// A read or write of the database failed.
#[derive(Debug, Clone, Copy, PartialEq, Eq)]
pub struct StorageError;

/// A named, coloured tag for time entries.
#[derive(Debug, Clone, PartialEq)]
pub struct Project {
    pub id: i64,
    pub name: String,
    pub color: String,
    pub created_at: i64,
}

/// What the `projects` table holds under one id.
pub struct ProjectRow {
    pub name: Seq<char>,
    pub color: Seq<char>,
    pub created_at: i64,
}

impl Project {
    /// A copy with the same field values.
    pub fn duplicate(&self) -> (r: Project)
        ensures
            r == *self,
    {
        Project { id: self.id, name: self.name.clone(), color: self.color.clone(), created_at: self.created_at }
    }

    pub open spec fn row(&self) -> ProjectRow {
        ProjectRow { name: self.name@, color: self.color@, created_at: self.created_at }
    }
}

/// One tracked interval of work; it is running while `end_time` is absent.
#[derive(Debug, Clone, PartialEq)]
pub struct TimeEntry {
    pub id: i64,
    pub project_id: Option<i64>,
    pub description: String,
    pub start_time: i64,
    pub end_time: Option<i64>,
    pub created_at: i64,
}

/// What the `time_entries` table holds under one id.
pub struct EntryRow {
    pub project_id: Option<i64>,
    pub description: Seq<char>,
    pub start_time: i64,
    pub end_time: Option<i64>,
    pub created_at: i64,
}

impl TimeEntry {
    /// A copy with the same field values.
    pub fn duplicate(&self) -> (r: TimeEntry)
        ensures
            r == *self,
    {
        TimeEntry {
            id: self.id,
            project_id: self.project_id,
            description: self.description.clone(),
            start_time: self.start_time,
            end_time: self.end_time,
            created_at: self.created_at,
        }
    }

    pub open spec fn row(&self) -> EntryRow {
        EntryRow {
            project_id: self.project_id,
            description: self.description@,
            start_time: self.start_time,
            end_time: self.end_time,
            created_at: self.created_at,
        }
    }
}

/// The rows of the `projects` table, by id.
pub uninterp spec fn project_table(c: Connection) -> Map<i64, ProjectRow>;

/// The rows of the `time_entries` table, by id.
pub uninterp spec fn entry_table(c: Connection) -> Map<i64, EntryRow>;

/// Both tables exist in the database.
pub uninterp spec fn schema_ready(c: Connection) -> bool;

/// `v` holds each row of `t` exactly once, with its id.
pub open spec fn lists_projects(v: Seq<Project>, t: Map<i64, ProjectRow>) -> bool {
    &&& forall|i: int| 0 <= i < v.len() ==> #[trigger] t.contains_key(v[i].id) && t[v[i].id] == v[i].row()
    &&& forall|i: int, j: int| 0 <= i < j < v.len() ==> v[i].id != v[j].id
    &&& forall|k: i64| #[trigger] t.contains_key(k) ==> exists|i: int| 0 <= i < v.len() && v[i].id == k
}

/// `v` holds each row of `t` exactly once, with its id.
pub open spec fn lists_entries(v: Seq<TimeEntry>, t: Map<i64, EntryRow>) -> bool {
    &&& forall|i: int| 0 <= i < v.len() ==> #[trigger] t.contains_key(v[i].id) && t[v[i].id] == v[i].row()
    &&& forall|i: int, j: int| 0 <= i < j < v.len() ==> v[i].id != v[j].id
    &&& forall|k: i64| #[trigger] t.contains_key(k) ==> exists|i: int| 0 <= i < v.len() && v[i].id == k
}

/// The entry table after the project `p` has gone: entries that referred
/// to it refer to no project, and nothing else changes.
pub open spec fn detached(t: Map<i64, EntryRow>, p: i64) -> Map<i64, EntryRow> {
    t.map_values(|e: EntryRow| if e.project_id == Some(p) { EntryRow { project_id: None, ..e } } else { e })
}

/// The entry table after the entry `id`, if stored, has ended at `end`.
pub open spec fn ended(t: Map<i64, EntryRow>, id: i64, end: i64) -> Map<i64, EntryRow> {
    if t.contains_key(id) { t.insert(id, EntryRow { end_time: Some(end), ..t[id] }) } else { t }
}

/// Relies on `rusqlite::Connection::execute_batch`: `CREATE TABLE IF NOT
/// EXISTS` adds a table only where none is, so no stored row changes, and
/// both tables exist once it has run.
#[verifier::external_body]
fn run_schema(conn: &mut Connection) -> (r: Result<(), rusqlite::Error>)
    ensures
        r is Ok ==> schema_ready(*final(conn)),
        r is Ok ==> project_table(*final(conn)) == project_table(*old(conn)),
        r is Ok ==> entry_table(*final(conn)) == entry_table(*old(conn)),
{
    conn.execute_batch(
        "CREATE TABLE IF NOT EXISTS projects (id INTEGER PRIMARY KEY AUTOINCREMENT, name TEXT NOT NULL, color TEXT NOT NULL, created_at INTEGER NOT NULL DEFAULT (datetime('now')));
         CREATE TABLE IF NOT EXISTS time_entries (id INTEGER PRIMARY KEY AUTOINCREMENT, project_id INTEGER REFERENCES projects(id) ON DELETE SET NULL, description TEXT NOT NULL, start_time INTEGER NOT NULL, end_time INTEGER, created_at INTEGER NOT NULL DEFAULT (datetime('now')));",
    )
}

/// Relies on `rusqlite::Connection::execute` running an `INSERT` (it
/// reports a failed commit, which SQLite rolls back) and on
/// `Connection::last_insert_rowid`, which then gives the id SQLite chose
/// for the new row: one that no stored project holds.
#[verifier::external_body]
fn insert_project_row(conn: &mut Connection, name: &str, color: &str, created_at: i64) -> (r: Result<i64, rusqlite::Error>)
    ensures
        r is Ok ==> !project_table(*old(conn)).contains_key(r->Ok_0),
        r is Ok ==> project_table(*final(conn)) == project_table(*old(conn)).insert(
            r->Ok_0,
            ProjectRow { name: name@, color: color@, created_at },
        ),
        entry_table(*final(conn)) == entry_table(*old(conn)),
        r is Err ==> project_table(*final(conn)) == project_table(*old(conn)),
{
    conn.execute("INSERT INTO projects (name, color, created_at) VALUES (?1, ?2, ?3)", (name, color, created_at))?;
    Ok(conn.last_insert_rowid())
}

/// Relies on `rusqlite::Connection::prepare` and `Statement::query_map`
/// running `SELECT` over the whole `projects` table: one item per row.
#[verifier::external_body]
fn select_project_rows(conn: &Connection) -> (r: Result<Vec<Project>, rusqlite::Error>)
    ensures
        r is Ok ==> lists_projects(r->Ok_0@, project_table(*conn)),
{
    let mut stmt = conn.prepare("SELECT id, name, color, CASE WHEN typeof(created_at) <> 'text' THEN created_at WHEN CAST(created_at AS INTEGER) || '' = created_at THEN CAST(created_at AS INTEGER) ELSE CAST(strftime('%s', created_at) AS INTEGER) END FROM projects")?;
    let rows = stmt.query_map([], |row| {
        Ok(Project { id: row.get(0)?, name: row.get(1)?, color: row.get(2)?, created_at: row.get(3)? })
    })?;
    let listed: Result<Vec<Project>, rusqlite::Error> = rows.collect();
    listed
}

/// Relies on `rusqlite::Connection::execute` running `DELETE FROM
/// projects`, which returns how many rows it deleted: one where the id is
/// stored, else none. Entries that referred to the deleted project refer
/// to none afterwards where SQLite enforces the `ON DELETE SET NULL` key,
/// and are left as they were where it does not. With nothing deleted no
/// entry changes; a statement that fails changes nothing.
#[verifier::external_body]
fn delete_project_row(conn: &mut Connection, id: i64) -> (r: Result<usize, rusqlite::Error>)
    ensures
        r is Ok ==> project_table(*final(conn)) == project_table(*old(conn)).remove(id),
        r is Ok ==> (r->Ok_0 == 0 <==> !project_table(*old(conn)).contains_key(id)),
        r is Ok ==> entry_table(*final(conn)) == entry_table(*old(conn))
            || entry_table(*final(conn)) == detached(entry_table(*old(conn)), id),
        r matches Ok(0) ==> entry_table(*final(conn)) == entry_table(*old(conn)),
        r is Err ==> project_table(*final(conn)) == project_table(*old(conn)),
        r is Err ==> entry_table(*final(conn)) == entry_table(*old(conn)),
{
    conn.execute("DELETE FROM projects WHERE id = ?1", (id,))
}

/// Relies on `rusqlite::Connection::execute` running `UPDATE time_entries
/// SET project_id = NULL WHERE project_id = ?1`; a statement that fails
/// changes nothing.
#[verifier::external_body]
fn detach_entry_rows(conn: &mut Connection, project_id: i64) -> (r: Result<usize, rusqlite::Error>)
    ensures
        r is Ok ==> entry_table(*final(conn)) == detached(entry_table(*old(conn)), project_id),
        r is Err ==> entry_table(*final(conn)) == entry_table(*old(conn)),
        project_table(*final(conn)) == project_table(*old(conn)),
{
    conn.execute("UPDATE time_entries SET project_id = NULL WHERE project_id = ?1", (project_id,))
}

/// Relies on `rusqlite::Connection::execute` running an `INSERT` (it
/// reports a failed commit, which SQLite rolls back) and on
/// `Connection::last_insert_rowid`, which then gives the id SQLite chose
/// for the new row, with no end: one that no stored entry holds.
#[verifier::external_body]
fn insert_entry_row(
    conn: &mut Connection,
    project_id: Option<i64>,
    description: &str,
    start_time: i64,
    created_at: i64,
) -> (r: Result<i64, rusqlite::Error>)
    ensures
        r is Ok ==> !entry_table(*old(conn)).contains_key(r->Ok_0),
        r is Ok ==> entry_table(*final(conn)) == entry_table(*old(conn)).insert(
            r->Ok_0,
            EntryRow { project_id, description: description@, start_time, end_time: None, created_at },
        ),
        r is Err ==> entry_table(*final(conn)) == entry_table(*old(conn)),
        project_table(*final(conn)) == project_table(*old(conn)),
{
    conn.execute(
        "INSERT INTO time_entries (project_id, description, start_time, created_at) VALUES (?1, ?2, ?3, ?4)",
        (project_id, description, start_time, created_at),
    )?;
    Ok(conn.last_insert_rowid())
}

/// Relies on `rusqlite::Connection::execute` running `UPDATE time_entries
/// SET end_time = ?1 WHERE id = ?2`; a statement that fails changes
/// nothing.
#[verifier::external_body]
fn set_entry_end(conn: &mut Connection, id: i64, end_time: i64) -> (r: Result<usize, rusqlite::Error>)
    ensures
        r is Ok ==> entry_table(*final(conn)) == ended(entry_table(*old(conn)), id, end_time),
        r is Err ==> entry_table(*final(conn)) == entry_table(*old(conn)),
        project_table(*final(conn)) == project_table(*old(conn)),
{
    conn.execute("UPDATE time_entries SET end_time = ?1 WHERE id = ?2", (end_time, id))
}

/// Relies on `rusqlite::Connection::execute` running `DELETE FROM
/// time_entries`: the row with that id, if any, goes; a statement that
/// fails changes nothing.
#[verifier::external_body]
fn delete_entry_row(conn: &mut Connection, id: i64) -> (r: Result<usize, rusqlite::Error>)
    ensures
        r is Ok ==> entry_table(*final(conn)) == entry_table(*old(conn)).remove(id),
        r is Err ==> entry_table(*final(conn)) == entry_table(*old(conn)),
        project_table(*final(conn)) == project_table(*old(conn)),
{
    conn.execute("DELETE FROM time_entries WHERE id = ?1", (id,))
}

/// Relies on `rusqlite::Connection::prepare` and `Statement::query_map`
/// running `SELECT` over the whole `time_entries` table: one item per row.
#[verifier::external_body]
fn select_entry_rows(conn: &Connection) -> (r: Result<Vec<TimeEntry>, rusqlite::Error>)
    ensures
        r is Ok ==> lists_entries(r->Ok_0@, entry_table(*conn)),
{
    let mut stmt = conn.prepare("SELECT id, project_id, description, CASE WHEN typeof(start_time) <> 'text' THEN start_time WHEN CAST(start_time AS INTEGER) || '' = start_time THEN CAST(start_time AS INTEGER) ELSE CAST(strftime('%s', start_time) AS INTEGER) END, CASE WHEN typeof(end_time) <> 'text' THEN end_time WHEN CAST(end_time AS INTEGER) || '' = end_time THEN CAST(end_time AS INTEGER) ELSE CAST(strftime('%s', end_time) AS INTEGER) END, CASE WHEN typeof(created_at) <> 'text' THEN created_at WHEN CAST(created_at AS INTEGER) || '' = created_at THEN CAST(created_at AS INTEGER) ELSE CAST(strftime('%s', created_at) AS INTEGER) END FROM time_entries")?;
    let rows = stmt.query_map([], |row| {
        let (id, project_id, description) = (row.get(0)?, row.get(1)?, row.get(2)?);
        Ok(TimeEntry { id, project_id, description, start_time: row.get(3)?, end_time: row.get(4)?, created_at: row.get(5)? })
    })?;
    let listed: Result<Vec<TimeEntry>, rusqlite::Error> = rows.collect();
    listed
}

/// Makes sure both tables exist; running it again changes nothing.
pub fn create_tables(conn: &mut Connection) -> (r: Result<(), StorageError>)
    ensures
        r is Ok ==> schema_ready(*final(conn)),
        r is Ok ==> project_table(*final(conn)) == project_table(*old(conn)),
        r is Ok ==> entry_table(*final(conn)) == entry_table(*old(conn)),
{
    match run_schema(conn) {
        Ok(()) => Ok(()),
        Err(_) => Err(StorageError),
    }
}

/// Stores a new project, stamped with the current instant. Fails, changing
/// nothing, where storage refuses the row or the clock cannot be read.
pub fn create_project(conn: &mut Connection, name: &str, color: &str) -> (r: Result<Project, StorageError>)
    ensures
        r is Ok ==> r->Ok_0.name@ == name@ && r->Ok_0.color@ == color@,
        r is Ok ==> !project_table(*old(conn)).contains_key(r->Ok_0.id),
        r is Ok ==> project_table(*final(conn)) == project_table(*old(conn)).insert(r->Ok_0.id, r->Ok_0.row()),
        r is Err ==> project_table(*final(conn)) == project_table(*old(conn)),
        entry_table(*final(conn)) == entry_table(*old(conn)),
{
    let created_at = match now_seconds() {
        Some(t) => t,
        None => { return Err(StorageError); },
    };
    match insert_project_row(conn, name, color, created_at) {
        Ok(id) => {
            let p = Project { id, name: name.to_owned(), color: color.to_owned(), created_at };
            assert(p.row() == ProjectRow { name: name@, color: color@, created_at });
            Ok(p)
        },
        Err(_) => Err(StorageError),
    }
}

proof fn lemma_detached_twice(t: Map<i64, EntryRow>, p: i64)
    ensures
        detached(detached(t, p), p) == detached(t, p),
{
    assert(detached(detached(t, p), p) =~= detached(t, p));
}

/// Deletes a project; entries that referred to it keep existing with no
/// project. An id that no project holds is no error and changes nothing.
/// Where the project row went but detaching its entries failed, the entries
/// may still refer to it.
pub fn delete_project(conn: &mut Connection, id: i64) -> (r: Result<(), StorageError>)
    ensures
        r is Ok ==> project_table(*final(conn)) == project_table(*old(conn)).remove(id),
        r is Ok && project_table(*old(conn)).contains_key(id)
            ==> entry_table(*final(conn)) == detached(entry_table(*old(conn)), id),
        r is Ok && !project_table(*old(conn)).contains_key(id)
            ==> entry_table(*final(conn)) == entry_table(*old(conn))
            && project_table(*final(conn)) == project_table(*old(conn)),
        r is Err ==> (project_table(*final(conn)) == project_table(*old(conn))
            && entry_table(*final(conn)) == entry_table(*old(conn)))
            || (project_table(*old(conn)).contains_key(id)
            && project_table(*final(conn)) == project_table(*old(conn)).remove(id)
            && (entry_table(*final(conn)) == entry_table(*old(conn))
                || entry_table(*final(conn)) == detached(entry_table(*old(conn)), id))),
{
    let ghost e0 = entry_table(*conn);
    let ghost p0 = project_table(*conn);
    match delete_project_row(conn, id) {
        Ok(n) => {
            if n == 0 {
                assert(p0.remove(id) =~= p0);
                Ok(())
            } else {
                proof { lemma_detached_twice(e0, id); }
                match detach_entry_rows(conn, id) {
                    Ok(_) => Ok(()),
                    Err(_) => Err(StorageError),
                }
            }
        },
        Err(_) => Err(StorageError),
    }
}

/// Stores a new running entry that starts at `start_time`; fails, changing
/// nothing, where storage refuses the row.
pub fn create_entry(conn: &mut Connection, project_id: Option<i64>, description: &str, start_time: i64) -> (r: Result<TimeEntry, StorageError>)
    ensures
        r is Ok ==> r->Ok_0.project_id == project_id && r->Ok_0.description@ == description@,
        r is Ok ==> r->Ok_0.start_time == start_time && r->Ok_0.end_time is None,
        r is Ok ==> r->Ok_0.created_at == start_time,
        r is Ok ==> !entry_table(*old(conn)).contains_key(r->Ok_0.id),
        r is Ok ==> entry_table(*final(conn)) == entry_table(*old(conn)).insert(r->Ok_0.id, r->Ok_0.row()),
        r is Err ==> entry_table(*final(conn)) == entry_table(*old(conn)),
        project_table(*final(conn)) == project_table(*old(conn)),
{
    match insert_entry_row(conn, project_id, description, start_time, start_time) {
        Ok(id) => Ok(TimeEntry {
            id,
            project_id,
            description: description.to_owned(),
            start_time,
            end_time: None,
            created_at: start_time,
        }),
        Err(_) => Err(StorageError),
    }
}

/// Ends the entry `id` at `end_time`; an id that is not stored is no error.
/// A failure changes nothing.
pub fn stop_entry(conn: &mut Connection, id: i64, end_time: i64) -> (r: Result<(), StorageError>)
    ensures
        r is Ok ==> entry_table(*final(conn)) == ended(entry_table(*old(conn)), id, end_time),
        r is Err ==> entry_table(*final(conn)) == entry_table(*old(conn)),
        project_table(*final(conn)) == project_table(*old(conn)),
{
    match set_entry_end(conn, id, end_time) {
        Ok(_) => Ok(()),
        Err(_) => Err(StorageError),
    }
}

/// Deletes an entry; an id that is not stored is no error. A failure
/// changes nothing.
pub fn delete_entry(conn: &mut Connection, id: i64) -> (r: Result<(), StorageError>)
    ensures
        r is Ok ==> entry_table(*final(conn)) == entry_table(*old(conn)).remove(id),
        r is Err ==> entry_table(*final(conn)) == entry_table(*old(conn)),
        project_table(*final(conn)) == project_table(*old(conn)),
{
    match delete_entry_row(conn, id) {
        Ok(_) => Ok(()),
        Err(_) => Err(StorageError),
    }
}


/// `a` sorts strictly before `b`, character by character, a proper prefix
/// first.
pub open spec fn name_before(a: Seq<char>, b: Seq<char>) -> bool
    decreases a.len(),
{
    if a.len() == 0 {
        b.len() > 0
    } else if b.len() == 0 {
        false
    } else if a[0] != b[0] {
        (a[0] as u32) < (b[0] as u32)
    } else {
        name_before(a.drop_first(), b.drop_first())
    }
}

/// Projects in ascending order of name.
pub open spec fn names_ordered(v: Seq<Project>) -> bool {
    forall|i: int, j: int| 0 <= i < j < v.len() ==> !name_before(v[j].name@, v[i].name@)
}

/// Entry `a` (start `s1`, id `id1`) is more recent than entry `b`: it
/// started later, or at the same second and was stored later.
pub open spec fn more_recent(s1: i64, id1: i64, s2: i64, id2: i64) -> bool {
    s1 > s2 || (s1 == s2 && id1 > id2)
}

/// Entries, most recent first.
pub open spec fn newest_first(v: Seq<TimeEntry>) -> bool {
    forall|i: int, j: int| 0 <= i < j < v.len()
        ==> more_recent(v[i].start_time, v[i].id, v[j].start_time, v[j].id)
}

/// The entry `id` runs and no running entry of `t` is more recent.
pub open spec fn is_latest_running(t: Map<i64, EntryRow>, id: i64) -> bool {
    &&& t.contains_key(id)
    &&& t[id].end_time is None
    &&& forall|k: i64| #[trigger] t.contains_key(k) && t[k].end_time is None && k != id
        ==> more_recent(t[id].start_time, id, t[k].start_time, k)
}

/// The entry starts on a day from `first` to `last`, in a zone `offset`
/// seconds ahead of UTC.
pub open spec fn starts_within(e: EntryRow, first: int, last: int, offset: int) -> bool {
    first <= day_of(e.start_time as int, offset) <= last
}

/// `v` holds, once each, exactly the entries of `t` that satisfy `keep`.
pub open spec fn lists_entries_where(v: Seq<TimeEntry>, t: Map<i64, EntryRow>, keep: spec_fn(EntryRow) -> bool) -> bool {
    &&& forall|i: int| 0 <= i < v.len() ==> #[trigger] t.contains_key(v[i].id) && t[v[i].id] == v[i].row() && keep(v[i].row())
    &&& forall|i: int, j: int| 0 <= i < j < v.len() ==> v[i].id != v[j].id
    &&& forall|k: i64| #[trigger] t.contains_key(k) && keep(t[k]) ==> exists|i: int| 0 <= i < v.len() && v[i].id == k
}

proof fn lemma_name_before_transitive(a: Seq<char>, b: Seq<char>, c: Seq<char>)
    requires
        name_before(a, b),
        name_before(b, c),
    ensures
        name_before(a, c),
    decreases a.len(),
{
    if a.len() > 0 && b.len() > 0 && c.len() > 0 && a[0] == b[0] && b[0] == c[0] {
        lemma_name_before_transitive(a.drop_first(), b.drop_first(), c.drop_first());
    }
}

proof fn lemma_name_before_asymmetric(a: Seq<char>, b: Seq<char>)
    requires
        name_before(a, b),
    ensures
        !name_before(b, a),
    decreases a.len(),
{
    if a.len() > 0 && b.len() > 0 && a[0] == b[0] {
        lemma_name_before_asymmetric(a.drop_first(), b.drop_first());
    }
}

fn is_name_before(a: &str, b: &str) -> (r: bool)
    ensures
        r == name_before(a@, b@),
{
    let la = a.unicode_len();
    let lb = b.unicode_len();
    let mut i: usize = 0;
    assert(a@.skip(0) =~= a@ && b@.skip(0) =~= b@);
    while i < la && i < lb
        invariant
            la == a@.len(),
            lb == b@.len(),
            0 <= i <= la,
            i <= lb,
            name_before(a@, b@) == name_before(a@.skip(i as int), b@.skip(i as int)),
        decreases la - i,
    {
        let ca = a.get_char(i);
        let cb = b.get_char(i);
        if ca != cb {
            return (ca as u32) < (cb as u32);
        }
        assert(a@.skip(i as int).drop_first() =~= a@.skip(i + 1));
        assert(b@.skip(i as int).drop_first() =~= b@.skip(i + 1));
        i += 1;
    }
    i == la && i < lb
}

/// No two entries share an id.
pub open spec fn distinct_entry_ids(v: Seq<TimeEntry>) -> bool {
    forall|i: int, j: int| 0 <= i < j < v.len() ==> v[i].id != v[j].id
}

/// No two projects share an id.
pub open spec fn distinct_project_ids(v: Seq<Project>) -> bool {
    forall|i: int, j: int| 0 <= i < j < v.len() ==> v[i].id != v[j].id
}

/// `out` holds the projects of `rows`, each once, in some order.
pub open spec fn reorders_projects(out: Seq<Project>, rows: Seq<Project>) -> bool {
    &&& out.len() == rows.len()
    &&& forall|i: int| 0 <= i < out.len() ==> rows.contains(#[trigger] out[i])
    &&& forall|j: int| 0 <= j < rows.len() ==> out.contains(#[trigger] rows[j])
    &&& distinct_project_ids(out)
}

/// `out` holds, once each, exactly the entries of `rows` that start on a
/// day from `first` to `last` in a zone `offset` seconds ahead of UTC.
pub open spec fn picks_within(out: Seq<TimeEntry>, rows: Seq<TimeEntry>, first: int, last: int, offset: int) -> bool {
    &&& forall|i: int| 0 <= i < out.len() ==> rows.contains(#[trigger] out[i])
        && starts_within(out[i].row(), first, last, offset)
    &&& forall|j: int| 0 <= j < rows.len() && starts_within(rows[j].row(), first, last, offset)
        ==> out.contains(#[trigger] rows[j])
    &&& distinct_entry_ids(out)
}

/// Some item of `all` at position `n` or later is `x`.
spec fn in_tail<T>(all: Seq<T>, n: int, x: T) -> bool {
    exists|j: int| n <= j < all.len() && all[j] == x
}

proof fn lemma_insert_keeps<T>(s: Seq<T>, p: int, x: T, y: T)
    requires
        0 <= p <= s.len(),
        s.contains(y) || y == x,
    ensures
        s.insert(p, x).contains(y),
{
    if y == x {
        assert(s.insert(p, x)[p] == x);
    } else {
        let i = choose|i: int| 0 <= i < s.len() && s[i] == y;
        if i < p {
            assert(s.insert(p, x)[i] == y);
        } else {
            assert(s.insert(p, x)[i + 1] == y);
        }
    }
}

/// The running entry among `rows`: of those without an end, the one that
/// started last (at equal starts, the one with the larger id).
pub fn latest_running(rows: Vec<TimeEntry>) -> (r: Option<TimeEntry>)
    requires
        distinct_entry_ids(rows@),
    ensures
        r is None ==> forall|i: int| 0 <= i < rows.len() ==> (#[trigger] rows[i]).end_time is Some,
        r matches Some(e) ==> rows@.contains(e) && e.end_time is None
            && forall|i: int| 0 <= i < rows.len() && (#[trigger] rows[i]).end_time is None && rows[i].id != e.id
                ==> more_recent(e.start_time, e.id, rows[i].start_time, rows[i].id),
{
    let ghost all = rows@;
    let mut rows = rows;
    let mut best: Option<usize> = None;
    let mut i: usize = 0;
    while i < rows.len()
        invariant
            rows@ == all,
            distinct_entry_ids(all),
            0 <= i <= rows.len(),
            best matches Some(b) ==> b < i && all[b as int].end_time is None,
            best is None ==> forall|j: int| 0 <= j < i ==> all[j].end_time is Some,
            best matches Some(b) ==> forall|j: int| 0 <= j < i && j != b && all[j].end_time is None
                ==> more_recent(all[b as int].start_time, all[b as int].id, all[j].start_time, all[j].id),
        decreases rows.len() - i,
    {
        if rows[i].end_time.is_none() {
            match best {
                None => { best = Some(i); },
                Some(b) => {
                    if rows[i].start_time > rows[b].start_time
                        || (rows[i].start_time == rows[b].start_time && rows[i].id > rows[b].id) {
                        best = Some(i);
                    }
                },
            }
        }
        i += 1;
    }
    match best {
        None => None,
        Some(b) => {
            let e = rows.swap_remove(b);
            assert(all[b as int] == e);
            assert(all.contains(e));
            Some(e)
        },
    }
}

/// The entry of `rows` with id `id`, if any.
pub fn find_entry(rows: Vec<TimeEntry>, id: i64) -> (r: Option<TimeEntry>)
    ensures
        r matches Some(e) ==> e.id == id && rows@.contains(e),
        r is None ==> forall|i: int| 0 <= i < rows.len() ==> (#[trigger] rows[i]).id != id,
{
    let ghost all = rows@;
    let mut rows = rows;
    let mut i: usize = 0;
    while i < rows.len() && rows[i].id != id
        invariant
            rows@ == all,
            0 <= i <= rows.len(),
            forall|j: int| 0 <= j < i ==> all[j].id != id,
        decreases rows.len() - i,
    {
        i += 1;
    }
    if i < rows.len() {
        let e = rows.swap_remove(i);
        assert(all[i as int] == e);
        assert(all.contains(e));
        Some(e)
    } else {
        None
    }
}

/// The project of `rows` with id `id`, if any.
pub fn find_project(rows: Vec<Project>, id: i64) -> (r: Option<Project>)
    ensures
        r matches Some(p) ==> p.id == id && rows@.contains(p),
        r is None ==> forall|i: int| 0 <= i < rows.len() ==> (#[trigger] rows[i]).id != id,
{
    let ghost all = rows@;
    let mut rows = rows;
    let mut i: usize = 0;
    while i < rows.len() && rows[i].id != id
        invariant
            rows@ == all,
            0 <= i <= rows.len(),
            forall|j: int| 0 <= j < i ==> all[j].id != id,
        decreases rows.len() - i,
    {
        i += 1;
    }
    if i < rows.len() {
        let p = rows.swap_remove(i);
        assert(all[i as int] == p);
        assert(all.contains(p));
        Some(p)
    } else {
        None
    }
}

/// The projects of `rows` in ascending order of name.
pub fn sort_projects_by_name(rows: Vec<Project>) -> (r: Vec<Project>)
    requires
        distinct_project_ids(rows@),
    ensures
        reorders_projects(r@, rows@),
        names_ordered(r@),
{
    let ghost all = rows@;
    let mut rows = rows;
    let mut out: Vec<Project> = Vec::new();
    while rows.len() > 0
        invariant
            distinct_project_ids(all),
            rows@ == all.take(rows.len() as int),
            rows.len() <= all.len(),
            out.len() + rows.len() == all.len(),
            forall|i: int| 0 <= i < out.len() ==> in_tail(all, rows.len() as int, #[trigger] out[i]),
            forall|j: int| rows.len() <= j < all.len() ==> out@.contains(#[trigger] all[j]),
            distinct_project_ids(out@),
            names_ordered(out@),
        decreases rows.len(),
    {
        let ghost n = rows.len() as int;
        let ghost before = out@;
        let x = rows.pop().unwrap();
        assert(x == all[n - 1]);
        let mut p: usize = 0;
        while p < out.len() && !is_name_before(&x.name, &out[p].name)
            invariant
                0 <= p <= out.len(),
                forall|q: int| 0 <= q < p ==> !name_before(x.name@, #[trigger] out[q].name@),
            decreases out.len() - p,
        {
            p += 1;
        }
        proof {
            assert forall|j: int| p <= j < before.len() implies !name_before(before[j].name@, x.name@) by {
                lemma_name_before_asymmetric(x.name@, before[p as int].name@);
                if name_before(before[j].name@, x.name@) {
                    lemma_name_before_transitive(before[j].name@, x.name@, before[p as int].name@);
                }
            }
            assert forall|i: int| 0 <= i < before.len() implies before[i].id != x.id by {
                assert(in_tail(all, n, before[i]));
                let j = choose|j: int| n <= j < all.len() && all[j] == before[i];
            }
        }
        out.insert(p, x);
        proof {
            assert(rows@ =~= all.take(rows.len() as int));
            assert forall|i: int| 0 <= i < out.len() implies in_tail(all, n - 1, #[trigger] out[i]) by {
                if i == p {
                } else if i < p {
                    assert(in_tail(all, n, before[i]));
                    let j = choose|j: int| n <= j < all.len() && all[j] == before[i];
                } else {
                    assert(in_tail(all, n, before[i - 1]));
                    let j = choose|j: int| n <= j < all.len() && all[j] == before[i - 1];
                }
            }
            assert forall|j: int| n - 1 <= j < all.len() implies out@.contains(#[trigger] all[j]) by {
                lemma_insert_keeps(before, p as int, x, all[j]);
            }
        }
    }
    proof {
        assert forall|i: int| 0 <= i < out.len() implies all.contains(#[trigger] out[i]) by {
            assert(in_tail(all, 0, out[i]));
        }
    }
    out
}

/// The entries of `rows` that start on a day from `first` to `last` (both
/// included), in a zone `offset` seconds ahead of UTC, most recent first.
pub fn entries_within(rows: Vec<TimeEntry>, first: i64, last: i64, offset: i64) -> (r: Vec<TimeEntry>)
    requires
        -SECONDS_PER_DAY < offset < SECONDS_PER_DAY,
        distinct_entry_ids(rows@),
    ensures
        picks_within(r@, rows@, first as int, last as int, offset as int),
        newest_first(r@),
{
    let ghost all = rows@;
    let ghost (f, l, o) = (first as int, last as int, offset as int);
    let mut rows = rows;
    let mut out: Vec<TimeEntry> = Vec::new();
    while rows.len() > 0
        invariant
            distinct_entry_ids(all),
            -SECONDS_PER_DAY < offset < SECONDS_PER_DAY,
            f == first as int && l == last as int && o == offset as int,
            rows@ == all.take(rows.len() as int),
            rows.len() <= all.len(),
            forall|i: int| 0 <= i < out.len() ==> in_tail(all, rows.len() as int, #[trigger] out[i])
                && starts_within(out[i].row(), f, l, o),
            forall|j: int| rows.len() <= j < all.len() && starts_within(all[j].row(), f, l, o)
                ==> out@.contains(#[trigger] all[j]),
            distinct_entry_ids(out@),
            newest_first(out@),
        decreases rows.len(),
    {
        let ghost n = rows.len() as int;
        let ghost before = out@;
        let x = rows.pop().unwrap();
        assert(x == all[n - 1]);
        proof {
            assert forall|i: int| 0 <= i < before.len() implies before[i].id != x.id by {
                assert(in_tail(all, n, before[i]));
                let j = choose|j: int| n <= j < all.len() && all[j] == before[i];
            }
        }
        let day = day_of_instant(x.start_time, offset);
        let ghost mut placed: int = -1;
        if first <= day && day <= last {
            let mut p: usize = 0;
            while p < out.len()
                && !(x.start_time > out[p].start_time || (x.start_time == out[p].start_time && x.id > out[p].id))
                invariant
                    0 <= p <= out.len(),
                    forall|q: int| 0 <= q < p ==> more_recent(#[trigger] out[q].start_time, out[q].id, x.start_time, x.id),
                    forall|q: int| 0 <= q < out.len() ==> #[trigger] out[q].id != x.id,
                decreases out.len() - p,
            {
                p += 1;
            }
            proof {
                assert forall|j: int| p <= j < out.len()
                    implies more_recent(x.start_time, x.id, #[trigger] out[j].start_time, out[j].id) by {
                    if j > p {
                        assert(more_recent(out[p as int].start_time, out[p as int].id, out[j].start_time, out[j].id));
                    }
                }
            }
            out.insert(p, x);
            proof { placed = p as int; }
        }
        proof {
            assert(rows@ =~= all.take(rows.len() as int));
            assert forall|i: int| 0 <= i < out.len() implies in_tail(all, n - 1, #[trigger] out[i])
                && starts_within(out[i].row(), f, l, o) by {
                if placed >= 0 && i == placed {
                } else {
                    let k = if placed >= 0 && i > placed { i - 1 } else { i };
                    assert(out[i] == before[k]);
                    assert(in_tail(all, n, before[k]));
                    let j = choose|j: int| n <= j < all.len() && all[j] == before[k];
                }
            }
            assert forall|j: int| n - 1 <= j < all.len() && starts_within(all[j].row(), f, l, o)
                implies out@.contains(#[trigger] all[j]) by {
                if placed >= 0 {
                    lemma_insert_keeps(before, placed, x, all[j]);
                }
            }
        }
    }
    proof {
        assert forall|i: int| 0 <= i < out.len() implies all.contains(#[trigger] out[i])
            && starts_within(out[i].row(), f, l, o) by {
            assert(in_tail(all, 0, out[i]));
        }
    }
    out
}

/// The project stored under `id`, if any.
pub fn get_project_by_id(conn: &Connection, id: i64) -> (r: Result<Option<Project>, StorageError>)
    ensures
        r matches Ok(Some(p)) ==> project_table(*conn).contains_key(id) && p.id == id
            && p.row() == project_table(*conn)[id],
        r matches Ok(None) ==> !project_table(*conn).contains_key(id),
{
    let rows = match select_project_rows(conn) {
        Ok(v) => v,
        Err(_) => return Err(StorageError),
    };
    let ghost all = rows@;
    let found = find_project(rows, id);
    proof {
        if found is Some {
            let j = choose|j: int| 0 <= j < all.len() && all[j] == found->Some_0;
            assert(project_table(*conn).contains_key(all[j].id));
        } else if project_table(*conn).contains_key(id) {
            let j = choose|j: int| 0 <= j < all.len() && all[j].id == id;
            assert(all[j].id != id);
        }
    }
    Ok(found)
}

/// The entry stored under `id`, if any.
pub fn get_entry_by_id(conn: &Connection, id: i64) -> (r: Result<Option<TimeEntry>, StorageError>)
    ensures
        r matches Ok(Some(e)) ==> entry_table(*conn).contains_key(id) && e.id == id
            && e.row() == entry_table(*conn)[id],
        r matches Ok(None) ==> !entry_table(*conn).contains_key(id),
{
    let rows = match select_entry_rows(conn) {
        Ok(v) => v,
        Err(_) => return Err(StorageError),
    };
    let ghost all = rows@;
    let found = find_entry(rows, id);
    proof {
        if found is Some {
            let j = choose|j: int| 0 <= j < all.len() && all[j] == found->Some_0;
            assert(entry_table(*conn).contains_key(all[j].id));
        } else if entry_table(*conn).contains_key(id) {
            let j = choose|j: int| 0 <= j < all.len() && all[j].id == id;
            assert(all[j].id != id);
        }
    }
    Ok(found)
}

/// All stored projects, in ascending order of name.
pub fn get_all_projects(conn: &Connection) -> (r: Result<Vec<Project>, StorageError>)
    ensures
        r is Ok ==> lists_projects(r->Ok_0@, project_table(*conn)),
        r is Ok ==> names_ordered(r->Ok_0@),
{
    let ghost t = project_table(*conn);
    let rows = match select_project_rows(conn) {
        Ok(v) => v,
        Err(_) => return Err(StorageError),
    };
    let ghost all = rows@;
    let out = sort_projects_by_name(rows);
    proof {
        assert forall|i: int| 0 <= i < out.len() implies #[trigger] t.contains_key(out[i].id) && t[out[i].id] == out[i].row() by {
            assert(all.contains(out[i]));
            let j = choose|j: int| 0 <= j < all.len() && all[j] == out[i];
            assert(t.contains_key(all[j].id));
        }
        assert forall|k: i64| #[trigger] t.contains_key(k) implies exists|i: int| 0 <= i < out.len() && out[i].id == k by {
            let j = choose|j: int| 0 <= j < all.len() && all[j].id == k;
            assert(out@.contains(all[j]));
        }
    }
    Ok(out)
}

/// The running entry: the one without an end that started last (at equal
/// starts, the one stored last). Other running entries stay as they are.
pub fn get_running_entry(conn: &Connection) -> (r: Result<Option<TimeEntry>, StorageError>)
    ensures
        r matches Ok(Some(e)) ==> is_latest_running(entry_table(*conn), e.id)
            && e.row() == entry_table(*conn)[e.id],
        r matches Ok(None) ==> forall|k: i64| #[trigger] entry_table(*conn).contains_key(k)
            ==> entry_table(*conn)[k].end_time is Some,
{
    let ghost t = entry_table(*conn);
    let rows = match select_entry_rows(conn) {
        Ok(v) => v,
        Err(_) => return Err(StorageError),
    };
    let ghost all = rows@;
    let found = latest_running(rows);
    proof {
        match &found {
            None => {
                assert forall|k: i64| #[trigger] t.contains_key(k) implies t[k].end_time is Some by {
                    let j = choose|j: int| 0 <= j < all.len() && all[j].id == k;
                    assert(all[j].end_time is Some);
                }
            },
            Some(e) => {
                let b = choose|b: int| 0 <= b < all.len() && all[b] == *e;
                assert(t.contains_key(all[b].id));
                assert forall|k: i64| #[trigger] t.contains_key(k) && t[k].end_time is None && k != e.id
                    implies more_recent(t[e.id].start_time, e.id, t[k].start_time, k) by {
                    let j = choose|j: int| 0 <= j < all.len() && all[j].id == k;
                    assert(t.contains_key(all[j].id));
                    assert(all[j].end_time is None);
                }
            },
        }
    }
    Ok(found)
}

/// The entries that start on a day from `first` to `last` (both included),
/// in a zone `offset` seconds ahead of UTC, most recent first.
pub fn get_entries_for_date_range(conn: &Connection, first: i64, last: i64, offset: i64) -> (r: Result<Vec<TimeEntry>, StorageError>)
    requires
        -SECONDS_PER_DAY < offset < SECONDS_PER_DAY,
    ensures
        r is Ok ==> lists_entries_where(r->Ok_0@, entry_table(*conn),
            |e: EntryRow| starts_within(e, first as int, last as int, offset as int)),
        r is Ok ==> newest_first(r->Ok_0@),
{
    let ghost t = entry_table(*conn);
    let rows = match select_entry_rows(conn) {
        Ok(v) => v,
        Err(_) => return Err(StorageError),
    };
    let ghost all = rows@;
    let out = entries_within(rows, first, last, offset);
    proof {
        assert forall|i: int| 0 <= i < out.len() implies #[trigger] t.contains_key(out[i].id) && t[out[i].id] == out[i].row()
            && starts_within(out[i].row(), first as int, last as int, offset as int) by {
            assert(all.contains(out[i]));
            let j = choose|j: int| 0 <= j < all.len() && all[j] == out[i];
            assert(t.contains_key(all[j].id));
        }
        assert forall|k: i64| #[trigger] t.contains_key(k) && starts_within(t[k], first as int, last as int, offset as int)
            implies exists|i: int| 0 <= i < out.len() && out[i].id == k by {
            let j = choose|j: int| 0 <= j < all.len() && all[j].id == k;
            assert(t.contains_key(all[j].id));
            assert(out@.contains(all[j]));
        }
    }
    Ok(out)
}

/// The entries that start on `date`, in a zone `offset` seconds ahead of
/// UTC, most recent first.
pub fn get_entries_for_date(conn: &Connection, date: i64, offset: i64) -> (r: Result<Vec<TimeEntry>, StorageError>)
    requires
        -SECONDS_PER_DAY < offset < SECONDS_PER_DAY,
    ensures
        r is Ok ==> lists_entries_where(r->Ok_0@, entry_table(*conn),
            |e: EntryRow| starts_within(e, date as int, date as int, offset as int)),
        r is Ok ==> newest_first(r->Ok_0@),
{
    get_entries_for_date_range(conn, date, date, offset)
}

} // verus!

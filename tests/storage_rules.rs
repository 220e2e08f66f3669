use rusqlite::Connection;
use time_tracking::calendar::day_of_instant;
use time_tracking::db::{
    create_entry, create_project, create_tables, delete_entry, delete_project, get_all_projects,
    get_entries_for_date, get_entries_for_date_range, get_entry_by_id, entries_within, find_entry, find_project,
    latest_running, sort_projects_by_name, Project, TimeEntry, get_project_by_id, get_running_entry, stop_entry,
};

fn fresh_db() -> Connection {
    let mut conn = Connection::open_in_memory().unwrap();
    create_tables(&mut conn).unwrap();
    conn
}

// 2024-01-15T10:00:00Z
const MONDAY_TEN: i64 = 1_705_312_800;
const DAY: i64 = 86_400;

#[test]
fn create_tables_twice_keeps_rows() {
    let mut conn = fresh_db();
    create_entry(&mut conn, None, "kept", MONDAY_TEN).unwrap();
    create_tables(&mut conn).unwrap();
    let entries = get_entries_for_date(&conn, day_of_instant(MONDAY_TEN, 0), 0).unwrap();
    assert_eq!(entries.len(), 1);
    assert_eq!(entries[0].description, "kept");
}

#[test]
fn later_start_is_the_running_entry() {
    let mut conn = fresh_db();
    let later = create_entry(&mut conn, None, "later", MONDAY_TEN + 60).unwrap();
    create_entry(&mut conn, None, "earlier", MONDAY_TEN).unwrap();
    let running = get_running_entry(&conn).unwrap().unwrap();
    assert_eq!(running.id, later.id);
    assert_eq!(running.description, "later");
}

#[test]
fn stopped_entries_are_not_running() {
    let mut conn = fresh_db();
    let a = create_entry(&mut conn, None, "a", MONDAY_TEN).unwrap();
    let b = create_entry(&mut conn, None, "b", MONDAY_TEN + 10).unwrap();
    stop_entry(&mut conn, b.id, MONDAY_TEN + 20).unwrap();
    let running = get_running_entry(&conn).unwrap().unwrap();
    assert_eq!(running.id, a.id);
}

#[test]
fn deleting_a_missing_entry_changes_nothing() {
    let mut conn = fresh_db();
    let e = create_entry(&mut conn, None, "stays", MONDAY_TEN).unwrap();
    delete_entry(&mut conn, e.id + 100).unwrap();
    let entries = get_entries_for_date(&conn, day_of_instant(MONDAY_TEN, 0), 0).unwrap();
    assert_eq!(entries, vec![e]);
}

#[test]
fn deleting_a_missing_project_changes_nothing() {
    let mut conn = fresh_db();
    let p = create_project(&mut conn, "Work", "#3498db").unwrap();
    let e = create_entry(&mut conn, Some(p.id), "tagged", MONDAY_TEN).unwrap();
    delete_project(&mut conn, p.id + 100).unwrap();
    assert_eq!(get_all_projects(&conn).unwrap(), vec![p]);
    let entries = get_entries_for_date(&conn, day_of_instant(MONDAY_TEN, 0), 0).unwrap();
    assert_eq!(entries, vec![e]);
}

#[test]
fn deleting_a_project_detaches_its_entries() {
    let mut conn = fresh_db();
    let work = create_project(&mut conn, "Work", "#3498db").unwrap();
    let home = create_project(&mut conn, "Home", "#e74c3c").unwrap();
    let a = create_entry(&mut conn, Some(work.id), "a", MONDAY_TEN).unwrap();
    let b = create_entry(&mut conn, Some(home.id), "b", MONDAY_TEN + 10).unwrap();
    delete_project(&mut conn, work.id).unwrap();
    let entries = get_entries_for_date(&conn, day_of_instant(MONDAY_TEN, 0), 0).unwrap();
    assert_eq!(entries.len(), 2);
    assert_eq!(entries[0].id, b.id);
    assert_eq!(entries[0].project_id, Some(home.id));
    assert_eq!(entries[1].id, a.id);
    assert_eq!(entries[1].project_id, None);
    assert_eq!(entries[1].description, "a");
    assert!(get_project_by_id(&conn, work.id).unwrap().is_none());
}

#[test]
fn start_time_reads_back_unchanged() {
    let mut conn = fresh_db();
    let e = create_entry(&mut conn, None, "x", MONDAY_TEN + 7).unwrap();
    assert_eq!(e.start_time, MONDAY_TEN + 7);
    assert_eq!(e.created_at, MONDAY_TEN + 7);
    let running = get_running_entry(&conn).unwrap().unwrap();
    assert_eq!(running.start_time, MONDAY_TEN + 7);
    let listed = get_entries_for_date(&conn, day_of_instant(MONDAY_TEN, 0), 0).unwrap();
    assert_eq!(listed[0].start_time, MONDAY_TEN + 7);
}

#[test]
fn stop_records_the_end() {
    let mut conn = fresh_db();
    let e = create_entry(&mut conn, None, "x", MONDAY_TEN).unwrap();
    stop_entry(&mut conn, e.id, MONDAY_TEN + 90).unwrap();
    let listed = get_entries_for_date(&conn, day_of_instant(MONDAY_TEN, 0), 0).unwrap();
    assert_eq!(listed[0].end_time, Some(MONDAY_TEN + 90));
}

#[test]
fn stopping_a_missing_entry_changes_nothing() {
    let mut conn = fresh_db();
    let e = create_entry(&mut conn, None, "x", MONDAY_TEN).unwrap();
    stop_entry(&mut conn, e.id + 5, MONDAY_TEN + 90).unwrap();
    assert_eq!(get_running_entry(&conn).unwrap(), Some(e));
}

#[test]
fn range_is_inclusive_and_newest_first() {
    let mut conn = fresh_db();
    let first_day = day_of_instant(MONDAY_TEN, 0);
    let a = create_entry(&mut conn, None, "mon", MONDAY_TEN).unwrap();
    let b = create_entry(&mut conn, None, "tue", MONDAY_TEN + DAY).unwrap();
    let c = create_entry(&mut conn, None, "wed", MONDAY_TEN + 2 * DAY).unwrap();
    create_entry(&mut conn, None, "thu", MONDAY_TEN + 3 * DAY).unwrap();
    create_entry(&mut conn, None, "sun before", MONDAY_TEN - DAY).unwrap();
    let listed = get_entries_for_date_range(&conn, first_day, first_day + 2, 0).unwrap();
    let ids: Vec<i64> = listed.iter().map(|e| e.id).collect();
    assert_eq!(ids, vec![c.id, b.id, a.id]);
}

#[test]
fn same_second_entries_list_later_stored_first() {
    let mut conn = fresh_db();
    let a = create_entry(&mut conn, None, "a", MONDAY_TEN).unwrap();
    let b = create_entry(&mut conn, None, "b", MONDAY_TEN).unwrap();
    let listed = get_entries_for_date(&conn, day_of_instant(MONDAY_TEN, 0), 0).unwrap();
    assert_eq!(listed[0].id, b.id);
    assert_eq!(listed[1].id, a.id);
}

#[test]
fn day_of_an_entry_follows_the_zone_offset() {
    let mut conn = fresh_db();
    // 2024-01-15T23:30:00Z is already 2024-01-16 two hours east of UTC.
    let late = MONDAY_TEN + 13 * 3600 + 1800;
    create_entry(&mut conn, None, "late", late).unwrap();
    let monday = day_of_instant(MONDAY_TEN, 0);
    assert_eq!(get_entries_for_date(&conn, monday, 0).unwrap().len(), 1);
    assert_eq!(get_entries_for_date(&conn, monday, 7200).unwrap().len(), 0);
    assert_eq!(get_entries_for_date(&conn, monday + 1, 7200).unwrap().len(), 1);
}

#[test]
fn projects_with_equal_and_prefix_names_sort() {
    let mut conn = fresh_db();
    create_project(&mut conn, "beta", "#1").unwrap();
    create_project(&mut conn, "Beta", "#2").unwrap();
    create_project(&mut conn, "be", "#3").unwrap();
    create_project(&mut conn, "alpha", "#4").unwrap();
    let names: Vec<String> = get_all_projects(&conn).unwrap().into_iter().map(|p| p.name).collect();
    assert_eq!(names, vec!["Beta", "alpha", "be", "beta"]);
}

#[test]
fn created_project_is_stored() {
    let mut conn = fresh_db();
    let p = create_project(&mut conn, "Work", "#3498db").unwrap();
    assert!(p.created_at > 0);
    assert_eq!(get_project_by_id(&conn, p.id).unwrap(), Some(p));
}

#[test]
fn storage_errors_are_reported() {
    let mut conn = Connection::open_in_memory().unwrap();
    assert!(create_entry(&mut conn, None, "no tables", MONDAY_TEN).is_err());
    assert!(get_running_entry(&conn).is_err());
    assert!(get_all_projects(&conn).is_err());
    assert!(create_project(&mut conn, "Work", "#3498db").is_err());
}

#[test]
fn entry_lookup_by_id() {
    let mut conn = fresh_db();
    let e = create_entry(&mut conn, None, "find me", MONDAY_TEN).unwrap();
    assert_eq!(get_entry_by_id(&conn, e.id).unwrap(), Some(e.clone()));
    assert_eq!(get_entry_by_id(&conn, e.id + 1).unwrap(), None);
}

fn original_schema_db() -> Connection {
    let conn = Connection::open_in_memory().unwrap();
    conn.execute_batch(
        "CREATE TABLE projects (id INTEGER PRIMARY KEY AUTOINCREMENT, name TEXT NOT NULL, color TEXT NOT NULL, created_at TEXT NOT NULL DEFAULT (datetime('now')));
         CREATE TABLE time_entries (id INTEGER PRIMARY KEY AUTOINCREMENT, project_id INTEGER, description TEXT NOT NULL, start_time TEXT NOT NULL, end_time TEXT, created_at TEXT NOT NULL DEFAULT (datetime('now')), FOREIGN KEY (project_id) REFERENCES projects(id) ON DELETE SET NULL);",
    )
    .unwrap();
    conn
}

#[test]
fn works_on_a_database_with_text_time_columns() {
    let mut conn = original_schema_db();
    conn.execute(
        "INSERT INTO time_entries (project_id, description, start_time, end_time) VALUES (NULL, 'old', '2024-01-15 09:00:00', '2024-01-15 09:30:00')",
        [],
    )
    .unwrap();
    create_tables(&mut conn).unwrap();
    let p = create_project(&mut conn, "Work", "#3498db").unwrap();
    assert_eq!(get_project_by_id(&conn, p.id).unwrap(), Some(p.clone()));
    let e = create_entry(&mut conn, Some(p.id), "new", MONDAY_TEN).unwrap();
    assert_eq!(get_running_entry(&conn).unwrap(), Some(e.clone()));
    stop_entry(&mut conn, e.id, MONDAY_TEN + 600).unwrap();
    assert!(get_running_entry(&conn).unwrap().is_none());
    let listed = get_entries_for_date(&conn, day_of_instant(MONDAY_TEN, 0), 0).unwrap();
    assert_eq!(listed.len(), 2);
    assert_eq!(listed[0].id, e.id);
    assert_eq!(listed[0].start_time, MONDAY_TEN);
    assert_eq!(listed[0].end_time, Some(MONDAY_TEN + 600));
    assert_eq!(listed[0].created_at, MONDAY_TEN);
    assert_eq!(listed[1].description, "old");
    assert_eq!(listed[1].start_time, MONDAY_TEN - 3600);
    assert_eq!(listed[1].end_time, Some(MONDAY_TEN - 1800));
}

#[test]
fn deleting_a_missing_project_keeps_dangling_references() {
    let mut conn = fresh_db();
    conn.execute_batch("PRAGMA foreign_keys = OFF;").unwrap();
    let e = create_entry(&mut conn, Some(999), "dangling", MONDAY_TEN).unwrap();
    delete_project(&mut conn, 999).unwrap();
    assert_eq!(get_entry_by_id(&conn, e.id).unwrap(), Some(e));
}

fn row(id: i64, start: i64, end: Option<i64>) -> TimeEntry {
    TimeEntry { id, project_id: None, description: String::new(), start_time: start, end_time: end, created_at: start }
}

#[test]
fn latest_running_picks_the_later_start() {
    let rows = vec![row(1, 100, None), row(2, 300, None), row(3, 500, Some(600)), row(4, 200, None)];
    assert_eq!(latest_running(rows).map(|e| e.id), Some(2));
    let ties = vec![row(5, 100, None), row(7, 100, None), row(6, 100, None)];
    assert_eq!(latest_running(ties).map(|e| e.id), Some(7));
    assert_eq!(latest_running(vec![row(1, 1, Some(2))]), None);
    assert_eq!(latest_running(Vec::new()), None);
}

#[test]
fn finding_rows_by_id() {
    let rows = vec![row(1, 100, None), row(2, 300, None)];
    assert_eq!(find_entry(rows.clone(), 2).map(|e| e.start_time), Some(300));
    assert_eq!(find_entry(rows, 3), None);
    let projects = vec![Project { id: 4, name: "A".to_string(), color: "#1".to_string(), created_at: 0 }];
    assert_eq!(find_project(projects.clone(), 4).map(|p| p.name), Some("A".to_string()));
    assert_eq!(find_project(projects, 5), None);
}

#[test]
fn sorting_projects_by_name() {
    let p = |id: i64, name: &str| Project { id, name: name.to_string(), color: String::new(), created_at: 0 };
    let sorted = sort_projects_by_name(vec![p(1, "b"), p(2, "a"), p(3, "ab"), p(4, "B")]);
    let ids: Vec<i64> = sorted.iter().map(|x| x.id).collect();
    assert_eq!(ids, vec![4, 2, 3, 1]);
}

#[test]
fn filtering_rows_by_day() {
    let rows = vec![
        row(1, MONDAY_TEN, None),
        row(2, MONDAY_TEN + DAY, None),
        row(3, MONDAY_TEN + 60, None),
        row(4, MONDAY_TEN - DAY, None),
    ];
    let day = day_of_instant(MONDAY_TEN, 0);
    let ids: Vec<i64> = entries_within(rows, day, day, 0).iter().map(|e| e.id).collect();
    assert_eq!(ids, vec![3, 1]);
}

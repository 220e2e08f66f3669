use rusqlite::Connection;
use time_tracking::calendar::day_of_instant;
use time_tracking::db::{create_project, create_tables, get_all_projects, get_entries_for_date, get_running_entry};
use time_tracking::session::{Action, ActionOutcome, AppState, DeleteError, TimerError, ViewMode};

// 2024-01-15T10:00:00Z
const T0: i64 = 1_705_312_800;

fn fresh_state() -> AppState {
    let mut conn = Connection::open_in_memory().unwrap();
    create_tables(&mut conn).unwrap();
    AppState::new(Vec::new(), conn)
}

#[test]
fn new_session_is_stopped() {
    let state = fresh_state();
    assert!(state.running_entry.is_none());
    assert_eq!(state.description, "");
    assert_eq!(state.selected, 0);
    assert_eq!(state.view_mode, ViewMode::Today);
    assert_eq!(state.timer_text, "00:00:00");
    assert!(!state.tray.is_running);
    assert_eq!(state.tray.elapsed_time, "00:00:00");
}

#[test]
fn basic_session() {
    let mut state = fresh_state();
    let work = create_project(&mut state.db_conn, "Work", "#3498db").unwrap();
    state.refresh_projects().unwrap();
    state.set_selected_project(Some(work.id));
    state.description = "coding".to_string();

    state.start_timer().unwrap();
    let running = get_running_entry(&state.db_conn).unwrap().unwrap();
    assert_eq!(running.description, "coding");
    assert_eq!(running.project_id, Some(work.id));
    assert!(running.end_time.is_none());
    assert_eq!(state.running_entry, Some(running.clone()));
    assert!(state.tray.is_running);
    assert_eq!(state.tray.description, "coding");

    state.stop_timer().unwrap();
    assert!(get_running_entry(&state.db_conn).unwrap().is_none());
    assert!(state.running_entry.is_none());
    assert_eq!(state.description, "");
    assert_eq!(state.selected, 0);
    let day = day_of_instant(running.start_time, 0);
    let entries = get_entries_for_date(&state.db_conn, day, 0).unwrap();
    let stopped = entries.iter().find(|e| e.id == running.id).unwrap();
    let end = stopped.end_time.unwrap();
    assert!(end >= stopped.start_time);
}

#[test]
fn restart_recovery() {
    let mut first = fresh_state();
    let work = create_project(&mut first.db_conn, "Work", "#3498db").unwrap();
    first.refresh_projects().unwrap();
    first.set_selected_project(Some(work.id));
    first.description = "writing".to_string();
    first.start_timer_at(T0).unwrap();
    let before = first.running_entry.clone().unwrap();

    let conn = first.db_conn;
    let projects = get_all_projects(&conn).unwrap();
    let mut second = AppState::new(projects, conn);
    second.restore_running_entry_on_startup().unwrap();

    assert_eq!(second.running_entry, Some(before));
    assert_eq!(second.description, "writing");
    assert_eq!(second.get_selected_project_id(), Some(work.id));
    assert!(second.tray.is_running);
    assert_eq!(second.tray.description, "writing");
}

#[test]
fn restore_with_nothing_running_keeps_session() {
    let mut state = fresh_state();
    state.restore_running_entry_on_startup().unwrap();
    assert!(state.running_entry.is_none());
    assert_eq!(state.description, "");
}

#[test]
fn delete_guard() {
    let mut state = fresh_state();
    state.start_timer_at(T0).unwrap();
    let running = state.running_entry.clone().unwrap();

    assert!(!state.delete_entry(running.id));
    assert_eq!(state.running_entry, Some(running.clone()));
    assert_eq!(get_running_entry(&state.db_conn).unwrap(), Some(running));
}

#[test]
fn delete_of_stopped_entry() {
    let mut state = fresh_state();
    state.start_timer_at(T0).unwrap();
    let id = state.running_entry.as_ref().unwrap().id;
    state.stop_timer_at(T0 + 60).unwrap();
    assert!(state.delete_entry(id));
    assert!(get_entries_for_date(&state.db_conn, day_of_instant(T0, 0), 0).unwrap().is_empty());
    assert!(state.delete_entry(id + 10));
}

#[test]
fn start_while_running_is_refused() {
    let mut state = fresh_state();
    state.start_timer_at(T0).unwrap();
    let running = state.running_entry.clone();
    assert_eq!(state.start_timer_at(T0 + 5), Err(TimerError::InvalidState));
    assert_eq!(state.running_entry, running);
    let entries = get_entries_for_date(&state.db_conn, day_of_instant(T0, 0), 0).unwrap();
    assert_eq!(entries.len(), 1);
}

#[test]
fn stop_while_stopped_is_refused() {
    let mut state = fresh_state();
    assert_eq!(state.stop_timer_at(T0), Err(TimerError::InvalidState));
    assert!(state.running_entry.is_none());
}

#[test]
fn failed_start_leaves_timer_stopped() {
    let conn = Connection::open_in_memory().unwrap();
    let mut state = AppState::new(Vec::new(), conn);
    assert_eq!(state.start_timer_at(T0), Err(TimerError::Storage));
    assert!(state.running_entry.is_none());
    assert!(!state.tray.is_running);
}

#[test]
fn toggle_alternates() {
    let mut state = fresh_state();
    state.toggle_timer_at(T0).unwrap();
    assert!(state.running_entry.is_some());
    state.toggle_timer_at(T0 + 30).unwrap();
    assert!(state.running_entry.is_none());
    state.toggle_timer_at(T0 + 60).unwrap();
    let running = get_running_entry(&state.db_conn).unwrap().unwrap();
    assert_eq!(Some(running), state.running_entry);
    let entries = get_entries_for_date(&state.db_conn, day_of_instant(T0, 0), 0).unwrap();
    assert_eq!(entries.len(), 2);
    assert_eq!(entries.iter().filter(|e| e.end_time.is_none()).count(), 1);
    assert_eq!(entries[1].end_time, Some(T0 + 30));
}

#[test]
fn continue_stops_then_starts_copy() {
    let mut state = fresh_state();
    let work = create_project(&mut state.db_conn, "Work", "#3498db").unwrap();
    state.refresh_projects().unwrap();
    state.set_selected_project(Some(work.id));
    state.description = "review".to_string();
    state.start_timer_at(T0).unwrap();
    let source = state.running_entry.clone().unwrap();
    state.stop_timer_at(T0 + 100).unwrap();

    state.description = "other".to_string();
    state.start_timer_at(T0 + 200).unwrap();
    let other = state.running_entry.clone().unwrap();

    state.continue_entry_at(&source, T0 + 300).unwrap();
    let now_running = state.running_entry.clone().unwrap();
    assert_eq!(now_running.description, "review");
    assert_eq!(now_running.project_id, Some(work.id));
    assert_eq!(now_running.start_time, T0 + 300);
    assert_ne!(now_running.id, source.id);

    let entries = get_entries_for_date(&state.db_conn, day_of_instant(T0, 0), 0).unwrap();
    let stopped_other = entries.iter().find(|e| e.id == other.id).unwrap();
    assert_eq!(stopped_other.end_time, Some(T0 + 300));
    assert_eq!(entries.iter().filter(|e| e.end_time.is_none()).count(), 1);
}

#[test]
fn continue_of_unlisted_project_has_no_project() {
    let mut state = fresh_state();
    let gone = create_project(&mut state.db_conn, "Gone", "#000000").unwrap();
    state.description = "old".to_string();
    state.start_timer_at(T0).unwrap();
    let mut source = state.running_entry.clone().unwrap();
    state.stop_timer_at(T0 + 1).unwrap();
    source.project_id = Some(gone.id);
    state.continue_entry_at(&source, T0 + 2).unwrap();
    assert_eq!(state.running_entry.as_ref().unwrap().project_id, None);
}

#[test]
fn selection_follows_listed_projects() {
    let mut state = fresh_state();
    let a = create_project(&mut state.db_conn, "A", "#1").unwrap();
    let b = create_project(&mut state.db_conn, "B", "#2").unwrap();
    state.refresh_projects().unwrap();
    state.set_selected_project(Some(b.id));
    assert_eq!(state.selected, 2);
    assert_eq!(state.get_selected_project_id(), Some(b.id));
    state.set_selected_project(Some(a.id));
    assert_eq!(state.selected, 1);
    state.set_selected_project(Some(b.id + 50));
    assert_eq!(state.selected, 0);
    assert_eq!(state.get_selected_project_id(), None);
    state.set_selected_project(None);
    assert_eq!(state.selected, 0);
    state.selected = 7;
    assert_eq!(state.get_selected_project_id(), None);
}

#[test]
fn elapsed_text_and_tray_follow_the_clock() {
    let mut state = fresh_state();
    state.description = "focus".to_string();
    state.start_timer_at(T0).unwrap();
    assert_eq!(state.timer_text, "00:00:00");
    state.update_timer_display(T0 + 3_725);
    assert_eq!(state.timer_text, "01:02:05");
    assert!(state.tray.is_running);
    assert_eq!(state.tray.elapsed_time, "01:02:05");
    assert_eq!(state.tray.description, "focus");
    state.update_timer_display(T0 - 10);
    assert_eq!(state.timer_text, "00:00:00");
    assert_eq!(state.format_elapsed(T0, T0 + 59), "00:00:59");
    state.stop_timer_at(T0 + 10).unwrap();
    assert_eq!(state.timer_text, "00:00:00");
    assert!(!state.tray.is_running);
    assert_eq!(state.tray.description, "");
}

#[test]
fn tick_keeps_stopped_display_at_zero() {
    let mut state = fresh_state();
    state.tick();
    assert_eq!(state.timer_text, "00:00:00");
}

#[test]
fn actions_funnel_through_one_handler() {
    let mut state = fresh_state();
    state.description = "plan".to_string();
    assert_eq!(state.handle_action_at(Action::Start, T0), ActionOutcome::Refresh);
    let first = state.running_entry.clone().unwrap();
    assert_eq!(state.handle_action_at(Action::Start, T0 + 1), ActionOutcome::Refused);
    assert_eq!(state.handle_action_at(Action::Delete(first.id), T0 + 2), ActionOutcome::Refused);
    assert_eq!(state.running_entry, Some(first.clone()));
    assert_eq!(state.handle_action_at(Action::Toggle, T0 + 3), ActionOutcome::Refresh);
    assert!(state.running_entry.is_none());
    assert_eq!(state.handle_action_at(Action::Stop, T0 + 4), ActionOutcome::Refused);
    assert_eq!(state.handle_action_at(Action::Continue(first.id), T0 + 5), ActionOutcome::Refresh);
    let copy = state.running_entry.clone().unwrap();
    assert_eq!(copy.description, "plan");
    assert_eq!(copy.start_time, T0 + 5);
    assert_eq!(state.handle_action_at(Action::Continue(first.id + 100), T0 + 6), ActionOutcome::Refused);
    assert_eq!(state.running_entry, Some(copy));
    assert_eq!(state.handle_action_at(Action::Delete(first.id), T0 + 7), ActionOutcome::Refresh);
    assert_eq!(state.handle_action_at(Action::ShowWindow, T0 + 8), ActionOutcome::ShowWindow);
    assert_eq!(state.handle_action_at(Action::Quit, T0 + 9), ActionOutcome::Quit);
    let entries = get_entries_for_date(&state.db_conn, day_of_instant(T0, 0), 0).unwrap();
    assert_eq!(entries.len(), 1);
}

#[test]
fn remove_entry_says_why() {
    let mut state = fresh_state();
    state.start_timer_at(T0).unwrap();
    let id = state.running_entry.as_ref().unwrap().id;
    assert_eq!(state.remove_entry(id), Err(DeleteError::Running));
    state.stop_timer_at(T0 + 5).unwrap();
    assert_eq!(state.remove_entry(id), Ok(()));
    assert_eq!(state.remove_entry(id), Ok(()));
    let conn = Connection::open_in_memory().unwrap();
    let mut broken = AppState::new(Vec::new(), conn);
    assert_eq!(broken.remove_entry(1), Err(DeleteError::Storage));
}

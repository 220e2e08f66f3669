//! The timer session: which entry runs, kept in step with storage and with
//! what the timer label and the tray show.
//!
//! Every operation that reads the clock has a twin ending in `_at` that
//! takes the current instant as an argument and carries the exact contract.
use rusqlite::Connection;
use vstd::prelude::*;

use crate::calendar::{duration_text, format_duration, now_seconds};
use crate::db::{
    create_entry, delete_entry, get_entry_by_id, ended, entry_table, get_all_projects, get_running_entry,
    is_latest_running, lists_projects, names_ordered, project_table, stop_entry, EntryRow, Project,
    StorageError, TimeEntry,
};
use crate::tray::TrayState;

verus! {

/// Which list of entries the window shows.
#[derive(Debug, Clone, Copy, PartialEq, Eq)]
pub enum ViewMode {
    Today,
    Week,
}

/// Why a timer operation did nothing.
#[derive(Debug, Clone, Copy, PartialEq, Eq)]
pub enum TimerError {
    /// Storage refused the change; the session is as it was.
    Storage,
    /// The clock could not be read; nothing was done.
    Clock,
    /// Starting while a timer runs, or stopping while none does.
    InvalidState,
}

/// Why an entry was not deleted.
#[derive(Debug, Clone, Copy, PartialEq, Eq)]
pub enum DeleteError {
    /// It is the running entry, which cannot be deleted.
    Running,
    /// Storage refused the delete.
    Storage,
}

/// Something a user asks of the session, from whichever surface: a button,
/// a key, or the tray's menu.
#[derive(Debug, Clone, Copy, PartialEq, Eq)]
pub enum Action {
    Start,
    Stop,
    Toggle,
    /// Start a copy of the stored entry with this id.
    Continue(i64),
    /// Delete the stored entry with this id.
    Delete(i64),
    ShowWindow,
    Quit,
}

/// What the host should do after an action.
#[derive(Debug, Clone, Copy, PartialEq, Eq)]
pub enum ActionOutcome {
    /// The session or storage changed: redraw.
    Refresh,
    /// The session refused the action as it stands: starting while a timer
    /// runs, stopping while none does, deleting the running entry, or
    /// continuing an entry that is not stored. Nothing changed.
    Refused,
    /// Storage or the clock failed; the timer is as it was, or stopped.
    Failed,
    ShowWindow,
    Quit,
}

/// The session of one process.
pub struct AppState {
    /// The entry that runs, as last confirmed by storage.
    pub running_entry: Option<TimeEntry>,
    /// Text of the description field.
    pub description: String,
    /// Position in the project selector: 0 is "No Project", `i + 1` is
    /// `projects[i]`.
    pub selected: usize,
    pub projects: Vec<Project>,
    pub db_conn: Connection,
    pub view_mode: ViewMode,
    /// What the timer label shows.
    pub timer_text: String,
    /// What the tray shows.
    pub tray: TrayState,
}

/// The project that position `selected` of the selector stands for.
pub open spec fn selected_project(projects: Seq<Project>, selected: int) -> Option<i64> {
    if 1 <= selected <= projects.len() { Some(projects[selected - 1].id) } else { None }
}

/// `id` itself where some project of `projects` has it, else no project.
pub open spec fn listed_project(projects: Seq<Project>, id: Option<i64>) -> Option<i64> {
    match id {
        Some(i) => if exists|k: int| 0 <= k < projects.len() && projects[k].id == i { id } else { None },
        None => None,
    }
}

/// Timer label text: the time since the running entry started, or zero.
pub open spec fn timer_display(running: Option<TimeEntry>, now: int) -> Seq<char> {
    match running {
        Some(e) => duration_text(elapsed_seconds(e.start_time as int, now)),
        None => duration_text(0),
    }
}

/// Seconds from `start` to `now`, never negative, held at `i64::MAX`.
pub open spec fn elapsed_seconds(start: int, now: int) -> int {
    if now <= start { 0 } else if now - start > i64::MAX { i64::MAX as int } else { now - start }
}

/// The tray shows the session's timer.
pub open spec fn tray_mirrors(t: TrayState, running: Option<TimeEntry>, label: Seq<char>) -> bool {
    &&& t.is_running == running is Some
    &&& t.elapsed_time@ == label
    &&& t.description@ == match running {
        Some(e) => e.description@,
        None => Seq::empty(),
    }
}

/// The session agrees with storage: the running entry is stored as it is
/// held and no other stored entry runs; with no running entry, no stored
/// entry runs.
pub open spec fn tracks_storage(running: Option<TimeEntry>, t: Map<i64, EntryRow>) -> bool {
    match running {
        Some(e) => {
            &&& t.contains_key(e.id)
            &&& t[e.id] == e.row()
            &&& e.end_time is None
            &&& forall|k: i64| #[trigger] t.contains_key(k) && t[k].end_time is None ==> k == e.id
        },
        None => forall|k: i64| #[trigger] t.contains_key(k) ==> t[k].end_time is Some,
    }
}

/// At most one stored entry runs.
pub open spec fn at_most_one_running(t: Map<i64, EntryRow>) -> bool {
    forall|a: i64, b: i64| #[trigger] t.contains_key(a) && #[trigger] t.contains_key(b) && t[a].end_time is None
        && t[b].end_time is None ==> a == b
}

/// A start at `now` succeeded from `o` to `f`: a new running entry, stored
/// under a fresh id, with the description field, the selected project and
/// the start `now`; fields kept; label and tray show it.
pub open spec fn start_effect(o: AppState, f: AppState, now: i64) -> bool {
    &&& f.running_entry matches Some(e)
    &&& f.running_entry->Some_0.description@ == o.description@
    &&& f.running_entry->Some_0.project_id == selected_project(o.projects@, o.selected as int)
    &&& f.running_entry->Some_0.start_time == now
    &&& f.running_entry->Some_0.end_time is None
    &&& f.running_entry->Some_0.created_at == now
    &&& !entry_table(o.db_conn).contains_key(f.running_entry->Some_0.id)
    &&& entry_table(f.db_conn) == entry_table(o.db_conn).insert(f.running_entry->Some_0.id, f.running_entry->Some_0.row())
    &&& f.description == o.description
    &&& f.selected == o.selected
    &&& f.timer_text@ == timer_display(f.running_entry, now as int)
    &&& tray_mirrors(f.tray, f.running_entry, f.timer_text@)
}

/// A stop at `now` succeeded from `o` to `f`: the running entry is stored
/// with end `now` and is no longer held; description cleared, "No Project"
/// selected; label and tray show a stopped timer.
pub open spec fn stop_effect(o: AppState, f: AppState, now: i64) -> bool {
    &&& o.running_entry is Some
    &&& f.running_entry is None
    &&& entry_table(f.db_conn) == ended(entry_table(o.db_conn), o.running_entry->Some_0.id, now)
    &&& f.description@ == Seq::<char>::empty()
    &&& f.selected == 0
    &&& f.timer_text@ == duration_text(0)
    &&& tray_mirrors(f.tray, None, f.timer_text@)
}

/// Nothing that a failed timer operation could have touched changed.
pub open spec fn timer_unchanged(o: AppState, f: AppState) -> bool {
    &&& f.running_entry == o.running_entry
    &&& f.description == o.description
    &&& f.selected == o.selected
    &&& f.timer_text == o.timer_text
    &&& f.tray == o.tray
    &&& entry_table(f.db_conn) == entry_table(o.db_conn)
}

/// What every timer operation keeps: the project list and table, the view,
/// and agreement with storage.
pub open spec fn timer_keeps(o: AppState, f: AppState) -> bool {
    &&& f.projects == o.projects
    &&& f.view_mode == o.view_mode
    &&& project_table(f.db_conn) == project_table(o.db_conn)
    &&& tracks_storage(o.running_entry, entry_table(o.db_conn)) ==> tracks_storage(f.running_entry, entry_table(f.db_conn))
}

/// A continue of `source` at `now` succeeded from `o` to `f`: the old
/// running entry, if any, is stored with end `now`; then a new running
/// entry, under a fresh id, carries the source's description and its
/// project where still listed.
pub open spec fn continue_effect(o: AppState, f: AppState, source: TimeEntry, now: i64) -> bool {
    let mid = match o.running_entry {
        Some(r) => ended(entry_table(o.db_conn), r.id, now),
        None => entry_table(o.db_conn),
    };
    &&& f.running_entry matches Some(e)
    &&& f.running_entry->Some_0.description@ == source.description@
    &&& f.running_entry->Some_0.project_id == listed_project(o.projects@, source.project_id)
    &&& f.running_entry->Some_0.start_time == now
    &&& f.running_entry->Some_0.end_time is None
    &&& !mid.contains_key(f.running_entry->Some_0.id)
    &&& entry_table(f.db_conn) == mid.insert(f.running_entry->Some_0.id, f.running_entry->Some_0.row())
    &&& tray_mirrors(f.tray, f.running_entry, f.timer_text@)
}

/// A continue at `now` failed from `o` to `f`: either the timer and storage
/// are as they were (the stop failed, or there was nothing to stop and the
/// start failed, leaving the source's text in the fields), or the old entry
/// was stopped at `now` and the new one was not stored.
pub open spec fn continue_failed(o: AppState, f: AppState, now: i64) -> bool {
    (f.running_entry == o.running_entry && f.timer_text == o.timer_text && f.tray == o.tray
        && entry_table(f.db_conn) == entry_table(o.db_conn))
        || (o.running_entry is Some && f.running_entry is None
        && entry_table(f.db_conn) == ended(entry_table(o.db_conn), o.running_entry->Some_0.id, now))
}


impl AppState {
    /// A stopped session over `db_conn`, with "No Project" selected.
    pub fn new(projects: Vec<Project>, db_conn: Connection) -> (r: Self)
        ensures
            r.running_entry is None,
            r.description@ == Seq::<char>::empty(),
            r.selected == 0,
            r.projects == projects,
            r.db_conn == db_conn,
            r.view_mode == ViewMode::Today,
            r.timer_text@ == duration_text(0),
            tray_mirrors(r.tray, None, duration_text(0)),
    {
        let timer_text = format_duration(0);
        let tray = TrayState { is_running: false, elapsed_time: timer_text.clone(), description: String::new() };
        AppState {
            running_entry: None,
            description: String::new(),
            selected: 0,
            projects,
            db_conn,
            view_mode: ViewMode::Today,
            timer_text,
            tray,
        }
    }

    /// The project the selector stands on; "No Project", or a position past
    /// the list, gives none.
    pub fn get_selected_project_id(&self) -> (r: Option<i64>)
        ensures
            r == selected_project(self.projects@, self.selected as int),
    {
        if self.selected == 0 || self.selected > self.projects.len() {
            None
        } else {
            Some(self.projects[self.selected - 1].id)
        }
    }

    /// Moves the selector to the first listed project with id `project_id`,
    /// or to "No Project" where there is none.
    pub fn set_selected_project(&mut self, project_id: Option<i64>)
        ensures
            selected_project(final(self).projects@, final(self).selected as int)
                == listed_project(old(self).projects@, project_id),
            final(self).selected <= final(self).projects.len(),
            project_id is Some && final(self).selected > 0 ==> forall|k: int|
                0 <= k < final(self).selected - 1 ==> old(self).projects@[k].id != project_id->Some_0,
            final(self).projects == old(self).projects,
            final(self).running_entry == old(self).running_entry,
            final(self).description == old(self).description,
            final(self).db_conn == old(self).db_conn,
            final(self).timer_text == old(self).timer_text,
            final(self).tray == old(self).tray,
            final(self).view_mode == old(self).view_mode,
    {
        let position: usize = match project_id {
            None => 0,
            Some(id) => {
                let mut i: usize = 0;
                while i < self.projects.len() && self.projects[i].id != id
                    invariant
                        0 <= i <= self.projects.len(),
                        forall|k: int| 0 <= k < i ==> self.projects@[k].id != id,
                    decreases self.projects.len() - i,
                {
                    i += 1;
                }
                if i < self.projects.len() { i + 1 } else { 0 }
            },
        };
        self.selected = position;
    }

    /// `HH:MM:SS` from `start_time` to `now`, zero where `now` is earlier.
    pub fn format_elapsed(&self, start_time: i64, now: i64) -> (r: String)
        ensures
            r@ == duration_text(elapsed_seconds(start_time as int, now as int)),
    {
        let d: i128 = now as i128 - start_time as i128;
        let secs: i64 = if d <= 0 { 0 } else if d > i64::MAX as i128 { i64::MAX } else { d as i64 };
        format_duration(secs)
    }

    /// Recomputes the timer label at `now` and pushes it, with the running
    /// state and description, to the tray snapshot.
    pub fn update_timer_display(&mut self, now: i64)
        ensures
            final(self).timer_text@ == timer_display(old(self).running_entry, now as int),
            tray_mirrors(final(self).tray, old(self).running_entry, final(self).timer_text@),
            final(self).running_entry == old(self).running_entry,
            final(self).description == old(self).description,
            final(self).selected == old(self).selected,
            final(self).projects == old(self).projects,
            final(self).db_conn == old(self).db_conn,
            final(self).view_mode == old(self).view_mode,
    {
        let (text, description) = match &self.running_entry {
            Some(e) => (self.format_elapsed(e.start_time, now), e.description.clone()),
            None => (format_duration(0), String::new()),
        };
        self.tray = TrayState {
            is_running: self.running_entry.is_some(),
            elapsed_time: text.clone(),
            description,
        };
        self.timer_text = text;
    }

    /// The periodic refresh: `update_timer_display` at the current instant;
    /// where the clock cannot be read, nothing changes.
    pub fn tick(&mut self)
        ensures
            (exists|now: int| final(self).timer_text@ == timer_display(old(self).running_entry, now))
                && tray_mirrors(final(self).tray, old(self).running_entry, final(self).timer_text@)
                || *final(self) == *old(self),
            final(self).running_entry == old(self).running_entry,
            final(self).db_conn == old(self).db_conn,
    {
        match now_seconds() {
            Some(now) => self.update_timer_display(now),
            None => {},
        }
    }

    /// Starts a timer at `now` with the description field and the selected
    /// project. Refused while a timer runs; where storage refuses the entry,
    /// nothing changes.
    pub fn start_timer_at(&mut self, now: i64) -> (r: Result<(), TimerError>)
        ensures
            old(self).running_entry is Some ==> r == Err::<(), TimerError>(TimerError::InvalidState)
                && *final(self) == *old(self),
            old(self).running_entry is None && r is Err ==> r == Err::<(), TimerError>(TimerError::Storage),
            r is Ok ==> start_effect(*old(self), *final(self), now),
            r is Err ==> timer_unchanged(*old(self), *final(self)),
            timer_keeps(*old(self), *final(self)),
    {
        if self.running_entry.is_some() {
            return Err(TimerError::InvalidState);
        }
        let project_id = self.get_selected_project_id();
        match create_entry(&mut self.db_conn, project_id, self.description.as_str(), now) {
            Ok(entry) => {
                self.running_entry = Some(entry);
                self.update_timer_display(now);
                Ok(())
            },
            Err(_) => Err(TimerError::Storage),
        }
    }

    /// `start_timer_at` the current instant; fails with `Clock`, changing
    /// nothing, where the clock cannot be read.
    pub fn start_timer(&mut self) -> (r: Result<(), TimerError>)
        ensures
            old(self).running_entry is Some ==> r is Err && *final(self) == *old(self),
            r is Ok ==> exists|now: i64| start_effect(*old(self), *final(self), now),
            r is Err ==> timer_unchanged(*old(self), *final(self)),
            timer_keeps(*old(self), *final(self)),
    {
        match now_seconds() {
            Some(now) => {
                let r = self.start_timer_at(now);
                assert(r is Ok ==> start_effect(*old(self), *self, now));
                r
            },
            None => Err(TimerError::Clock),
        }
    }

    /// Ends the running entry at `now`, then clears the description field
    /// and selects "No Project". Refused while no timer runs; where storage
    /// refuses the end, nothing changes and the stop can be retried.
    pub fn stop_timer_at(&mut self, now: i64) -> (r: Result<(), TimerError>)
        ensures
            old(self).running_entry is None ==> r == Err::<(), TimerError>(TimerError::InvalidState)
                && *final(self) == *old(self),
            old(self).running_entry is Some && r is Err ==> r == Err::<(), TimerError>(TimerError::Storage),
            r is Ok ==> stop_effect(*old(self), *final(self), now),
            r is Err ==> timer_unchanged(*old(self), *final(self)),
            timer_keeps(*old(self), *final(self)),
    {
        let id = match &self.running_entry {
            Some(e) => e.id,
            None => { return Err(TimerError::InvalidState); },
        };
        match stop_entry(&mut self.db_conn, id, now) {
            Ok(()) => {
                self.running_entry = None;
                self.description = String::new();
                self.selected = 0;
                self.update_timer_display(now);
                Ok(())
            },
            Err(_) => Err(TimerError::Storage),
        }
    }

    /// `stop_timer_at` the current instant; fails with `Clock`, changing
    /// nothing, where the clock cannot be read.
    pub fn stop_timer(&mut self) -> (r: Result<(), TimerError>)
        ensures
            old(self).running_entry is None ==> r is Err && *final(self) == *old(self),
            r is Ok ==> exists|now: i64| stop_effect(*old(self), *final(self), now),
            r is Err ==> timer_unchanged(*old(self), *final(self)),
            timer_keeps(*old(self), *final(self)),
    {
        match now_seconds() {
            Some(now) => {
                let r = self.stop_timer_at(now);
                assert(r is Ok ==> stop_effect(*old(self), *self, now));
                r
            },
            None => Err(TimerError::Clock),
        }
    }

    /// Stops the timer at `now` if it runs, else starts one: the result and
    /// the effect are those of `stop_timer_at` or `start_timer_at`.
    pub fn toggle_timer_at(&mut self, now: i64) -> (r: Result<(), TimerError>)
        ensures
            r is Err ==> r == Err::<(), TimerError>(TimerError::Storage),
            old(self).running_entry is Some && r is Ok ==> stop_effect(*old(self), *final(self), now),
            old(self).running_entry is None && r is Ok ==> start_effect(*old(self), *final(self), now),
            r is Err ==> timer_unchanged(*old(self), *final(self)),
            timer_keeps(*old(self), *final(self)),
    {
        if self.running_entry.is_some() {
            self.stop_timer_at(now)
        } else {
            self.start_timer_at(now)
        }
    }

    /// `toggle_timer_at` the current instant; fails with `Clock`, changing
    /// nothing, where the clock cannot be read.
    pub fn toggle_timer(&mut self) -> (r: Result<(), TimerError>)
        ensures
            old(self).running_entry is Some && r is Ok ==> exists|now: i64| stop_effect(*old(self), *final(self), now),
            old(self).running_entry is None && r is Ok ==> exists|now: i64| start_effect(*old(self), *final(self), now),
            r is Err ==> timer_unchanged(*old(self), *final(self)),
            timer_keeps(*old(self), *final(self)),
    {
        match now_seconds() {
            Some(now) => {
                let ghost was_running = self.running_entry is Some;
                let r = self.toggle_timer_at(now);
                assert(was_running && r is Ok ==> stop_effect(*old(self), *self, now));
                assert(!was_running && r is Ok ==> start_effect(*old(self), *self, now));
                r
            },
            None => Err(TimerError::Clock),
        }
    }

    /// Starts, at `now`, a new entry with the description and project of
    /// `entry`, stopping the running one first. Where stopping fails,
    /// nothing at all is done; where starting then fails, the timer stays
    /// stopped. A project that is no longer listed gives an entry without
    /// project.
    pub fn continue_entry_at(&mut self, entry: &TimeEntry, now: i64) -> (r: Result<(), TimerError>)
        ensures
            r is Ok ==> continue_effect(*old(self), *final(self), *entry, now),
            r is Err ==> r == Err::<(), TimerError>(TimerError::Storage),
            r is Err ==> continue_failed(*old(self), *final(self), now),
            timer_keeps(*old(self), *final(self)),
    {
        if self.running_entry.is_some() {
            match self.stop_timer_at(now) {
                Ok(()) => {},
                Err(e) => { return Err(e); },
            }
        }
        self.description = entry.description.clone();
        self.set_selected_project(entry.project_id);
        self.start_timer_at(now)
    }

    /// `continue_entry_at` the current instant; fails with `Clock`, changing
    /// nothing, where the clock cannot be read.
    pub fn continue_entry(&mut self, entry: &TimeEntry) -> (r: Result<(), TimerError>)
        ensures
            r is Ok ==> exists|now: i64| continue_effect(*old(self), *final(self), *entry, now),
            r is Err ==> exists|now: i64| continue_failed(*old(self), *final(self), now),
            timer_keeps(*old(self), *final(self)),
    {
        match now_seconds() {
            Some(now) => {
                let r = self.continue_entry_at(entry, now);
                assert(r is Ok ==> continue_effect(*old(self), *self, *entry, now));
                assert(r is Err ==> continue_failed(*old(self), *self, now));
                r
            },
            None => {
                assert(continue_failed(*old(self), *self, 0));
                Err(TimerError::Clock)
            },
        }
    }

    /// Deletes the entry `entry_id` from storage, unless it is the running
    /// entry: `Running` exactly then, with nothing asked of storage;
    /// `Storage` where storage refused, changing nothing.
    pub fn remove_entry(&mut self, entry_id: i64) -> (r: Result<(), DeleteError>)
        ensures
            (r == Err::<(), DeleteError>(DeleteError::Running)) <==> (old(self).running_entry is Some
                && old(self).running_entry->Some_0.id == entry_id),
            r == Err::<(), DeleteError>(DeleteError::Running) ==> *final(self) == *old(self),
            r is Ok ==> entry_table(final(self).db_conn) == entry_table(old(self).db_conn).remove(entry_id),
            r is Err ==> entry_table(final(self).db_conn) == entry_table(old(self).db_conn),
            final(self).running_entry == old(self).running_entry,
            final(self).description == old(self).description,
            final(self).selected == old(self).selected,
            final(self).timer_text == old(self).timer_text,
            final(self).tray == old(self).tray,
            timer_keeps(*old(self), *final(self)),
    {
        match &self.running_entry {
            Some(running) => {
                if running.id == entry_id {
                    return Err(DeleteError::Running);
                }
            },
            None => {},
        }
        match delete_entry(&mut self.db_conn, entry_id) {
            Ok(()) => Ok(()),
            Err(_) => Err(DeleteError::Storage),
        }
    }

    /// `remove_entry`, answering whether the entry list should be
    /// refreshed: true exactly where it returned `Ok`.
    pub fn delete_entry(&mut self, entry_id: i64) -> (r: bool)
        ensures
            old(self).running_entry is Some && old(self).running_entry->Some_0.id == entry_id ==> !r && *final(self) == *old(self),
            r ==> entry_table(final(self).db_conn) == entry_table(old(self).db_conn).remove(entry_id),
            !r ==> entry_table(final(self).db_conn) == entry_table(old(self).db_conn),
            final(self).running_entry == old(self).running_entry,
            final(self).description == old(self).description,
            final(self).selected == old(self).selected,
            final(self).timer_text == old(self).timer_text,
            final(self).tray == old(self).tray,
            timer_keeps(*old(self), *final(self)),
    {
        self.remove_entry(entry_id).is_ok()
    }

    /// Takes `found` as the running entry, if there is one: puts its
    /// description and project into the fields and shows its elapsed time
    /// at `now`. With nothing found, nothing changes.
    pub fn adopt_running(&mut self, found: Option<TimeEntry>, now: i64)
        ensures
            found is None ==> *final(self) == *old(self),
            found matches Some(e) ==> final(self).running_entry == Some(e)
                && final(self).description@ == e.description@
                && selected_project(final(self).projects@, final(self).selected as int)
                    == listed_project(old(self).projects@, e.project_id)
                && final(self).timer_text@ == timer_display(Some(e), now as int)
                && tray_mirrors(final(self).tray, Some(e), final(self).timer_text@),
            final(self).db_conn == old(self).db_conn,
            final(self).projects == old(self).projects,
            final(self).view_mode == old(self).view_mode,
    {
        match found {
            Some(e) => {
                self.description = e.description.clone();
                self.set_selected_project(e.project_id);
                self.running_entry = Some(e);
                self.update_timer_display(now);
            },
            None => {},
        }
    }

    /// Adopts the running entry of storage, if any (see `adopt_running`),
    /// showing its elapsed time at the current instant, or as zero where the
    /// clock cannot be read.
    pub fn restore_running_entry_on_startup(&mut self) -> (r: Result<(), StorageError>)
        ensures
            r is Ok && (exists|k: i64| #[trigger] entry_table(old(self).db_conn).contains_key(k)
                && entry_table(old(self).db_conn)[k].end_time is None) ==> (final(self).running_entry matches Some(e)
                && is_latest_running(entry_table(old(self).db_conn), e.id)
                && e.row() == entry_table(old(self).db_conn)[e.id]
                && final(self).description@ == e.description@
                && selected_project(final(self).projects@, final(self).selected as int)
                    == listed_project(old(self).projects@, e.project_id)
                && tray_mirrors(final(self).tray, final(self).running_entry, final(self).timer_text@)),
            r is Ok && (forall|k: i64| #[trigger] entry_table(old(self).db_conn).contains_key(k)
                ==> entry_table(old(self).db_conn)[k].end_time is Some) ==> *final(self) == *old(self),
            r is Ok && old(self).running_entry is None && at_most_one_running(entry_table(old(self).db_conn))
                ==> tracks_storage(final(self).running_entry, entry_table(final(self).db_conn)),
            r is Err ==> *final(self) == *old(self),
            final(self).db_conn == old(self).db_conn,
            final(self).projects == old(self).projects,
    {
        match get_running_entry(&self.db_conn) {
            Ok(found) => {
                let now = match now_seconds() {
                    Some(t) => t,
                    None => 0,
                };
                self.adopt_running(found, now);
                Ok(())
            },
            Err(_) => Err(StorageError),
        }
    }

    /// Reloads the project list from storage, in order of name; where the
    /// read fails the list is left empty.
    pub fn refresh_projects(&mut self) -> (r: Result<(), StorageError>)
        ensures
            r is Ok ==> lists_projects(final(self).projects@, project_table(old(self).db_conn))
                && names_ordered(final(self).projects@),
            r is Err ==> final(self).projects@.len() == 0,
            final(self).db_conn == old(self).db_conn,
            final(self).running_entry == old(self).running_entry,
    {
        match get_all_projects(&self.db_conn) {
            Ok(v) => {
                self.projects = v;
                Ok(())
            },
            Err(_) => {
                self.projects = Vec::new();
                Err(StorageError)
            },
        }
    }
    /// Carries out `action` at `now`: every surface funnels its requests
    /// through here.
    pub fn handle_action_at(&mut self, action: Action, now: i64) -> (r: ActionOutcome)
        ensures
            action == Action::ShowWindow ==> r == ActionOutcome::ShowWindow && *final(self) == *old(self),
            action == Action::Quit ==> r == ActionOutcome::Quit && *final(self) == *old(self),
            action != Action::ShowWindow && action != Action::Quit
                ==> r == ActionOutcome::Refresh || r == ActionOutcome::Refused || r == ActionOutcome::Failed,
            r == ActionOutcome::Refused ==> *final(self) == *old(self),
            action == Action::Start ==> ((r == ActionOutcome::Refused) <==> old(self).running_entry is Some),
            action == Action::Start && r == ActionOutcome::Refresh ==> start_effect(*old(self), *final(self), now),
            action == Action::Stop ==> ((r == ActionOutcome::Refused) <==> old(self).running_entry is None),
            action == Action::Stop && r == ActionOutcome::Refresh ==> stop_effect(*old(self), *final(self), now),
            action == Action::Toggle ==> r != ActionOutcome::Refused,
            action == Action::Toggle && r == ActionOutcome::Refresh && old(self).running_entry is Some
                ==> stop_effect(*old(self), *final(self), now),
            action == Action::Toggle && r == ActionOutcome::Refresh && old(self).running_entry is None
                ==> start_effect(*old(self), *final(self), now),
            (action == Action::Start || action == Action::Stop || action == Action::Toggle) && r == ActionOutcome::Failed
                ==> timer_unchanged(*old(self), *final(self)),
            action matches Action::Continue(id) ==> (r == ActionOutcome::Refused
                ==> !entry_table(old(self).db_conn).contains_key(id)),
            action matches Action::Continue(id) ==> (entry_table(old(self).db_conn).contains_key(id)
                ==> r != ActionOutcome::Refused),
            action matches Action::Continue(id) ==> (r == ActionOutcome::Refresh ==> exists|src: TimeEntry|
                src.id == id && entry_table(old(self).db_conn).contains_key(id) && src.row() == entry_table(old(self).db_conn)[id]
                && continue_effect(*old(self), *final(self), src, now)),
            action is Continue && r == ActionOutcome::Failed ==> continue_failed(*old(self), *final(self), now),
            action matches Action::Delete(id) ==> ((r == ActionOutcome::Refused) <==> (old(self).running_entry is Some
                && old(self).running_entry->Some_0.id == id)),
            action matches Action::Delete(id) ==> (r == ActionOutcome::Refresh
                ==> entry_table(final(self).db_conn) == entry_table(old(self).db_conn).remove(id)),
            action is Delete && r != ActionOutcome::Refresh ==> timer_unchanged(*old(self), *final(self)),
            timer_keeps(*old(self), *final(self)),
    {
        match action {
            Action::Start => match self.start_timer_at(now) {
                Ok(()) => ActionOutcome::Refresh,
                Err(TimerError::InvalidState) => ActionOutcome::Refused,
                Err(_) => ActionOutcome::Failed,
            },
            Action::Stop => match self.stop_timer_at(now) {
                Ok(()) => ActionOutcome::Refresh,
                Err(TimerError::InvalidState) => ActionOutcome::Refused,
                Err(_) => ActionOutcome::Failed,
            },
            Action::Toggle => match self.toggle_timer_at(now) {
                Ok(()) => ActionOutcome::Refresh,
                Err(_) => ActionOutcome::Failed,
            },
            Action::Continue(id) => match get_entry_by_id(&self.db_conn, id) {
                Ok(Some(source)) => {
                    let r = self.continue_entry_at(&source, now);
                    match r {
                        Ok(()) => ActionOutcome::Refresh,
                        Err(_) => ActionOutcome::Failed,
                    }
                },
                Ok(None) => ActionOutcome::Refused,
                Err(_) => {
                    assert(continue_failed(*old(self), *self, now));
                    ActionOutcome::Failed
                },
            },
            Action::Delete(id) => match self.remove_entry(id) {
                Ok(()) => ActionOutcome::Refresh,
                Err(DeleteError::Running) => ActionOutcome::Refused,
                Err(DeleteError::Storage) => ActionOutcome::Failed,
            },
            Action::ShowWindow => ActionOutcome::ShowWindow,
            Action::Quit => ActionOutcome::Quit,
        }
    }

    /// `handle_action_at` the current instant. Where the clock cannot be
    /// read, an action that needs it fails and changes nothing.
    pub fn handle_action(&mut self, action: Action) -> (r: ActionOutcome)
        ensures
            action == Action::ShowWindow ==> r == ActionOutcome::ShowWindow && *final(self) == *old(self),
            action == Action::Quit ==> r == ActionOutcome::Quit && *final(self) == *old(self),
            r == ActionOutcome::Refused ==> *final(self) == *old(self),
            action == Action::Start && old(self).running_entry is Some ==> r != ActionOutcome::Refresh,
            action == Action::Start && r == ActionOutcome::Refresh ==> exists|now: i64| start_effect(*old(self), *final(self), now),
            action == Action::Stop && r == ActionOutcome::Refresh ==> exists|now: i64| stop_effect(*old(self), *final(self), now),
            (action == Action::Start || action == Action::Stop || action == Action::Toggle) && r == ActionOutcome::Failed
                ==> timer_unchanged(*old(self), *final(self)),
            action matches Action::Delete(id) ==> ((r == ActionOutcome::Refused) <==> (old(self).running_entry is Some
                && old(self).running_entry->Some_0.id == id)),
            action matches Action::Delete(id) ==> (r == ActionOutcome::Refresh
                ==> entry_table(final(self).db_conn) == entry_table(old(self).db_conn).remove(id)),
            timer_keeps(*old(self), *final(self)),
    {
        match now_seconds() {
            Some(now) => {
                let r = self.handle_action_at(action, now);
                assert(action == Action::Start && r == ActionOutcome::Refresh ==> start_effect(*old(self), *self, now));
                assert(action == Action::Stop && r == ActionOutcome::Refresh ==> stop_effect(*old(self), *self, now));
                r
            },
            None => match action {
                Action::ShowWindow => ActionOutcome::ShowWindow,
                Action::Quit => ActionOutcome::Quit,
                Action::Delete(id) => match self.remove_entry(id) {
                    Ok(()) => ActionOutcome::Refresh,
                    Err(DeleteError::Running) => ActionOutcome::Refused,
                    Err(DeleteError::Storage) => ActionOutcome::Failed,
                },
                _ => ActionOutcome::Failed,
            },
        }
    }
}

} // verus!

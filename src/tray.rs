//! What the system-tray icon shows and which actions its menu offers.
//!
//! The tray holds a snapshot of the timer (`TrayState`) that the session
//! pushes after every change, and one callback per menu action. Rendering
//! it through a tray service is left to the host program.
use vstd::prelude::*;

verus! {

/// The timer as the tray shows it.
pub struct TrayState {
    pub is_running: bool,
    pub elapsed_time: String,
    pub description: String,
}

impl Default for TrayState {
    fn default() -> (r: Self)
        ensures
            !r.is_running,
            r.elapsed_time@ == "00:00:00"@,
            r.description@ == Seq::<char>::empty(),
    {
        TrayState { is_running: false, elapsed_time: String::from_str("00:00:00"), description: String::new() }
    }
}

/// A menu action of the tray.
#[derive(Debug, Clone, Copy, PartialEq, Eq)]
pub enum TrayAction {
    ToggleTimer,
    ShowWindow,
    Quit,
}

/// The tray icon: the timer snapshot and a callback for each action.
pub struct TimeTrackingTray<C> {
    pub state: TrayState,
    pub on_toggle_timer: Option<C>,
    pub on_show_window: Option<C>,
    pub on_quit: Option<C>,
}

/// Tooltip text: the description (or "Running") and the elapsed time while
/// the timer runs, else "Timer stopped".
pub open spec fn tool_tip_text(s: TrayState) -> Seq<char> {
    if !s.is_running {
        "Timer stopped"@
    } else if s.description@.len() == 0 {
        "Running: "@ + s.elapsed_time@
    } else {
        s.description@ + ": "@ + s.elapsed_time@
    }
}

/// Text of the menu's status line, shown only while the timer runs.
pub open spec fn status_text(s: TrayState) -> Seq<char> {
    if s.description@.len() == 0 {
        "Timer: "@ + s.elapsed_time@
    } else {
        s.description@ + ": "@ + s.elapsed_time@
    }
}

impl<C: Fn()> TimeTrackingTray<C> {
    /// A tray over `state`, with no callbacks yet.
    pub fn new(state: TrayState) -> (r: Self)
        ensures
            r.state == state,
            r.on_toggle_timer is None,
            r.on_show_window is None,
            r.on_quit is None,
    {
        TimeTrackingTray { state, on_toggle_timer: None, on_show_window: None, on_quit: None }
    }

    /// The same tray, with `callback` run when the timer is toggled.
    pub fn with_toggle_timer(self, callback: C) -> (r: Self)
        ensures
            r.on_toggle_timer == Some(callback),
            r.state == self.state,
            r.on_show_window == self.on_show_window,
            r.on_quit == self.on_quit,
    {
        TimeTrackingTray { on_toggle_timer: Some(callback), ..self }
    }

    /// The same tray, with `callback` run when the window is asked for.
    pub fn with_show_window(self, callback: C) -> (r: Self)
        ensures
            r.on_show_window == Some(callback),
            r.state == self.state,
            r.on_toggle_timer == self.on_toggle_timer,
            r.on_quit == self.on_quit,
    {
        TimeTrackingTray { on_show_window: Some(callback), ..self }
    }

    /// The same tray, with `callback` run when quitting is asked for.
    pub fn with_quit(self, callback: C) -> (r: Self)
        ensures
            r.on_quit == Some(callback),
            r.state == self.state,
            r.on_toggle_timer == self.on_toggle_timer,
            r.on_show_window == self.on_show_window,
    {
        TimeTrackingTray { on_quit: Some(callback), ..self }
    }

    /// Replaces the timer snapshot; the callbacks stay.
    pub fn update(&mut self, is_running: bool, elapsed_time: &str, description: &str)
        ensures
            final(self).state.is_running == is_running,
            final(self).state.elapsed_time@ == elapsed_time@,
            final(self).state.description@ == description@,
            final(self).on_toggle_timer == old(self).on_toggle_timer,
            final(self).on_show_window == old(self).on_show_window,
            final(self).on_quit == old(self).on_quit,
    {
        self.state = TrayState {
            is_running,
            elapsed_time: String::from_str(elapsed_time),
            description: String::from_str(description),
        };
    }

    /// Icon name: a record mark while the timer runs, a clock otherwise.
    pub fn icon_name(&self) -> (r: String)
        ensures
            r@ == (if self.state.is_running { "media-record"@ } else { "appointment-soon"@ }),
    {
        if self.state.is_running {
            String::from_str("media-record")
        } else {
            String::from_str("appointment-soon")
        }
    }

    pub fn title(&self) -> (r: String)
        ensures
            r@ == "Time Tracking"@,
    {
        String::from_str("Time Tracking")
    }

    pub fn id(&self) -> (r: String)
        ensures
            r@ == "time-tracking"@,
    {
        String::from_str("time-tracking")
    }

    /// The tooltip's description line.
    pub fn tool_tip(&self) -> (r: String)
        ensures
            r@ == tool_tip_text(self.state),
    {
        if !self.state.is_running {
            String::from_str("Timer stopped")
        } else if self.state.description.as_str().unicode_len() == 0 {
            String::from_str("Running: ").concat(self.state.elapsed_time.as_str())
        } else {
            let mut t = self.state.description.clone();
            t.append(": ");
            t.append(self.state.elapsed_time.as_str());
            t
        }
    }

    /// The menu's status line, present only while the timer runs.
    pub fn status_line(&self) -> (r: Option<String>)
        ensures
            r is Some == self.state.is_running,
            r matches Some(t) ==> t@ == status_text(self.state),
    {
        if !self.state.is_running {
            None
        } else if self.state.description.as_str().unicode_len() == 0 {
            Some(String::from_str("Timer: ").concat(self.state.elapsed_time.as_str()))
        } else {
            let mut t = self.state.description.clone();
            t.append(": ");
            t.append(self.state.elapsed_time.as_str());
            Some(t)
        }
    }

    /// Label and icon name of the menu item that starts or stops the timer.
    pub fn toggle_item(&self) -> (r: (String, String))
        ensures
            r.0@ == (if self.state.is_running { "Stop Timer"@ } else { "Start Timer"@ }),
            r.1@ == (if self.state.is_running { "media-playback-stop"@ } else { "media-playback-start"@ }),
    {
        if self.state.is_running {
            (String::from_str("Stop Timer"), String::from_str("media-playback-stop"))
        } else {
            (String::from_str("Start Timer"), String::from_str("media-playback-start"))
        }
    }

    /// Runs the callback of `action`, where one is set.
    pub fn activate(&self, action: TrayAction)
        requires
            self.on_toggle_timer matches Some(f) ==> f.requires(()),
            self.on_show_window matches Some(f) ==> f.requires(()),
            self.on_quit matches Some(f) ==> f.requires(()),
        ensures
            action == TrayAction::ToggleTimer && self.on_toggle_timer is Some
                ==> self.on_toggle_timer->Some_0.ensures((), ()),
            action == TrayAction::ShowWindow && self.on_show_window is Some
                ==> self.on_show_window->Some_0.ensures((), ()),
            action == TrayAction::Quit && self.on_quit is Some ==> self.on_quit->Some_0.ensures((), ()),
    {
        let callback = match action {
            TrayAction::ToggleTimer => &self.on_toggle_timer,
            TrayAction::ShowWindow => &self.on_show_window,
            TrayAction::Quit => &self.on_quit,
        };
        match callback {
            Some(f) => { f(); },
            None => {},
        }
    }
}

} // verus!

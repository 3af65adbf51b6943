//! Tray status and host lifecycle. The tray projects the run state to a
//! non-colour glyph and label, and notifies exactly on entering "needs you";
//! closing the window hides it and leaves the host and its log running.
use vstd::prelude::*;
use crate::state::RunStatus;

verus! {

/// The coarse state the tray projects.
#[derive(Debug, Clone, Copy, PartialEq, Eq, Structural)]
pub enum TrayStatus {
    /// No active run.
    Idle,
    /// A run is executing and needs nothing from the operator.
    Running,
    /// The run is blocked on the operator (an open permission prompt).
    NeedsYou,
}

/// How a tray status is presented: a non-colour glyph and a text label.
#[derive(Debug, Clone, PartialEq, Eq)]
pub struct TrayPresentation {
    pub status: TrayStatus,
    pub glyph: char,
    pub label: &'static str,
    /// A badge is shown only when the operator must act.
    pub badge: bool,
}

/// Derive the tray status: an open prompt always means `NeedsYou`; otherwise a
/// running run is `Running` and anything else is `Idle`.
pub fn derive_status(run: RunStatus, open_transmissions: usize) -> (r: TrayStatus)
    ensures
        r == (if open_transmissions > 0 {
            TrayStatus::NeedsYou
        } else if run == RunStatus::Running {
            TrayStatus::Running
        } else {
            TrayStatus::Idle
        }),
{
    if open_transmissions > 0 {
        return TrayStatus::NeedsYou;
    }
    match run {
        RunStatus::Running => TrayStatus::Running,
        RunStatus::Drafted
        | RunStatus::Met
        | RunStatus::HaltedGuardrail
        | RunStatus::Aborted
        | RunStatus::Paused => TrayStatus::Idle,
    }
}

pub open spec fn glyph_of(status: TrayStatus) -> char {
    match status {
        TrayStatus::Idle => '○',
        TrayStatus::Running => '◔',
        TrayStatus::NeedsYou => '●',
    }
}

pub open spec fn label_of(status: TrayStatus) -> Seq<char> {
    match status {
        TrayStatus::Idle => "Idle"@,
        TrayStatus::Running => "Running"@,
        TrayStatus::NeedsYou => "Needs you"@,
    }
}

/// Present a status as a glyph, label and badge flag.
pub fn present(status: TrayStatus) -> (r: TrayPresentation)
    ensures
        r.status == status,
        r.glyph == glyph_of(status),
        r.label@ == label_of(status),
        r.badge == (status == TrayStatus::NeedsYou),
{
    match status {
        TrayStatus::Idle => TrayPresentation { status, glyph: '○', label: "Idle", badge: false },
        TrayStatus::Running => TrayPresentation { status, glyph: '◔', label: "Running", badge: false },
        TrayStatus::NeedsYou => TrayPresentation { status, glyph: '●', label: "Needs you", badge: true },
    }
}

/// Distinct statuses are presented with distinct glyphs and labels.
pub proof fn lemma_presentation_distinct(a: TrayStatus, b: TrayStatus)
    requires
        a != b,
    ensures
        glyph_of(a) != glyph_of(b),
        label_of(a) != label_of(b),
{
    reveal_strlit("Idle");
    reveal_strlit("Running");
    reveal_strlit("Needs you");
    assert("Idle"@.len() != "Running"@.len());
    assert("Idle"@.len() != "Needs you"@.len());
    assert("Running"@.len() != "Needs you"@.len());
}

/// A native notification to raise when the operator's attention is newly needed.
#[derive(Debug, Clone, PartialEq, Eq)]
pub struct TrayNotification {
    pub title: &'static str,
    pub body: &'static str,
}

/// A notification only on the transition into `NeedsYou` — never while
/// staying in it, never on leaving it.
pub fn notification_on_transition(prev: TrayStatus, next: TrayStatus) -> (r: Option<TrayNotification>)
    ensures
        r is Some <==> (next == TrayStatus::NeedsYou && prev != TrayStatus::NeedsYou),
        r matches Some(n) ==> n.title@ == "Wagner needs you"@ && n.body@
            == "A run is waiting on your answer."@,
{
    if next == TrayStatus::NeedsYou && prev != TrayStatus::NeedsYou {
        Some(TrayNotification { title: "Wagner needs you", body: "A run is waiting on your answer." })
    } else {
        None
    }
}

/// What the window should do in response to a lifecycle event.
#[derive(Debug, Clone, Copy, PartialEq, Eq, Structural)]
pub enum WindowAction {
    /// Hide the window (keep the host alive in the tray).
    Hide,
    /// Exit the app (tear the host down).
    Exit,
}

/// A lifecycle event the desktop shell forwards.
#[derive(Debug, Clone, Copy, PartialEq, Eq, Structural)]
pub enum LifecycleEvent {
    CloseRequested,
    Reopen,
    AppQuit,
}

/// The host's lifecycle relative to the desktop window.
#[derive(Debug, Clone, Copy, PartialEq, Eq)]
pub struct HostLifecycle {
    pub window_visible: bool,
    pub host_running: bool,
    pub log_open: bool,
}

impl HostLifecycle {
    pub fn new() -> (r: Self)
        ensures
            r.window_visible && r.host_running && r.log_open,
    {
        HostLifecycle { window_visible: true, host_running: true, log_open: true }
    }

    /// Apply a lifecycle event. Closing hides the window and never stops the
    /// host or log; reopening shows it; only quitting tears everything down.
    pub fn on_event(&mut self, event: LifecycleEvent) -> (r: WindowAction)
        ensures
            match event {
                LifecycleEvent::CloseRequested => r == WindowAction::Hide && !final(self).window_visible
                    && final(self).host_running == old(self).host_running && final(self).log_open
                    == old(self).log_open,
                LifecycleEvent::Reopen => r == WindowAction::Hide && final(self).window_visible
                    && final(self).host_running == old(self).host_running && final(self).log_open
                    == old(self).log_open,
                LifecycleEvent::AppQuit => r == WindowAction::Exit && !final(self).window_visible
                    && !final(self).host_running && !final(self).log_open,
            },
    {
        match event {
            LifecycleEvent::CloseRequested => {
                self.window_visible = false;
                WindowAction::Hide
            },
            LifecycleEvent::Reopen => {
                self.window_visible = true;
                WindowAction::Hide
            },
            LifecycleEvent::AppQuit => {
                self.window_visible = false;
                self.host_running = false;
                self.log_open = false;
                WindowAction::Exit
            },
        }
    }
}

impl Default for HostLifecycle {
    fn default() -> (r: Self)
        ensures
            r.window_visible && r.host_running && r.log_open,
    {
        Self::new()
    }
}

/// Over any sequence of events, the host and its log keep running unless an
/// `AppQuit` occurs.
pub open spec fn apply_events(h: HostLifecycle, events: Seq<LifecycleEvent>) -> HostLifecycle
    decreases events.len(),
{
    if events.len() == 0 {
        h
    } else {
        let prev = apply_events(h, events.drop_last());
        match events.last() {
            LifecycleEvent::CloseRequested => HostLifecycle { window_visible: false, ..prev },
            LifecycleEvent::Reopen => HostLifecycle { window_visible: true, ..prev },
            LifecycleEvent::AppQuit => HostLifecycle {
                window_visible: false,
                host_running: false,
                log_open: false,
            },
        }
    }
}

/// Closing and reopening the window any number of times never stops the host
/// or closes the log; only `AppQuit` does.
pub proof fn lemma_only_quit_stops_host(h: HostLifecycle, events: Seq<LifecycleEvent>)
    requires
        h.host_running,
        h.log_open,
    ensures
        (forall|i: int| 0 <= i < events.len() ==> #[trigger] events[i] != LifecycleEvent::AppQuit) ==> (
        apply_events(h, events).host_running && apply_events(h, events).log_open),
    decreases events.len(),
{
    if events.len() > 0 {
        lemma_only_quit_stops_host(h, events.drop_last());
        if forall|i: int| 0 <= i < events.len() ==> #[trigger] events[i] != LifecycleEvent::AppQuit {
            assert forall|i: int| 0 <= i < events.drop_last().len() implies #[trigger] events.drop_last()[i]
                != LifecycleEvent::AppQuit by {
                assert(events.drop_last()[i] == events[i]);
            }
            assert(events[events.len() - 1] != LifecycleEvent::AppQuit);
        }
    }
}

} // verus!

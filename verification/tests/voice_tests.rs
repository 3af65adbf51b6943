use wagner_host::bus::RunCommand;
use wagner_host::state::RunStatus;
use wagner_host::voice::{classify_spoken, route_transcript, speakable_text, IntakeAction, IntakeFocus, RunFact, SpokenIntent};

#[test]
fn spoken_cancel_routes_to_cancel_regardless_of_focus() {
    assert_eq!(route_transcript("stop", Some("r1")), IntakeAction::Cancel);
    assert_eq!(route_transcript("never mind", None), IntakeAction::Cancel);
}

#[test]
fn free_form_with_no_focus_starts_a_run() {
    assert_eq!(
        route_transcript("research the voice landscape", None),
        IntakeAction::StartRun { goal: "research the voice landscape".into() }
    );
}

#[test]
fn free_form_with_focus_steers_that_run() {
    assert_eq!(
        route_transcript("use the other approach", Some("run-7")),
        IntakeAction::Steer { run_id: "run-7".into(), text: "use the other approach".into() }
    );
}

#[test]
fn cancel_word_with_trailing_goal_is_not_a_cancel() {
    assert_eq!(
        route_transcript("stop wasting tokens", Some("r1")),
        IntakeAction::Steer { run_id: "r1".into(), text: "stop wasting tokens".into() }
    );
    assert_eq!(
        route_transcript("stop wasting tokens", None),
        IntakeAction::StartRun { goal: "stop wasting tokens".into() }
    );
}

#[test]
fn to_command_maps_free_form_and_skips_cancel() {
    assert_eq!(IntakeAction::Cancel.to_command(), None);
    assert_eq!(
        IntakeAction::StartRun { goal: "g".into() }.to_command(),
        Some(RunCommand::Start { goal: "g".into() })
    );
    assert_eq!(
        IntakeAction::Steer { run_id: "r".into(), text: "t".into() }.to_command(),
        Some(RunCommand::Steer { run_id: "r".into(), text: "t".into() })
    );
}

#[test]
fn run_complete_speaks() {
    assert_eq!(speakable_text(RunFact::Finished { ok: true }).as_deref(), Some("Run complete."));
}

#[test]
fn run_stopped_speaks() {
    assert_eq!(speakable_text(RunFact::Finished { ok: false }).as_deref(), Some("Run stopped."));
}

#[test]
fn awaiting_approval_speaks() {
    assert_eq!(speakable_text(RunFact::Transmission).as_deref(), Some("Waiting for your approval."));
}

#[test]
fn non_allowlisted_events_are_silent() {
    assert_eq!(speakable_text(RunFact::Other), None);
}

#[test]
fn cancel_phrases_ignore_case_spacing_and_trailing_punctuation() {
    assert_eq!(classify_spoken("  Stop! "), SpokenIntent::Cancel);
    assert_eq!(classify_spoken("Never mind."), SpokenIntent::Cancel);
    assert_eq!(classify_spoken("cancel"), SpokenIntent::Cancel);
    assert_eq!(classify_spoken("stop the build"), SpokenIntent::FreeForm);
    assert_eq!(classify_spoken(""), SpokenIntent::FreeForm);
}

#[test]
fn free_form_text_is_trimmed() {
    assert_eq!(
        route_transcript("  add a test  ", None),
        IntakeAction::StartRun { goal: "add a test".into() }
    );
}

#[test]
fn focus_follows_live_snapshots_and_clears_on_end() {
    let mut f = IntakeFocus::new();
    f.on_snapshot("r7", RunStatus::Running);
    assert_eq!(f.focused_run.as_deref(), Some("r7"));
    assert_eq!(
        f.route("use the other approach"),
        IntakeAction::Steer { run_id: "r7".into(), text: "use the other approach".into() }
    );
    assert_eq!(f.cancel_command(), RunCommand::Abort { run_id: Some("r7".into()) });
    f.on_snapshot("r7", RunStatus::Met);
    assert_eq!(f.focused_run, None);
    assert_eq!(f.route("brand new task"), IntakeAction::StartRun { goal: "brand new task".into() });
    assert_eq!(f.cancel_command(), RunCommand::Abort { run_id: None });
    f.on_snapshot("r9", RunStatus::Paused);
    f.on_snapshot("other", RunStatus::Aborted);
    assert_eq!(f.focused_run.as_deref(), Some("r9"));
    f.on_finished("r9");
    assert_eq!(f.focused_run, None);
}

use wagner_host::registry::{CancelOutcome, DriveStart, RegistryError, RunBook, SteerOutcome};

#[test]
fn a_duplicate_start_is_refused_and_the_live_run_kept() {
    let mut b = RunBook::new();
    assert_eq!(b.spawn_run("r1".into()), Ok(()));
    assert_eq!(b.spawn_run("r1".into()), Err(RegistryError::AlreadyLive("r1".into())));
    assert!(b.is_running("r1"));
}

#[test]
fn a_plain_agent_cannot_take_a_run_name() {
    let mut b = RunBook::new();
    b.spawn_run("r1".into()).unwrap();
    assert_eq!(b.spawn_agent("r1".into()), Err(RegistryError::RunKeyedName("r1".into())));
    assert_eq!(b.spawn_agent("slack".into()), Ok(false));
    assert_eq!(b.spawn_agent("slack".into()), Ok(true), "a live agent of the name is replaced");
}

#[test]
fn cancel_before_start_wins_over_steering() {
    let mut b = RunBook::new();
    assert_eq!(b.cancel("r2"), CancelOutcome::Recorded);
    assert_eq!(b.steer("r2", "late steer".into()), SteerOutcome::Buffered);
    assert_eq!(b.begin_drive("r2".into()), DriveStart::PreCancelled);
    assert!(!b.is_running("r2"));
}

#[test]
fn steering_before_start_is_handed_over_in_order() {
    let mut b = RunBook::new();
    b.steer("r3", "first".into());
    b.steer("r3", "second".into());
    assert_eq!(b.begin_drive("r3".into()), DriveStart::Start(vec!["first".into(), "second".into()]));
    assert!(b.is_running("r3"));
    b.end_drive("r3");
    assert!(!b.is_running("r3"));
}

#[test]
fn a_live_run_takes_steering_and_cancels_live() {
    let mut b = RunBook::new();
    b.spawn_run("r4".into()).unwrap();
    assert_eq!(b.steer("r4", "now".into()), SteerOutcome::Deliver("now".into()));
    assert_eq!(b.cancel("r4"), CancelOutcome::CancelledLive);
    assert!(!b.is_running("r4"));
    assert_eq!(b.steer("r4", "after".into()), SteerOutcome::Deliver("after".into()));
}

#[test]
fn abort_without_an_id_names_every_live_run() {
    let mut b = RunBook::new();
    b.spawn_run("a".into()).unwrap();
    b.spawn_agent("x".into()).unwrap();
    b.spawn_run("c".into()).unwrap();
    let mut t = b.abort_targets(None);
    t.sort();
    assert_eq!(t, vec!["a".to_string(), "c".to_string()]);
    assert_eq!(b.abort_targets(Some("zz".into())), vec!["zz".to_string()]);
    assert!(b.stop("x"));
    assert!(!b.stop("x"));
}

use wagner_host::participants::{fenced_block, has_known_block, is_known_kind, within_panel_scan, RetryBudget, Schedule};
use wagner_host::state::{effective_updated_at, sort_newest_first, RunStatus, RunSummary};

#[test]
fn fenced_ui_spec_blocks_are_extracted() {
    let text = "Here is my work.\n\n```ui-spec\n{\"title\":\"T\",\"blocks\":[{\"kind\":\"text\",\"text\":\"done\"}]}\n```\nthanks";
    assert_eq!(
        fenced_block(text, "ui-spec").as_deref(),
        Some("{\"title\":\"T\",\"blocks\":[{\"kind\":\"text\",\"text\":\"done\"}]}\n")
    );
    assert_eq!(fenced_block("no fence", "ui-spec"), None);
    assert_eq!(fenced_block("```ui-spec\nunterminated", "ui-spec"), None);
}

#[test]
fn only_known_block_kinds_make_a_panel() {
    assert!(is_known_kind("timeline"));
    assert!(!is_known_kind("script"));
    assert!(has_known_block(&vec![None, Some("badge".into())]));
    assert!(!has_known_block(&vec![Some("script".into())]));
    assert!(within_panel_scan("small"));
    assert!(!within_panel_scan(&"x".repeat(262145)));
}

#[test]
fn fires_only_when_due_and_only_once() {
    let mut s = Schedule::new(vec![100]);
    assert!(!s.is_due(0, 50));
    assert!(s.is_due(0, 150));
    s.record_dispatch(0, true);
    assert!(!s.is_due(0, 200));
}

#[test]
fn a_refused_dispatch_stays_due() {
    let mut s = Schedule::new(vec![10]);
    s.record_dispatch(0, false);
    assert!(s.is_due(0, 10));
}

#[test]
fn retries_are_bounded() {
    let mut b = RetryBudget::new(2);
    assert!(b.on_failure());
    assert!(b.on_failure());
    assert!(!b.on_failure(), "initial attempt + 2 retries, then give up");
}

fn summary(id: &str, updated: &str) -> RunSummary {
    RunSummary {
        run_id: id.into(),
        name: id.into(),
        project_dir: String::new(),
        status: RunStatus::Running,
        updated_at: updated.into(),
        goal: "g".into(),
    }
}

#[test]
fn summaries_sort_newest_first_stably() {
    let sorted = sort_newest_first(vec![
        summary("old", "2026-01-01T00:00:00Z"),
        summary("new", "2026-03-01T00:00:00Z"),
        summary("tie1", "2026-02-01T00:00:00Z"),
        summary("tie2", "2026-02-01T00:00:00Z"),
    ]);
    let ids: Vec<&str> = sorted.iter().map(|s| s.run_id.as_str()).collect();
    assert_eq!(ids, vec!["new", "tie1", "tie2", "old"]);
    assert_eq!(effective_updated_at("", "c"), "c");
    assert_eq!(effective_updated_at("u", "c"), "u");
}

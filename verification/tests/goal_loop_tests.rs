use wagner_host::goal_loop::{confirms, judge_prompt, plan_prompt, replan_prompt, GoalLoop, PlanStep, TopStep, PLAN_EXAMPLE};
use wagner_host::judge::SuiteResult;
use wagner_host::state::{HaltReason, RunPhase, RunStatus, SubtaskState};

fn fresh(max: Option<u32>) -> GoalLoop {
    GoalLoop::start(max, 0, 0, None, vec![])
}

#[test]
fn confirms_needs_a_structured_verdict() {
    assert!(confirms("all good. GOAL_MET: YES"));
    assert!(confirms("outcome: {\"met\": true}"));
    assert!(!confirms("{\"met\": false} {\"met\": true}"));
    assert!(confirms("{\"other\": 1} {\"met\": true}"));
    assert!(!confirms("confirmed"));
    assert!(!confirms("not confirmed"));
    assert!(!confirms("{\"met\": \"yes\"}"));
}

#[test]
fn an_external_halt_wins_over_every_guardrail() {
    let mut l = fresh(Some(0));
    assert_eq!(l.top_of_iteration(Some(HaltReason::BlockedTimeout), true, false), TopStep::Halt(HaltReason::BlockedTimeout));
    assert_eq!(l.status, RunStatus::HaltedGuardrail);
    assert_eq!(l.phase, RunPhase::Halted);
    assert_eq!(l.halt_reason, Some(HaltReason::BlockedTimeout));
}

#[test]
fn guardrails_then_a_missing_lead_halt_the_run() {
    let mut l = fresh(Some(0));
    assert_eq!(l.top_of_iteration(None, true, true), TopStep::Halt(HaltReason::Iterations));
    let mut l = fresh(None);
    assert_eq!(l.top_of_iteration(None, true, true), TopStep::Halt(HaltReason::Cost));
    let mut l = fresh(None);
    assert_eq!(l.top_of_iteration(None, false, false), TopStep::Halt(HaltReason::Misconfigured));
    let mut l = fresh(None);
    assert_eq!(l.top_of_iteration(None, false, true), TopStep::Plan);
    assert_eq!(l.phase, RunPhase::Planning);
}

#[test]
fn an_unusable_plan_is_re_prompted_once_then_the_iteration_is_skipped() {
    let mut l = fresh(None);
    l.top_of_iteration(None, false, true);
    assert_eq!(l.on_plan_parsed(false), PlanStep::Replan);
    assert_eq!(l.on_plan_parsed(false), PlanStep::Skip);
    assert_eq!((l.iterations_used, l.iteration), (1, 1));
    l.top_of_iteration(None, false, true);
    assert_eq!(l.on_plan_parsed(false), PlanStep::Replan);
    assert_eq!(l.on_plan_parsed(true), PlanStep::Proceed);
}

#[test]
fn goal_met_is_judged_over_the_latest_batch_only() {
    let mut l = fresh(None);
    l.begin_dispatch();
    l.record_outcome(false);
    l.finish_iteration();
    assert!(!l.judge(SuiteResult { passed: true }, true), "a failed subtask in the batch blocks");
    l.begin_dispatch();
    l.record_outcome(true);
    l.record_outcome(true);
    l.finish_iteration();
    assert_eq!(l.subtasks, vec![SubtaskState::Failed, SubtaskState::Done, SubtaskState::Done]);
    l.enter_judging();
    assert!(!l.judge(SuiteResult { passed: false }, true));
    assert!(!l.judge(SuiteResult { passed: true }, false));
    assert!(l.judge(SuiteResult { passed: true }, true));
    assert_eq!(l.status, RunStatus::Met);
    assert_eq!(l.phase, RunPhase::Met);
}

#[test]
fn prompts_carry_the_goal_the_roster_and_steering() {
    let p = plan_prompt("ship it", "- cipher (architect)", &vec!["go faster".into(), "add docs".into()]);
    assert!(p.contains(PLAN_EXAMPLE));
    assert!(p.ends_with("ROSTER:\n- cipher (architect)\n\nGOAL:\nship it\n\nSTEERING:\n- go faster\n- add docs"));
    assert!(plan_prompt("g", "r", &vec![]).ends_with("STEERING:\n"));
    assert!(replan_prompt("g").ends_with("GOAL:\ng"));
    assert!(judge_prompt("g").contains("{\"met\": true|false}"));
}

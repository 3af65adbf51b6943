use wagner_host::judge::{decide, GoalVerdict, JudgeInputs, SuiteResult};

fn inputs(a: bool, b: bool, c: bool) -> JudgeInputs {
    JudgeInputs { all_subtasks_done: a, suite: SuiteResult { passed: b }, judge_confirms: c }
}

#[test]
fn all_three_true_is_met() {
    assert_eq!(decide(inputs(true, true, true)), GoalVerdict::Met);
}

#[test]
fn incomplete_subtasks_blocks_first() {
    assert_eq!(decide(inputs(false, false, false)), GoalVerdict::NotMet("subtasks incomplete"));
}

#[test]
fn failing_suite_blocks_even_if_judge_would_confirm() {
    assert_eq!(decide(inputs(true, false, true)), GoalVerdict::NotMet("test suite failing"));
}

#[test]
fn judge_must_confirm_even_with_green_suite() {
    assert_eq!(decide(inputs(true, true, false)), GoalVerdict::NotMet("judge not satisfied"));
}

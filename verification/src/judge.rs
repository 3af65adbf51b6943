//! Goal-met judgment: a goal is met only when every planned subtask is complete,
//! the project's full test suite passes, and the judge pass confirms the work.
use vstd::prelude::*;

verus! {

/// Outcome of running the project's test suite.
#[derive(Debug, Clone, Copy, PartialEq, Eq)]
pub struct SuiteResult {
    pub passed: bool,
}

/// The three inputs to the goal-met decision.
#[derive(Debug, Clone, Copy)]
pub struct JudgeInputs {
    pub all_subtasks_done: bool,
    pub suite: SuiteResult,
    pub judge_confirms: bool,
}

/// Which criterion blocked a goal from being met.
#[derive(Debug, Clone, Copy, PartialEq, Eq)]
pub enum GoalVerdict {
    Met,
    /// Not met; carries the first unmet criterion for the run log.
    NotMet(&'static str),
}

/// Met = subtasks done ∧ suite passes ∧ judge confirms; reports the first failing
/// criterion, checked in that order.
pub fn decide(inputs: JudgeInputs) -> (v: GoalVerdict)
    ensures
        (v == GoalVerdict::Met) <==> (inputs.all_subtasks_done && inputs.suite.passed
            && inputs.judge_confirms),
        !inputs.all_subtasks_done ==> (v matches GoalVerdict::NotMet(m) && m@ == "subtasks incomplete"@),
        inputs.all_subtasks_done && !inputs.suite.passed ==> (v matches GoalVerdict::NotMet(m) && m@ == "test suite failing"@),
        inputs.all_subtasks_done && inputs.suite.passed && !inputs.judge_confirms ==> (v matches GoalVerdict::NotMet(m) && m@ == "judge not satisfied"@),
{
    if !inputs.all_subtasks_done {
        return GoalVerdict::NotMet("subtasks incomplete");
    }
    if !inputs.suite.passed {
        return GoalVerdict::NotMet("test suite failing");
    }
    if !inputs.judge_confirms {
        return GoalVerdict::NotMet("judge not satisfied");
    }
    GoalVerdict::Met
}

} // verus!

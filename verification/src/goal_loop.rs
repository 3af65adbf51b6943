//! The decisions of the autonomous goal loop.
//!
//! Each iteration: an external halt or a tripped guardrail ends the run; the
//! lead agent plans (one re-prompt on an unusable plan, then the iteration is
//! skipped); a goal-met hypothesis is checked by the suite and the judge over
//! the latest dispatch batch; otherwise the planned subtasks are dispatched and
//! their outcomes folded in plan order; then the counters advance.
//!
//! `GoalLoop` holds the control state and takes one step per event; the caller
//! performs the engine runs, the suite run and the persistence in between.
use vstd::prelude::*;
use crate::guardrails::{check, check_spec, Verdict};
use crate::judge::{decide, GoalVerdict, JudgeInputs, SuiteResult};
use crate::json_scan::{balanced_object_texts, balanced_objects};
use crate::state::{HaltReason, RunPhase, RunStatus, SubtaskState};
use crate::text::{append, append_str, chars_of, contains, contains_seq, string_of};
use crate::json_value::{json_text_bool_field, text_field_bool};

verus! {

/// All subtasks from `start` on are done.
pub open spec fn batch_done(subtasks: Seq<SubtaskState>, start: int) -> bool {
    forall|i: int| start <= i < subtasks.len() ==> subtasks[i] == SubtaskState::Done
}

/// The halt, if any, that ends the run at the top of an iteration: an external
/// halt first, then the iteration cap, then the cost budget, then a missing lead.
pub open spec fn top_halt(
    max_iterations: Option<u32>,
    iterations_used: u32,
    external_halt: Option<HaltReason>,
    cost_over_budget: bool,
    has_lead: bool,
) -> Option<HaltReason> {
    if external_halt is Some {
        external_halt
    } else {
        match check_spec(max_iterations, iterations_used, cost_over_budget) {
            Verdict::Halt(r) => Some(r),
            Verdict::Continue => if has_lead {
                None
            } else {
                Some(HaltReason::Misconfigured)
            },
        }
    }
}

/// What the loop does at the top of an iteration.
#[derive(Debug, Clone, Copy, PartialEq, Eq, Structural)]
pub enum TopStep {
    /// The run ends, halted for this reason.
    Halt(HaltReason),
    /// Run the plan pass.
    Plan,
}

/// What the loop does with a plan pass's output.
#[derive(Debug, Clone, Copy, PartialEq, Eq, Structural)]
pub enum PlanStep {
    /// The plan parsed: use it.
    Proceed,
    /// The plan did not parse: re-prompt the lead once.
    Replan,
    /// The re-prompted plan did not parse either: skip this iteration.
    Skip,
}

/// The control state of one goal loop.
pub struct GoalLoop {
    pub max_iterations: Option<u32>,
    pub iterations_used: u32,
    pub iteration: u32,
    pub status: RunStatus,
    pub phase: RunPhase,
    pub halt_reason: Option<HaltReason>,
    /// States of the run's subtasks, in dispatch order.
    pub subtasks: Vec<SubtaskState>,
    /// Where the most recent dispatch batch begins in `subtasks`.
    pub last_batch_start: usize,
    /// Whether the current iteration has already re-prompted the lead.
    pub replanned: bool,
}

impl GoalLoop {
    pub open spec fn wf(&self) -> bool {
        self.last_batch_start <= self.subtasks.len()
    }

    /// Whether the latest dispatch batch is entirely done.
    pub open spec fn latest_batch_done(&self) -> bool {
        batch_done(self.subtasks@, self.last_batch_start as int)
    }

    /// Starts the loop on a run: running, planning, with the whole subtask list
    /// as the current batch.
    pub fn start(
        max_iterations: Option<u32>,
        iterations_used: u32,
        iteration: u32,
        halt_reason: Option<HaltReason>,
        subtasks: Vec<SubtaskState>,
    ) -> (l: GoalLoop)
        ensures
            l.wf(),
            l.max_iterations == max_iterations,
            l.iterations_used == iterations_used,
            l.iteration == iteration,
            l.status == RunStatus::Running,
            l.phase == RunPhase::Planning,
            l.halt_reason == halt_reason,
            l.subtasks@ == subtasks@,
            l.last_batch_start == 0,
            !l.replanned,
    {
        GoalLoop {
            max_iterations,
            iterations_used,
            iteration,
            status: RunStatus::Running,
            phase: RunPhase::Planning,
            halt_reason,
            subtasks,
            last_batch_start: 0,
            replanned: false,
        }
    }

    /// The top of an iteration: halts on an external halt, a tripped guardrail
    /// or a missing lead agent (in that order); otherwise enters planning.
    pub fn top_of_iteration(
        &mut self,
        external_halt: Option<HaltReason>,
        cost_over_budget: bool,
        has_lead: bool,
    ) -> (step: TopStep)
        requires
            old(self).wf(),
        ensures
            final(self).wf(),
            final(self).max_iterations == old(self).max_iterations,
            final(self).iterations_used == old(self).iterations_used,
            final(self).iteration == old(self).iteration,
            final(self).subtasks@ == old(self).subtasks@,
            final(self).last_batch_start == old(self).last_batch_start,
            match top_halt(
                old(self).max_iterations,
                old(self).iterations_used,
                external_halt,
                cost_over_budget,
                has_lead,
            ) {
                Some(r) => {
                    &&& step == TopStep::Halt(r)
                    &&& final(self).status == RunStatus::HaltedGuardrail
                    &&& final(self).phase == RunPhase::Halted
                    &&& final(self).halt_reason == Some(r)
                    &&& final(self).replanned == old(self).replanned
                },
                None => {
                    &&& step == TopStep::Plan
                    &&& final(self).status == old(self).status
                    &&& final(self).phase == RunPhase::Planning
                    &&& final(self).halt_reason == old(self).halt_reason
                    &&& !final(self).replanned
                },
            },
    {
        let halt = match external_halt {
            Some(r) => Some(r),
            None => match check(self.max_iterations, self.iterations_used, cost_over_budget) {
                Verdict::Halt(r) => Some(r),
                Verdict::Continue => if has_lead {
                    None
                } else {
                    Some(HaltReason::Misconfigured)
                },
            },
        };
        match halt {
            Some(r) => {
                self.status = RunStatus::HaltedGuardrail;
                self.phase = RunPhase::Halted;
                self.halt_reason = Some(r);
                TopStep::Halt(r)
            },
            None => {
                self.phase = RunPhase::Planning;
                self.replanned = false;
                TopStep::Plan
            },
        }
    }

    /// Takes the outcome of parsing a plan pass: a usable plan proceeds; the
    /// first unusable one re-prompts; a second one skips the iteration, which
    /// still counts against the iteration cap.
    pub fn on_plan_parsed(&mut self, parsed: bool) -> (step: PlanStep)
        requires
            old(self).wf(),
            !parsed && old(self).replanned ==> old(self).iterations_used < u32::MAX
                && old(self).iteration < u32::MAX,
        ensures
            final(self).wf(),
            final(self).max_iterations == old(self).max_iterations,
            final(self).status == old(self).status,
            final(self).phase == old(self).phase,
            final(self).halt_reason == old(self).halt_reason,
            final(self).subtasks@ == old(self).subtasks@,
            final(self).last_batch_start == old(self).last_batch_start,
            parsed ==> step == PlanStep::Proceed && final(self).iterations_used
                == old(self).iterations_used && final(self).iteration == old(self).iteration
                && final(self).replanned == old(self).replanned,
            !parsed && !old(self).replanned ==> step == PlanStep::Replan
                && final(self).iterations_used == old(self).iterations_used
                && final(self).iteration == old(self).iteration && final(self).replanned,
            !parsed && old(self).replanned ==> step == PlanStep::Skip
                && final(self).iterations_used == old(self).iterations_used + 1
                && final(self).iteration == old(self).iteration + 1 && !final(self).replanned,
    {
        if parsed {
            PlanStep::Proceed
        } else if !self.replanned {
            self.replanned = true;
            PlanStep::Replan
        } else {
            self.iterations_used = self.iterations_used + 1;
            self.iteration = self.iteration + 1;
            self.replanned = false;
            PlanStep::Skip
        }
    }

    /// Enters the judging phase (the plan hypothesised that the goal is met).
    pub fn enter_judging(&mut self)
        requires
            old(self).wf(),
        ensures
            *final(self) == (GoalLoop { phase: RunPhase::Judging, ..*old(self) }),
    {
        self.phase = RunPhase::Judging;
    }

    /// Whether every subtask of the latest dispatch batch is done.
    pub fn latest_batch_all_done(&self) -> (r: bool)
        requires
            self.wf(),
        ensures
            r == self.latest_batch_done(),
    {
        let mut i = self.last_batch_start;
        while i < self.subtasks.len()
            invariant
                self.last_batch_start <= i <= self.subtasks.len(),
                forall|j: int|
                    self.last_batch_start <= j < i ==> self.subtasks@[j] == SubtaskState::Done,
            decreases self.subtasks.len() - i,
        {
            if self.subtasks[i] != SubtaskState::Done {
                return false;
            }
            i = i + 1;
        }
        true
    }

    /// Judges a goal-met hypothesis over the latest batch only, so a subtask
    /// that failed in an earlier iteration cannot block `Met` for good. Returns
    /// whether the goal is met; a met goal ends the run.
    pub fn judge(&mut self, suite: SuiteResult, judge_confirms: bool) -> (met: bool)
        requires
            old(self).wf(),
        ensures
            met == (old(self).latest_batch_done() && suite.passed && judge_confirms),
            met ==> *final(self) == (GoalLoop {
                status: RunStatus::Met,
                phase: RunPhase::Met,
                ..*old(self)
            }),
            !met ==> *final(self) == *old(self),
    {
        let all_done = self.latest_batch_all_done();
        let verdict = decide(JudgeInputs { all_subtasks_done: all_done, suite, judge_confirms });
        match verdict {
            GoalVerdict::Met => {
                self.status = RunStatus::Met;
                self.phase = RunPhase::Met;
                true
            },
            GoalVerdict::NotMet(_) => false,
        }
    }

    /// Starts dispatching: the subtasks recorded from here on form the new batch.
    pub fn begin_dispatch(&mut self)
        requires
            old(self).wf(),
        ensures
            final(self).wf(),
            *final(self) == (GoalLoop {
                phase: RunPhase::Dispatching,
                last_batch_start: old(self).subtasks.len(),
                ..*old(self)
            }),
    {
        self.phase = RunPhase::Dispatching;
        self.last_batch_start = self.subtasks.len();
    }

    /// Records the outcome of one dispatched subtask, in plan order.
    pub fn record_outcome(&mut self, success: bool)
        requires
            old(self).wf(),
        ensures
            final(self).wf(),
            final(self).subtasks@ == old(self).subtasks@.push(
                if success {
                    SubtaskState::Done
                } else {
                    SubtaskState::Failed
                },
            ),
            final(self).last_batch_start == old(self).last_batch_start,
            final(self).max_iterations == old(self).max_iterations,
            final(self).iterations_used == old(self).iterations_used,
            final(self).iteration == old(self).iteration,
            final(self).status == old(self).status,
            final(self).phase == old(self).phase,
            final(self).halt_reason == old(self).halt_reason,
            final(self).replanned == old(self).replanned,
    {
        if success {
            self.subtasks.push(SubtaskState::Done);
        } else {
            self.subtasks.push(SubtaskState::Failed);
        }
    }

    /// Ends an iteration: both counters advance by one.
    pub fn finish_iteration(&mut self)
        requires
            old(self).wf(),
            old(self).iterations_used < u32::MAX,
            old(self).iteration < u32::MAX,
        ensures
            final(self).wf(),
            final(self).iterations_used == old(self).iterations_used + 1,
            final(self).iteration == old(self).iteration + 1,
            final(self).max_iterations == old(self).max_iterations,
            final(self).status == old(self).status,
            final(self).phase == old(self).phase,
            final(self).halt_reason == old(self).halt_reason,
            final(self).subtasks@ == old(self).subtasks@,
            final(self).last_batch_start == old(self).last_batch_start,
            final(self).replanned == old(self).replanned,
    {
        self.iterations_used = self.iterations_used + 1;
        self.iteration = self.iteration + 1;
    }
}

/// What a judge reply states in structure: the first JSON object in it that holds
/// a boolean `met`.
pub open spec fn first_met(objs: Seq<Seq<char>>) -> Option<bool>
    decreases objs.len(),
{
    if objs.len() == 0 {
        None
    } else {
        match text_field_bool(objs[0], "met"@) {
            Some(b) => Some(b),
            None => first_met(objs.drop_first()),
        }
    }
}

/// The exact token that also confirms a met goal.
pub const GOAL_MET_TOKEN: &'static str = "GOAL_MET: YES";

/// Whether a judge reply confirms goal-met: the exact `GOAL_MET: YES` token, or
/// a JSON object whose first boolean `met` is `true`. A bare word such as
/// "confirmed" never does.
pub open spec fn confirms_spec(text: Seq<char>) -> bool {
    contains_seq(text, GOAL_MET_TOKEN@) || first_met(balanced_object_texts(text)) == Some(true)
}

/// Whether a judge reply confirms goal-met (see `confirms_spec`).
pub fn confirms(text: &str) -> (r: bool)
    ensures
        r == confirms_spec(text@),
{
    let t = chars_of(text);
    let token = chars_of(GOAL_MET_TOKEN);
    if contains(&t, &token) {
        return true;
    }
    let objs = balanced_objects(text);
    let ghost texts = balanced_object_texts(text@);
    let mut i: usize = 0;
    assert(texts.skip(0) == texts);
    while i < objs.len()
        invariant
            0 <= i <= objs.len(),
            !contains_seq(text@, GOAL_MET_TOKEN@),
            objs@.len() == texts.len(),
            texts == balanced_object_texts(text@),
            forall|k: int| 0 <= k < objs@.len() ==> (#[trigger] objs@[k])@ == texts[k],
            first_met(texts) == first_met(texts.skip(i as int)),
        decreases objs.len() - i,
    {
        let v = json_text_bool_field(objs[i], "met");
        proof {
            assert(texts.skip(i as int)[0] == texts[i as int]);
            assert(texts.skip(i as int).drop_first() == texts.skip(i + 1));
        }
        if let Some(b) = v {
            assert(first_met(texts.skip(i as int)) == Some(b));
            return b;
        }
        i = i + 1;
    }
    proof {
        assert(texts.skip(i as int).len() == 0);
    }
    false
}

/// The plan shape the lead must emit, shown verbatim in the prompt.
pub const PLAN_EXAMPLE: &'static str = "{\"schema\":\"oracle-plan.v2\",\"subtasks\":[{\"description\":\"what this subtask does\",\"agent\":\"<an id from the ROSTER>\",\"assignment_rationale\":\"why this agent\",\"may_write_paths\":[\"path/it/may/edit\"],\"depends_on\":[]}],\"goal_met_hypothesis\":false}";

/// The opening of the plan prompt, up to the example plan.
pub const PLAN_PROMPT_HEAD: &'static str = "You are the Oracle for an autonomous build. Decompose the GOAL into subtasks and assign each to one of the hired agents below by its `id`, matching the work to the agent's role and engine.\n\nReturn ONLY a single JSON object \u{2014} no prose, no markdown fences, no extra keys \u{2014} of EXACTLY this shape:\n";

/// The rules of the plan prompt, between the example and the roster.
pub const PLAN_PROMPT_RULES: &'static str = "\n\nRules: use ONLY these keys (`description`, `agent`, `assignment_rationale`, `may_write_paths`, `depends_on`); every `agent` MUST be one of the ROSTER ids; `depends_on` holds indices of earlier subtasks or []. Set `goal_met_hypothesis` to true with `subtasks` [] ONLY when the goal is already fully achieved.\n\nROSTER:\n";

/// The steering instructions, one `- ` line each, joined by newlines.
pub open spec fn steering_lines(steering: Seq<Seq<char>>) -> Seq<char>
    decreases steering.len(),
{
    if steering.len() == 0 {
        Seq::empty()
    } else if steering.len() == 1 {
        "- "@ + steering[0]
    } else {
        steering_lines(steering.drop_last()) + "\n- "@ + steering.last()
    }
}

/// The plan prompt: head, example plan, rules, roster, goal and steering.
pub open spec fn plan_prompt_spec(goal: Seq<char>, roster_brief: Seq<char>, steering: Seq<
    Seq<char>,
>) -> Seq<char> {
    PLAN_PROMPT_HEAD@ + PLAN_EXAMPLE@ + PLAN_PROMPT_RULES@ + roster_brief + "\n\nGOAL:\n"@ + goal
        + "\n\nSTEERING:\n"@ + steering_lines(steering)
}

/// Builds the plan prompt for the lead agent.
pub fn plan_prompt(goal: &str, roster_brief: &str, steering: &Vec<String>) -> (r: String)
    ensures
        r@ == plan_prompt_spec(goal@, roster_brief@, steering@.map_values(|s: String| s@)),
{
    let ghost st = steering@.map_values(|s: String| s@);
    let mut v: Vec<char> = Vec::new();
    append_str(&mut v, PLAN_PROMPT_HEAD);
    append_str(&mut v, PLAN_EXAMPLE);
    append_str(&mut v, PLAN_PROMPT_RULES);
    append_str(&mut v, roster_brief);
    append_str(&mut v, "\n\nGOAL:\n");
    append_str(&mut v, goal);
    append_str(&mut v, "\n\nSTEERING:\n");
    let ghost prefix = v@;
    let mut i: usize = 0;
    while i < steering.len()
        invariant
            0 <= i <= steering.len(),
            st == steering@.map_values(|s: String| s@),
            v@ == prefix + steering_lines(st.take(i as int)),
        decreases steering.len() - i,
    {
        if i > 0 {
            append_str(&mut v, "\n- ");
        } else {
            append_str(&mut v, "- ");
        }
        append_str(&mut v, steering[i].as_str());
        proof {
            let t = st.take(i + 1);
            assert(t.drop_last() == st.take(i as int));
            assert(t.last() == steering@[i as int]@);
            if i == 0 {
                assert(st.take(0) == Seq::<Seq<char>>::empty());
            }
        }
        i = i + 1;
    }
    assert(st.take(steering.len() as int) == st);
    string_of(&v)
}

/// The re-prompt after an unusable plan.
pub open spec fn replan_prompt_spec(goal: Seq<char>) -> Seq<char> {
    "Your previous reply was not valid oracle-plan.v2 JSON. Reply with ONLY this JSON object shape, no prose, no markdown, no extra keys:\n"@
        + PLAN_EXAMPLE@ + "\n\nEvery `agent` must be a ROSTER id. GOAL:\n"@ + goal
}

/// Builds the re-prompt after an unusable plan.
pub fn replan_prompt(goal: &str) -> (r: String)
    ensures
        r@ == replan_prompt_spec(goal@),
{
    let mut v: Vec<char> = Vec::new();
    append_str(
        &mut v,
        "Your previous reply was not valid oracle-plan.v2 JSON. Reply with ONLY this JSON object shape, no prose, no markdown, no extra keys:\n",
    );
    append_str(&mut v, PLAN_EXAMPLE);
    append_str(&mut v, "\n\nEvery `agent` must be a ROSTER id. GOAL:\n");
    append_str(&mut v, goal);
    string_of(&v)
}

/// The judge prompt.
pub open spec fn judge_prompt_spec(goal: Seq<char>) -> Seq<char> {
    "Has this goal been fully met by the work completed? Reply with a JSON object {\"met\": true|false}. GOAL:\n"@
        + goal
}

/// Builds the judge prompt.
pub fn judge_prompt(goal: &str) -> (r: String)
    ensures
        r@ == judge_prompt_spec(goal@),
{
    let mut v: Vec<char> = Vec::new();
    append_str(
        &mut v,
        "Has this goal been fully met by the work completed? Reply with a JSON object {\"met\": true|false}. GOAL:\n",
    );
    append_str(&mut v, goal);
    string_of(&v)
}

/// The failures of earlier batches never block a met goal: whether the latest
/// batch is done depends on that batch alone.
pub proof fn lemma_earlier_failures_do_not_block(
    earlier: Seq<SubtaskState>,
    batch: Seq<SubtaskState>,
)
    ensures
        batch_done(earlier + batch, earlier.len() as int) <==> (forall|i: int|
            0 <= i < batch.len() ==> batch[i] == SubtaskState::Done),
{
    let s = earlier + batch;
    if batch_done(s, earlier.len() as int) {
        assert forall|i: int| 0 <= i < batch.len() implies batch[i] == SubtaskState::Done by {
            assert(s[earlier.len() + i] == batch[i]);
        }
    }
    if forall|i: int| 0 <= i < batch.len() ==> batch[i] == SubtaskState::Done {
        assert forall|j: int| earlier.len() <= j < s.len() implies s[j] == SubtaskState::Done by {
            assert(s[j] == batch[j - earlier.len()]);
        }
    }
}

} // verus!

//! The planner's output: a plan of subtasks, each assigned to a roster agent.
//! Beyond its JSON shape, a plan is checked for what the shape cannot say:
//! every subtask goes to a hired agent, and every dependency names a subtask
//! of the same plan.
use vstd::prelude::*;
use crate::json_scan::{balanced_object_texts, first_balanced_object};
use crate::json_value::{parse_json, spec_json_parse_error, spec_json_value};
use crate::schema::{schema_error_message, validate, validation_view, SchemaError, ValidationView};
use crate::text::join_seq;

verus! {

/// One planned subtask.
#[derive(Debug, Clone, PartialEq)]
pub struct PlannedSubtask {
    pub description: String,
    /// Roster agent id this subtask is assigned to.
    pub agent: String,
    pub assignment_rationale: String,
    pub may_write_paths: Vec<String>,
    pub depends_on: Vec<usize>,
}

/// A plan produced by the lead agent.
#[derive(Debug, Clone, PartialEq)]
pub struct OraclePlan {
    pub schema: String,
    pub subtasks: Vec<PlannedSubtask>,
    pub goal_met_hypothesis: bool,
}

/// The schema tag of a plan.
pub const ORACLE_PLAN_SCHEMA_TAG: &'static str = "oracle-plan.v2";

/// Why a plan was rejected.
#[derive(Debug, Clone, PartialEq, Eq)]
pub enum PlanError {
    /// The output held no JSON object, or the object was not valid JSON.
    NotJson(String),
    /// Schema-valid JSON that did not have the plan's shape.
    Shape(String),
    /// The JSON failed schema validation.
    Schema(String),
    /// A dependency index names no subtask of the plan.
    BadDependency { idx: usize, len: usize },
    /// A subtask is assigned to an agent outside the roster.
    UnknownAgent(String),
}

/// The agent of subtask `st` is one of the roster ids.
pub open spec fn agent_known(st: PlannedSubtask, roster: Seq<Seq<char>>) -> bool {
    exists|k: int| 0 <= k < roster.len() && roster[k] == st.agent@
}

/// Every dependency of `st` is below `len`.
pub open spec fn deps_in_range(st: PlannedSubtask, len: int) -> bool {
    forall|d: int| 0 <= d < st.depends_on@.len() ==> (#[trigger] st.depends_on@[d]) < len
}

/// Subtask `st` passes both checks.
pub open spec fn subtask_ok(st: PlannedSubtask, roster: Seq<Seq<char>>, len: int) -> bool {
    agent_known(st, roster) && deps_in_range(st, len)
}

/// Subtask `i` is the first that fails a check.
pub open spec fn first_bad(
    subtasks: Seq<PlannedSubtask>,
    roster: Seq<Seq<char>>,
    i: int,
) -> bool {
    &&& 0 <= i < subtasks.len()
    &&& !subtask_ok(subtasks[i], roster, subtasks.len() as int)
    &&& forall|k: int|
        0 <= k < i ==> subtask_ok(#[trigger] subtasks[k], roster, subtasks.len() as int)
}

/// Dependency `d` of `st` is the first one out of range.
pub open spec fn first_bad_dep(st: PlannedSubtask, len: int, d: int) -> bool {
    &&& 0 <= d < st.depends_on@.len()
    &&& st.depends_on@[d] >= len
    &&& forall|e: int| 0 <= e < d ==> (#[trigger] st.depends_on@[e]) < len
}

/// Whether `v` holds a string equal to `s`.
pub fn contains_string(v: &Vec<String>, s: &String) -> (r: bool)
    ensures
        r == exists|k: int| 0 <= k < v@.len() && (#[trigger] v@[k])@ == s@,
{
    let mut k: usize = 0;
    while k < v.len()
        invariant
            0 <= k <= v@.len(),
            forall|m: int| 0 <= m < k ==> (#[trigger] v@[m])@ != s@,
        decreases v.len() - k,
    {
        if v[k] == *s {
            return true;
        }
        k = k + 1;
    }
    false
}

/// The checks a plan's shape cannot express: every subtask's agent is in the
/// roster, and every dependency index is in range. The first failing subtask
/// decides the error; within it, an unknown agent is reported before a bad
/// dependency, and the first bad dependency is reported.
pub fn check_plan(plan: &OraclePlan, roster_ids: &Vec<String>) -> (r: Result<(), PlanError>)
    ensures
        ({
            let roster = roster_ids@.map_values(|s: String| s@);
            let sts = plan.subtasks@;
            let len = sts.len() as int;
            &&& r is Ok <==> forall|i: int| 0 <= i < len ==> subtask_ok(#[trigger] sts[i], roster, len)
            &&& r is Err ==> (r->Err_0 is UnknownAgent || r->Err_0 is BadDependency)
            &&& r matches Err(PlanError::UnknownAgent(a)) ==> exists|i: int|
                first_bad(sts, roster, i) && !agent_known(sts[i], roster) && a@
                    == (#[trigger] sts[i]).agent@
            &&& r matches Err(PlanError::BadDependency { idx, len: l }) ==> l == len && exists|
                i: int,
                d: int,
            |
                first_bad(sts, roster, i) && agent_known(sts[i], roster) && first_bad_dep(
                    sts[i],
                    len,
                    d,
                ) && idx == #[trigger] sts[i].depends_on@[d]
        }),
{
    let ghost roster = roster_ids@.map_values(|s: String| s@);
    let len = plan.subtasks.len();
    let mut i: usize = 0;
    while i < len
        invariant
            len == plan.subtasks@.len(),
            roster == roster_ids@.map_values(|s: String| s@),
            0 <= i <= len,
            forall|k: int|
                0 <= k < i ==> subtask_ok(#[trigger] plan.subtasks@[k], roster, len as int),
        decreases len - i,
    {
        let st = &plan.subtasks[i];
        let known = contains_string(roster_ids, &st.agent);
        assert(known == agent_known(*st, roster)) by {
            if known {
                let k = choose|k: int| 0 <= k < roster_ids@.len() && (#[trigger] roster_ids@[k])@ == st.agent@;
                assert(roster[k] == st.agent@);
            }
        }
        if !known {
            proof {
                assert(!agent_known(*st, roster));
                assert(first_bad(plan.subtasks@, roster, i as int));
            }
            return Err(PlanError::UnknownAgent(st.agent.clone()));
        }
        let mut d: usize = 0;
        while d < st.depends_on.len()
            invariant
                *st == plan.subtasks@[i as int],
                len == plan.subtasks@.len(),
                0 <= i < len,
                roster == roster_ids@.map_values(|s: String| s@),
                agent_known(*st, roster),
                forall|k: int|
                    0 <= k < i ==> subtask_ok(#[trigger] plan.subtasks@[k], roster, len as int),
                0 <= d <= st.depends_on@.len(),
                forall|e: int| 0 <= e < d ==> (#[trigger] st.depends_on@[e]) < len,
            decreases st.depends_on.len() - d,
        {
            let idx = st.depends_on[d];
            if idx >= len {
                proof {
                    assert(first_bad_dep(*st, len as int, d as int));
                    assert(!deps_in_range(*st, len as int));
                    assert(first_bad(plan.subtasks@, roster, i as int));
                }
                return Err(PlanError::BadDependency { idx, len });
            }
            d = d + 1;
        }
        assert(subtask_ok(*st, roster, len as int));
        i = i + 1;
    }
    Ok(())
}

/// The message for planner output that holds no JSON object.
pub const NO_PLAN_OBJECT: &'static str = "no top-level JSON object found in planner output";

/// The first JSON object of a planner's raw output, parsed and checked against
/// the plan schema: the front half of reading a plan, before its shape is
/// read into an `OraclePlan` and checked by `check_plan`.
///
/// Output without a balanced object, or whose first object is not JSON, is
/// `NotJson`; a schema refusal is `Schema`, with the findings when the plan
/// broke the schema and the refusal's text otherwise.
pub fn plan_value(raw: &str, plan_schema: &str) -> (r: Result<serde_json::Value, PlanError>)
    ensures
        balanced_object_texts(raw@).len() == 0 ==> (r matches Err(PlanError::NotJson(m)) && m@
            == NO_PLAN_OBJECT@),
        balanced_object_texts(raw@).len() > 0 ==> {
            let o = balanced_object_texts(raw@)[0];
            let v = spec_json_value(o);
            match spec_json_parse_error(o) {
                Some(m) => r matches Err(PlanError::NotJson(s)) && s@ == m,
                None => match validation_view(plan_schema@, v) {
                    ValidationView::Passed => r matches Ok(w) && w == v,
                    ValidationView::Failed(m) => r matches Err(PlanError::Schema(s)) && s@ == m,
                    ValidationView::Invalid(m) => r matches Err(PlanError::Schema(s)) && s@
                        == "schema is not valid JSON: "@ + m,
                    ValidationView::Unsupported => r matches Err(PlanError::Schema(s)) && s@
                        == schema_error_message(SchemaError::UnsupportedReference),
                },
            }
        },
{
    let slice = match first_balanced_object(raw) {
        Some(s) => s,
        None => {
            return Err(PlanError::NotJson(NO_PLAN_OBJECT.to_owned()));
        },
    };
    let value = match parse_json(slice) {
        Ok(v) => v,
        Err(m) => {
            return Err(PlanError::NotJson(m));
        },
    };
    match validate(plan_schema, &value) {
        Ok(()) => Ok(value),
        Err(SchemaError::ValidationFailed(m)) => Err(PlanError::Schema(m)),
        Err(other) => Err(PlanError::Schema(other.message())),
    }
}

} // verus!

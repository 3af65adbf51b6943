use wagner_host::oracle::{check_plan, plan_value, OraclePlan, PlanError, PlannedSubtask, NO_PLAN_OBJECT};

fn st(agent: &str, deps: Vec<usize>) -> PlannedSubtask {
    PlannedSubtask {
        description: "d".into(),
        agent: agent.into(),
        assignment_rationale: "r".into(),
        may_write_paths: vec![],
        depends_on: deps,
    }
}

fn plan(subtasks: Vec<PlannedSubtask>) -> OraclePlan {
    OraclePlan { schema: "oracle-plan.v2".into(), subtasks, goal_met_hypothesis: false }
}

fn roster() -> Vec<String> {
    vec!["cipher".to_string(), "vex".to_string()]
}

#[test]
fn a_conforming_plan_passes_the_semantic_checks() {
    assert_eq!(check_plan(&plan(vec![st("cipher", vec![]), st("vex", vec![0])]), &roster()), Ok(()));
}

#[test]
fn a_subtask_for_an_unknown_agent_is_rejected() {
    assert_eq!(
        check_plan(&plan(vec![st("cipher", vec![]), st("ghost", vec![0])]), &roster()),
        Err(PlanError::UnknownAgent("ghost".into()))
    );
}

#[test]
fn an_out_of_range_dependency_is_rejected() {
    assert_eq!(
        check_plan(&plan(vec![st("cipher", vec![]), st("vex", vec![0, 7])]), &roster()),
        Err(PlanError::BadDependency { idx: 7, len: 2 })
    );
}

#[test]
fn the_first_bad_subtask_decides_the_error() {
    assert_eq!(
        check_plan(&plan(vec![st("vex", vec![9]), st("ghost", vec![])]), &roster()),
        Err(PlanError::BadDependency { idx: 9, len: 2 })
    );
}

const PLAN_SCHEMA: &str = r#"{"type":"object","required":["schema","subtasks","goal_met_hypothesis"],"properties":{"schema":{"const":"oracle-plan.v2"},"subtasks":{"type":"array","items":{"type":"object","required":["description","agent","assignment_rationale","may_write_paths","depends_on"],"properties":{"agent":{"type":"string","minLength":1},"depends_on":{"type":"array","items":{"type":"integer","minimum":0}}}}},"goal_met_hypothesis":{"type":"boolean"}}}"#;

const GOOD: &str = r#"{
        "schema": "oracle-plan.v2",
        "subtasks": [
            {"description":"write the failing test","agent":"cipher","assignment_rationale":"test authoring","may_write_paths":["tests/x.rs"],"depends_on":[]},
            {"description":"implement to pass","agent":"vex","assignment_rationale":"crisp impl","may_write_paths":["src/x.rs"],"depends_on":[0]}
        ],
        "goal_met_hypothesis": false
    }"#;

#[test]
fn parses_a_conforming_plan() {
    let v = plan_value(GOOD, PLAN_SCHEMA).expect("valid plan");
    assert_eq!(v["subtasks"].as_array().unwrap().len(), 2);
    assert_eq!(v["subtasks"][0]["agent"], "cipher");
    assert_eq!(v["subtasks"][1]["depends_on"], serde_json::Value::from(vec![0]));
    assert_eq!(v["goal_met_hypothesis"], false);
}

#[test]
fn extracts_json_from_prose_and_fences() {
    let wrapped = format!("Here is the plan:\n```json\n{}\n```\nDone.", GOOD);
    assert!(plan_value(&wrapped, PLAN_SCHEMA).is_ok());
}

#[test]
fn rejects_empty_agent_id() {
    let bad = GOOD.replace("\"vex\"", "\"\"");
    assert!(matches!(plan_value(&bad, PLAN_SCHEMA), Err(PlanError::Schema(_))));
}

#[test]
fn rejects_missing_field() {
    let bad = GOOD.replace(",\n        \"goal_met_hypothesis\": false", "");
    assert_ne!(bad, GOOD, "test setup must actually mutate the input");
    assert!(plan_value(&bad, PLAN_SCHEMA).is_err());
}

#[test]
fn rejects_non_json() {
    assert_eq!(plan_value("the model refused", PLAN_SCHEMA), Err(PlanError::NotJson(NO_PLAN_OBJECT.to_string())));
    assert!(matches!(plan_value("{not json}", PLAN_SCHEMA), Err(PlanError::NotJson(m)) if !m.is_empty()));
}

#[test]
fn a_plan_schema_holding_a_reference_is_refused() {
    assert_eq!(
        plan_value(GOOD, "{\"$ref\":\"#\"}"),
        Err(PlanError::Schema("schema references may form a cycle, which is not accepted".to_string()))
    );
}

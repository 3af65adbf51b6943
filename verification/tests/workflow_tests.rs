use wagner_host::engine::Role;
use wagner_host::workflow::{
    builtin_templates, EdgeWhen, StageKind, Workflow, WorkflowEdge, WorkflowError, WorkflowNode,
    WORKFLOW_SCHEMA,
};
use wagner_host::workflow_exec::role_for;

fn standard() -> Workflow {
    Workflow::standard_template("build the thing", "cipher", "vex")
}

#[test]
fn standard_template_validates() {
    standard().validate().expect("standard template must validate");
}

#[test]
fn full_pipeline_template_validates() {
    Workflow::full_pipeline_template("g", "cipher", "vex")
        .validate()
        .expect("full pipeline template must validate");
}

#[test]
fn full_pipeline_starts_at_research() {
    let wf = Workflow::full_pipeline_template("g", "cipher", "vex");
    assert_eq!(wf.start().unwrap().id, "research");
}

#[test]
fn builtin_templates_all_validate() {
    for t in builtin_templates("cipher", "vex") {
        t.workflow
            .validate()
            .unwrap_or_else(|e| panic!("template {} must validate: {e:?}", t.name));
    }
}

#[test]
fn start_is_the_plan_node() {
    assert_eq!(standard().start().unwrap().id, "plan");
}

#[test]
fn empty_is_rejected() {
    let wf = Workflow { schema: WORKFLOW_SCHEMA.into(), root_goal: "g".into(), nodes: vec![], edges: vec![] };
    assert_eq!(wf.validate(), Err(WorkflowError::Empty));
}

#[test]
fn missing_done_is_rejected() {
    let wf = Workflow {
        schema: WORKFLOW_SCHEMA.into(),
        root_goal: "g".into(),
        nodes: vec![
            WorkflowNode::new("a", StageKind::Plan, None),
            WorkflowNode::new("b", StageKind::Execute, None),
        ],
        edges: vec![WorkflowEdge::new("a", "b", EdgeWhen::Always)],
    };
    assert!(wf.validate().is_err());
}

#[test]
fn done_with_outgoing_edge_is_rejected() {
    let mut wf = standard();
    wf.edges.push(WorkflowEdge::new("done", "execute", EdgeWhen::Always));
    assert_eq!(wf.validate(), Err(WorkflowError::DoneHasOutgoing("done".into())));
}

#[test]
fn onfail_from_a_non_check_node_is_rejected() {
    let mut wf = standard();
    wf.edges.push(WorkflowEdge::new("plan", "done", EdgeWhen::OnFail));
    assert_eq!(wf.validate(), Err(WorkflowError::BadOnFail("plan".into())));
}

#[test]
fn two_start_nodes_are_rejected() {
    let mut wf = standard();
    wf.nodes.push(WorkflowNode::new("orphan", StageKind::Scope, None));
    wf.edges.push(WorkflowEdge::new("orphan", "done", EdgeWhen::Always));
    assert_eq!(wf.validate(), Err(WorkflowError::NotOneStart(2)));
}

#[test]
fn unknown_edge_endpoint_is_rejected() {
    let mut wf = standard();
    wf.edges.push(WorkflowEdge::new("plan", "ghost", EdgeWhen::Always));
    assert_eq!(wf.validate(), Err(WorkflowError::UnknownNode("ghost".into())));
}

#[test]
fn role_mapping_is_stable() {
    assert_eq!(role_for(StageKind::Plan), Role::Plan);
    assert_eq!(role_for(StageKind::Review), Role::Judge);
    assert_eq!(role_for(StageKind::Execute), Role::Execute);
    assert_eq!(role_for(StageKind::Research), Role::Plan);
}

#[test]
fn duplicate_node_ids_are_rejected() {
    let mut wf = standard();
    wf.nodes.push(WorkflowNode::new("plan", StageKind::Plan, None));
    assert_eq!(wf.validate(), Err(WorkflowError::DuplicateId("plan".into())));
}

#[test]
fn a_dead_end_is_rejected() {
    let wf = Workflow {
        schema: WORKFLOW_SCHEMA.into(),
        root_goal: "g".into(),
        nodes: vec![
            WorkflowNode::new("a", StageKind::Plan, None),
            WorkflowNode::new("b", StageKind::Execute, None),
            WorkflowNode::new("done", StageKind::Done, None),
        ],
        edges: vec![WorkflowEdge::new("a", "b", EdgeWhen::Always), WorkflowEdge::new("a", "done", EdgeWhen::Always)],
    };
    assert_eq!(wf.validate(), Err(WorkflowError::DeadEnd("b".into())));
}

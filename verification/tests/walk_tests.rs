use wagner_host::workflow::{EdgeWhen, GateMode, StageKind, Workflow, WorkflowEdge, WorkflowNode, WORKFLOW_SCHEMA};
use wagner_host::workflow_exec::{
    auto_gate_verdict, human_gate_verdict, node_prompt, stage_verdict, test_verdict, walk_advance, walk_begin,
    walk_check, consolidation_context, stage_operative, FlowContext, GateDecision, TestOutcome, WorkflowEnd,
};

/// Walks `wf`, asking `outcome(node_id, kind, prompt)` for each executed node's
/// success and text; check nodes route on their success. Returns the executed
/// node ids and how the walk ended.
fn walk(wf: &Workflow, max_steps: usize, mut outcome: impl FnMut(&str, StageKind, &str) -> (bool, String)) -> (Vec<String>, WorkflowEnd) {
    let mut st = walk_begin(wf).expect("valid workflow");
    let mut path = Vec::new();
    loop {
        if let Some(end) = walk_check(wf, &st, max_steps) {
            return (path, end);
        }
        let node = wf.node(&st.current).expect("walk stays on nodes").clone();
        let prompt = node_prompt(wf, node.kind, node.instruction.as_deref(), &st.ctx);
        let verdict = match (node.kind, node.gate_mode()) {
            (StageKind::Gate, GateMode::Auto) => auto_gate_verdict(),
            (StageKind::Gate, GateMode::Human) => {
                let (ok, text) = outcome(&node.id, node.kind, &prompt);
                human_gate_verdict(if ok { GateDecision::Approve } else { GateDecision::Reject { reason: text } })
            }
            (StageKind::Test, _) => {
                let (ok, text) = outcome(&node.id, node.kind, &prompt);
                test_verdict(TestOutcome { passed: ok, summary: text })
            }
            _ => {
                let (ok, text) = outcome(&node.id, node.kind, &prompt);
                stage_verdict(node.kind, node.id.clone(), text, ok)
            }
        };
        path.push(node.id.clone());
        if let Some(end) = walk_advance(wf, &mut st, verdict.passed, verdict.final_text) {
            return (path, end);
        }
    }
}

fn standard() -> Workflow {
    Workflow::standard_template("build the thing", "cipher", "vex")
}

/// Reviews follow a schedule of verdicts (the last one repeats); other stages succeed.
fn reviews(verdicts: Vec<bool>) -> impl FnMut(&str, StageKind, &str) -> (bool, String) {
    let mut n = 0;
    move |id: &str, kind: StageKind, _prompt: &str| {
        if kind == StageKind::Review {
            let ok = *verdicts.get(n).or(verdicts.last()).unwrap_or(&true);
            n += 1;
            (ok, format!("review#{n}"))
        } else {
            (true, format!("{id} done"))
        }
    }
}

fn cap_review_fix_loop(wf: &mut Workflow, cap: usize) {
    for e in &mut wf.edges {
        if e.from == "review" && e.when == EdgeWhen::OnFail {
            e.max_traversals = Some(cap);
        }
    }
}

#[test]
fn walk_passing_review_reaches_done() {
    let (path, end) = walk(&standard(), 20, reviews(vec![true]));
    assert_eq!(end, WorkflowEnd::Completed);
    assert_eq!(path, vec!["plan", "execute", "review"]);
}

#[test]
fn walk_failing_review_loops_back_to_execute_then_passes() {
    let (path, end) = walk(&standard(), 20, reviews(vec![false, true]));
    assert_eq!(end, WorkflowEnd::Completed);
    assert_eq!(path, vec!["plan", "execute", "review", "execute", "review"]);
}

#[test]
fn walk_threads_fix_context_into_the_retry() {
    let mut prompts: Vec<(String, String)> = Vec::new();
    let mut verdicts = reviews(vec![false, true]);
    walk(&standard(), 20, |id: &str, kind: StageKind, prompt: &str| {
        prompts.push((id.to_string(), prompt.to_string()));
        verdicts(id, kind, prompt)
    });
    let executes: Vec<&String> = prompts.iter().filter(|(id, _)| id == "execute").map(|(_, p)| p).collect();
    assert_eq!(executes.len(), 2);
    assert!(!executes[0].contains("FIX CONTEXT"));
    assert!(executes[1].contains("FIX CONTEXT"));
    assert!(executes[1].contains("review#1"));
}

#[test]
fn walk_perpetually_failing_review_is_bounded_by_max_steps() {
    let (path, end) = walk(&standard(), 6, reviews(vec![false]));
    assert_eq!(end, WorkflowEnd::StepsExhausted);
    assert_eq!(path.len(), 6);
}

#[test]
fn walk_loop_cap_stops_a_runaway_fix_loop() {
    let mut wf = standard();
    cap_review_fix_loop(&mut wf, 2);
    let (path, end) = walk(&wf, 100, reviews(vec![false]));
    assert_eq!(end, WorkflowEnd::LoopCapReached("review->execute".into()));
    assert_eq!(path, vec!["plan", "execute", "review", "execute", "review", "execute", "review"]);
}

#[test]
fn walk_loop_cap_of_one_allows_exactly_one_traversal() {
    let mut wf = standard();
    cap_review_fix_loop(&mut wf, 1);
    let (path, end) = walk(&wf, 100, reviews(vec![false]));
    assert_eq!(end, WorkflowEnd::LoopCapReached("review->execute".into()));
    assert_eq!(path, vec!["plan", "execute", "review", "execute", "review"]);
}

fn gated(mode: Option<GateMode>) -> Workflow {
    Workflow {
        schema: WORKFLOW_SCHEMA.into(),
        root_goal: "g".into(),
        nodes: vec![
            WorkflowNode::new("plan", StageKind::Plan, Some("cipher".into())),
            WorkflowNode { gate_mode: mode, ..WorkflowNode::new("gate", StageKind::Gate, None) },
            WorkflowNode::new("execute", StageKind::Execute, Some("vex".into())),
            WorkflowNode::new("done", StageKind::Done, None),
        ],
        edges: vec![
            WorkflowEdge::new("plan", "gate", EdgeWhen::Always),
            WorkflowEdge::new("gate", "done", EdgeWhen::OnPass),
            WorkflowEdge::new("gate", "execute", EdgeWhen::OnFail),
            WorkflowEdge::new("execute", "gate", EdgeWhen::Always),
        ],
    }
}

#[test]
fn walk_auto_gate_passes_straight_through() {
    let (path, end) = walk(&gated(Some(GateMode::Auto)), 20, |_: &str, kind: StageKind, _: &str| {
        assert_ne!(kind, StageKind::Gate, "an auto gate is never asked");
        (true, "ok".to_string())
    });
    assert_eq!(end, WorkflowEnd::Completed);
    assert_eq!(path, vec!["plan", "gate"]);
}

#[test]
fn walk_human_gate_reject_routes_onfail_with_reason() {
    let mut gates = 0;
    let mut seen_by_execute = String::new();
    let (path, end) = walk(&gated(None), 20, |id: &str, kind: StageKind, prompt: &str| {
        if kind == StageKind::Gate {
            gates += 1;
            if gates == 1 {
                return (false, "scope too broad".to_string());
            }
            return (true, "approved".to_string());
        }
        if id == "execute" {
            seen_by_execute = prompt.to_string();
        }
        (true, "ok".to_string())
    });
    assert_eq!(end, WorkflowEnd::Completed);
    assert_eq!(path, vec!["plan", "gate", "execute", "gate"]);
    assert!(seen_by_execute.contains("FIX CONTEXT"));
    assert!(seen_by_execute.contains("scope too broad"));
}

#[test]
fn walk_stuck_when_no_edge_matches() {
    let wf = Workflow {
        schema: WORKFLOW_SCHEMA.into(),
        root_goal: "g".into(),
        nodes: vec![
            WorkflowNode::new("review", StageKind::Review, None),
            WorkflowNode::new("done", StageKind::Done, None),
        ],
        edges: vec![WorkflowEdge::new("review", "done", EdgeWhen::OnPass)],
    };
    let (path, end) = walk(&wf, 20, |_: &str, _: StageKind, _: &str| (false, "no".to_string()));
    assert_eq!(end, WorkflowEnd::Stuck("review".into()));
    assert_eq!(path, vec!["review"]);
}

#[test]
fn gate_and_test_verdicts_carry_their_fixed_operatives() {
    let auto = auto_gate_verdict();
    assert_eq!((auto.operative.as_str(), auto.final_text.as_str(), auto.success, auto.passed), ("(gate:auto)", "auto-approved", true, Some(true)));
    let ok = human_gate_verdict(GateDecision::Approve);
    assert_eq!((ok.operative.as_str(), ok.final_text.as_str(), ok.passed), ("(gate:human)", "approved", Some(true)));
    let no = human_gate_verdict(GateDecision::Reject { reason: "too risky".into() });
    assert_eq!((no.final_text.as_str(), no.success, no.passed), ("too risky", false, Some(false)));
    let t = test_verdict(TestOutcome { passed: false, summary: "1 failed".into() });
    assert_eq!((t.operative.as_str(), t.final_text.as_str(), t.passed), ("(test)", "1 failed", Some(false)));
    assert_eq!(stage_verdict(StageKind::Execute, "cipher".into(), "done".into(), true).passed, None);
    assert_eq!(stage_verdict(StageKind::Review, "vex".into(), "nope".into(), false).passed, Some(false));
}

#[test]
fn consolidation_context_appends_findings_under_their_header() {
    let ctx = FlowContext { text: "upstream".into(), is_fix: true };
    let same = consolidation_context(&ctx, &vec![]);
    assert_eq!((same.text.as_str(), same.is_fix), ("upstream", true));
    let merged = consolidation_context(&ctx, &vec![("a".into(), "x".into()), ("b".into(), "y".into())]);
    assert_eq!(merged.text, "upstream\n\nPARALLEL FINDINGS TO CONSOLIDATE:\n### a findings\nx\n\n### b findings\ny\n");
    assert!(merged.is_fix);
    assert_eq!(stage_operative(&Some("vex".into()), "cipher"), "vex");
    assert_eq!(stage_operative(&None, "cipher"), "cipher");
}

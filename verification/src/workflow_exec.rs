//! Workflow walk decisions: which role a stage runs as, the prompt its
//! operative sees, which edge a stage's outcome routes to, and the bounded
//! walk state (step ceiling, per-edge loop caps, threaded context).
//!
//! Running an operative, resolving a human gate and running a test harness are
//! outside work; the caller performs them and feeds each node's outcome to
//! [`walk_advance`].
use vstd::prelude::*;
use crate::engine::Role;
use crate::text::{append_str, chars_of, seq_eq, string_of};
use crate::workflow::{
    first_index, lemma_first_index_ext, lemma_first_index_extend, lemma_first_index_props,
    lemma_first_index_skip, EdgeWhen, StageKind, Workflow,
    WorkflowEdge, WorkflowError,
};

verus! {

/// One executed node, in walk order.
#[derive(Debug, Clone, PartialEq)]
pub struct StepRecord {
    pub node_id: String,
    pub kind: StageKind,
    /// The operative that ran (a node's `operative_id`, or the lead).
    pub operative_id: String,
    /// The operative's final text — threaded forward as the next node's context.
    pub final_text: String,
    pub success: bool,
    /// For gate/check nodes: did it pass? `None` for ordinary stages.
    pub passed: Option<bool>,
    /// How many sub-operatives ran in parallel before the primary consolidated.
    pub fanout: usize,
}

/// How a workflow walk ended.
#[derive(Debug, Clone, PartialEq, Eq)]
pub enum WorkflowEnd {
    /// Reached a `Done` node.
    Completed,
    /// A node had no edge matching its outcome.
    Stuck(String),
    /// Hit the step ceiling without reaching `Done`.
    StepsExhausted,
    /// An edge hit its `max_traversals` cap. Holds `from->to`.
    LoopCapReached(String),
}

/// The abstract form of a `WorkflowEnd`.
pub enum EndView {
    Completed,
    Stuck(Seq<char>),
    StepsExhausted,
    LoopCapReached(Seq<char>),
}

impl WorkflowEnd {
    pub open spec fn view_end(&self) -> EndView {
        match self {
            WorkflowEnd::Completed => EndView::Completed,
            WorkflowEnd::Stuck(s) => EndView::Stuck(s@),
            WorkflowEnd::StepsExhausted => EndView::StepsExhausted,
            WorkflowEnd::LoopCapReached(s) => EndView::LoopCapReached(s@),
        }
    }
}

/// The engineer's verdict on a human `Gate`.
#[derive(Debug, Clone, PartialEq, Eq)]
pub enum GateDecision {
    Approve,
    Reject { reason: String },
}

/// Result of a `Test` stage's deterministic harness run.
#[derive(Debug, Clone, PartialEq, Eq)]
pub struct TestOutcome {
    pub passed: bool,
    pub summary: String,
}

/// Why a workflow could not be run.
#[derive(Debug, PartialEq)]
pub enum WorkflowRunError {
    Invalid(WorkflowError),
    UnknownOperative { node: String, operative: String },
}

/// The CLI role a stage runs as: planning-shaped stages plan, checks judge,
/// everything else executes.
pub fn role_for(kind: StageKind) -> (r: Role)
    ensures
        r == (match kind {
            StageKind::Plan | StageKind::Interrogate | StageKind::Scope | StageKind::Aggregate
            | StageKind::Research => Role::Plan,
            StageKind::Gate | StageKind::Review | StageKind::Test => Role::Judge,
            StageKind::Tdd | StageKind::Execute | StageKind::Done => Role::Execute,
        }),
{
    match kind {
        StageKind::Plan
        | StageKind::Interrogate
        | StageKind::Scope
        | StageKind::Aggregate
        | StageKind::Research => Role::Plan,
        StageKind::Gate | StageKind::Review | StageKind::Test => Role::Judge,
        StageKind::Tdd | StageKind::Execute | StageKind::Done => Role::Execute,
    }
}

/// The name a stage kind is shown under.
pub open spec fn kind_name_spec(kind: StageKind) -> Seq<char> {
    match kind {
        StageKind::Research => "Research"@,
        StageKind::Aggregate => "Aggregate"@,
        StageKind::Scope => "Scope"@,
        StageKind::Gate => "Gate"@,
        StageKind::Plan => "Plan"@,
        StageKind::Interrogate => "Interrogate"@,
        StageKind::Tdd => "Tdd"@,
        StageKind::Execute => "Execute"@,
        StageKind::Review => "Review"@,
        StageKind::Test => "Test"@,
        StageKind::Done => "Done"@,
    }
}

/// The name a stage kind is shown under.
pub fn kind_name(kind: StageKind) -> (r: &'static str)
    ensures
        r@ == kind_name_spec(kind),
{
    match kind {
        StageKind::Research => "Research",
        StageKind::Aggregate => "Aggregate",
        StageKind::Scope => "Scope",
        StageKind::Gate => "Gate",
        StageKind::Plan => "Plan",
        StageKind::Interrogate => "Interrogate",
        StageKind::Tdd => "Tdd",
        StageKind::Execute => "Execute",
        StageKind::Review => "Review",
        StageKind::Test => "Test",
        StageKind::Done => "Done",
    }
}

/// The context handed downstream: the prior node's output, flagged as fix
/// context when it was carried along an `OnFail` edge.
#[derive(Debug, Clone, PartialEq, Eq, Default)]
pub struct FlowContext {
    pub text: String,
    pub is_fix: bool,
}

pub open spec fn node_prompt_spec(
    goal: Seq<char>,
    kind: StageKind,
    instruction: Option<Seq<char>>,
    ctx_text: Seq<char>,
    ctx_fix: bool,
) -> Seq<char> {
    "GOAL:\n"@ + goal + "\n\nSTAGE: "@ + kind_name_spec(kind) + match instruction {
        Some(extra) => "\n\nINSTRUCTION:\n"@ + extra,
        None => Seq::empty(),
    } + if ctx_text.len() == 0 {
        Seq::empty()
    } else {
        (if ctx_fix {
            "\n\nFIX CONTEXT (address this — the prior gate/check did not pass):\n"@
        } else {
            "\n\nUPSTREAM ARTIFACT:\n"@
        }) + ctx_text
    }
}

/// Who ran an auto-approved gate.
pub const AUTO_GATE_OPERATIVE: &'static str = "(gate:auto)";

/// The text an auto-approved gate passes on.
pub const AUTO_GATE_TEXT: &'static str = "auto-approved";

/// Who ran a human gate.
pub const HUMAN_GATE_OPERATIVE: &'static str = "(gate:human)";

/// The text an approved human gate passes on.
pub const HUMAN_APPROVED_TEXT: &'static str = "approved";

/// Who ran a `Test` stage.
pub const TEST_OPERATIVE: &'static str = "(test)";

/// The header that introduces the sub-operatives' findings to the primary.
pub const FINDINGS_HEADER: &'static str = "\n\nPARALLEL FINDINGS TO CONSOLIDATE:";

/// What one executed node produced: who ran it, the text it passes on, whether
/// it succeeded, and the verdict a deciding stage routes on (`None` for
/// stages that do not decide).
#[derive(Debug, Clone, PartialEq)]
pub struct NodeVerdict {
    pub operative: String,
    pub final_text: String,
    pub success: bool,
    pub passed: Option<bool>,
}

/// An auto-mode gate approves without asking anyone.
pub fn auto_gate_verdict() -> (v: NodeVerdict)
    ensures
        v.operative@ == AUTO_GATE_OPERATIVE@,
        v.final_text@ == AUTO_GATE_TEXT@,
        v.success,
        v.passed == Some(true),
{
    NodeVerdict {
        operative: AUTO_GATE_OPERATIVE.to_owned(),
        final_text: AUTO_GATE_TEXT.to_owned(),
        success: true,
        passed: Some(true),
    }
}

/// A human gate passes on "approved" when approved, and the rejection's
/// reason (failing) when rejected.
pub fn human_gate_verdict(decision: GateDecision) -> (v: NodeVerdict)
    ensures
        v.operative@ == HUMAN_GATE_OPERATIVE@,
        match decision {
            GateDecision::Approve => v.final_text@ == HUMAN_APPROVED_TEXT@ && v.success && v.passed
                == Some(true),
            GateDecision::Reject { reason } => v.final_text@ == reason@ && !v.success && v.passed
                == Some(false),
        },
{
    match decision {
        GateDecision::Approve => NodeVerdict {
            operative: HUMAN_GATE_OPERATIVE.to_owned(),
            final_text: HUMAN_APPROVED_TEXT.to_owned(),
            success: true,
            passed: Some(true),
        },
        GateDecision::Reject { reason } => NodeVerdict {
            operative: HUMAN_GATE_OPERATIVE.to_owned(),
            final_text: reason,
            success: false,
            passed: Some(false),
        },
    }
}

/// A `Test` stage passes on the harness summary and routes on whether it passed.
pub fn test_verdict(out: TestOutcome) -> (v: NodeVerdict)
    ensures
        v.operative@ == TEST_OPERATIVE@,
        v.final_text@ == out.summary@,
        v.success == out.passed,
        v.passed == Some(out.passed),
{
    NodeVerdict {
        operative: TEST_OPERATIVE.to_owned(),
        final_text: out.summary,
        success: out.passed,
        passed: Some(out.passed),
    }
}

/// An operative-run stage passes on its operative's text; a deciding stage
/// routes on the run's success, any other stage does not route on a verdict.
pub fn stage_verdict(kind: StageKind, operative: String, final_text: String, success: bool) -> (v:
    NodeVerdict)
    ensures
        v.operative@ == operative@,
        v.final_text@ == final_text@,
        v.success == success,
        v.passed == (if kind.decides() {
            Some(success)
        } else {
            None
        }),
{
    let passed = if kind.is_gate_or_check() {
        Some(success)
    } else {
        None
    };
    NodeVerdict { operative, final_text, success, passed }
}

/// The operative that runs a stage: the one the node names, else the lead.
pub fn stage_operative(assigned: &Option<String>, lead_id: &str) -> (r: String)
    ensures
        r@ == (match assigned {
            Some(a) => a@,
            None => lead_id@,
        }),
{
    match assigned {
        Some(a) => a.clone(),
        None => lead_id.to_owned(),
    }
}

/// The sub-operatives' findings, each under a `### <id> findings` heading.
pub open spec fn findings_text(fs: Seq<(Seq<char>, Seq<char>)>) -> Seq<char>
    decreases fs.len(),
{
    if fs.len() == 0 {
        Seq::empty()
    } else {
        findings_text(fs.drop_last()) + "\n### "@ + fs.last().0 + " findings\n"@ + fs.last().1
            + "\n"@
    }
}

/// The findings as plain text pairs.
pub open spec fn findings_view(fs: Seq<(String, String)>) -> Seq<(Seq<char>, Seq<char>)> {
    fs.map_values(|p: (String, String)| (p.0@, p.1@))
}

/// The context the primary operative consolidates from: with sub-operative
/// findings, the upstream text followed by the findings under their header;
/// without any, the upstream context as it is.
pub fn consolidation_context(ctx: &FlowContext, findings: &Vec<(String, String)>) -> (r: FlowContext)
    ensures
        r.is_fix == ctx.is_fix,
        r.text@ == (if findings.len() == 0 {
            ctx.text@
        } else {
            ctx.text@ + FINDINGS_HEADER@ + findings_text(findings_view(findings@))
        }),
{
    if findings.len() == 0 {
        return FlowContext { text: ctx.text.clone(), is_fix: ctx.is_fix };
    }
    let ghost fv = findings_view(findings@);
    let mut out: Vec<char> = chars_of(ctx.text.as_str());
    append_str(&mut out, FINDINGS_HEADER);
    let ghost base = out@;
    let mut i: usize = 0;
    assert(fv.take(0) =~= Seq::<(Seq<char>, Seq<char>)>::empty());
    while i < findings.len()
        invariant
            0 <= i <= findings.len(),
            fv == findings_view(findings@),
            out@ == base + findings_text(fv.take(i as int)),
        decreases findings.len() - i,
    {
        let ghost before = out@;
        let entry = &findings[i];
        append_str(&mut out, "\n### ");
        append_str(&mut out, entry.0.as_str());
        append_str(&mut out, " findings\n");
        append_str(&mut out, entry.1.as_str());
        append_str(&mut out, "\n");
        proof {
            let t = fv.take(i + 1);
            assert(t.drop_last() =~= fv.take(i as int));
            assert(t.last() == fv[i as int]);
            assert(fv[i as int] == (entry.0@, entry.1@));
            assert(out@ =~= base + (findings_text(fv.take(i as int)) + "\n### "@ + entry.0@
                + " findings\n"@ + entry.1@ + "\n"@));
        }
        i = i + 1;
    }
    assert(fv.take(findings.len() as int) =~= fv);
    FlowContext { text: string_of(&out), is_fix: ctx.is_fix }
}

/// The prompt a node's operative sees: the root goal, the stage, any per-stage
/// instruction, and the upstream context (labelled FIX CONTEXT after `OnFail`).
pub fn node_prompt(wf: &Workflow, kind: StageKind, instruction: Option<&str>, ctx: &FlowContext) -> (r: String)
    ensures
        r@ == node_prompt_spec(
            wf.root_goal@,
            kind,
            match instruction {
                Some(s) => Some(s@),
                None => None,
            },
            ctx.text@,
            ctx.is_fix,
        ),
{
    let mut p: Vec<char> = Vec::new();
    append_str(&mut p, "GOAL:\n");
    append_str(&mut p, wf.root_goal.as_str());
    append_str(&mut p, "\n\nSTAGE: ");
    append_str(&mut p, kind_name(kind));
    let ghost head = p@;
    if let Some(extra) = instruction {
        append_str(&mut p, "\n\nINSTRUCTION:\n");
        append_str(&mut p, extra);
    }
    let ghost mid = p@;
    let text = chars_of(ctx.text.as_str());
    if text.len() > 0 {
        if ctx.is_fix {
            append_str(&mut p, "\n\nFIX CONTEXT (address this — the prior gate/check did not pass):\n");
        } else {
            append_str(&mut p, "\n\nUPSTREAM ARTIFACT:\n");
        }
        append_str(&mut p, ctx.text.as_str());
    }
    proof {
        let instr = match instruction {
            Some(s) => Some(s@),
            None => None::<Seq<char>>,
        };
        let ip = match instr {
            Some(extra) => "\n\nINSTRUCTION:\n"@ + extra,
            None => Seq::<char>::empty(),
        };
        assert(mid =~= head + ip);
        let cp = if ctx.text@.len() == 0 {
            Seq::<char>::empty()
        } else {
            (if ctx.is_fix {
                "\n\nFIX CONTEXT (address this — the prior gate/check did not pass):\n"@
            } else {
                "\n\nUPSTREAM ARTIFACT:\n"@
            }) + ctx.text@
        };
        assert(p@ =~= mid + cp);
    }
    string_of(&p)
}

/// The edge a node's outcome routes to, among the edges leaving `from`: a check
/// prefers the edge matching its verdict, then an `Always` edge; an ordinary
/// stage takes its first `Always` edge. `None` when nothing matches.
pub open spec fn next_edge_spec(wf: Workflow, from: Seq<char>, passed: Option<bool>) -> Option<WorkflowEdge> {
    let es = wf.out_edges_of(from);
    let preferred = match passed {
        Some(true) => Some(EdgeWhen::OnPass),
        Some(false) => Some(EdgeWhen::OnFail),
        None => None,
    };
    let pick = match preferred {
        Some(want) => first_index(|i: int| es[i].when == want, 0, es.len() as int),
        None => None,
    };
    match pick {
        Some(i) => Some(es[i]),
        None => match first_index(|i: int| es[i].when == EdgeWhen::Always, 0, es.len() as int) {
            Some(i) => Some(es[i]),
            None => None,
        },
    }
}

/// The edge condition a verdict routes on: `OnPass` for a pass, `OnFail` for a fail.
pub open spec fn verdict_when(passed: bool) -> EdgeWhen {
    if passed {
        EdgeWhen::OnPass
    } else {
        EdgeWhen::OnFail
    }
}

/// Some out-edge of `from` routes on this outcome's verdict.
pub open spec fn has_verdict_edge(es: Seq<WorkflowEdge>, passed: Option<bool>) -> bool {
    passed matches Some(b) && exists|k: int| 0 <= k < es.len() && (#[trigger] es[k]).when == verdict_when(b)
}

/// Out-edge `k` is the first whose condition is `w`.
pub open spec fn first_at(es: Seq<WorkflowEdge>, w: EdgeWhen, k: int) -> bool {
    0 <= k < es.len() && es[k].when == w && forall|j: int| 0 <= j < k ==> (#[trigger] es[j]).when != w
}

/// `e` is the first out-edge whose condition is `w`.
pub open spec fn first_with(es: Seq<WorkflowEdge>, w: EdgeWhen, e: WorkflowEdge) -> bool {
    exists|k: int| #[trigger] first_at(es, w, k) && es[k] == e
}

/// How an outcome routes out of a node: a verdict follows the first out-edge
/// for that verdict (`OnPass` for a pass, `OnFail` for a fail); when no such
/// edge leaves the node, or the stage gave no verdict, the first `Always` edge
/// is followed; the walk has nowhere to go only when neither exists.
pub proof fn lemma_next_edge_routing(wf: Workflow, from: Seq<char>, passed: Option<bool>)
    ensures
        ({
            let es = wf.out_edges_of(from);
            let r = next_edge_spec(wf, from, passed);
            &&& has_verdict_edge(es, passed) ==> (r matches Some(e) && first_with(
                es,
                verdict_when(passed.unwrap()),
                e,
            ))
            &&& (!has_verdict_edge(es, passed) && exists|k: int|
                0 <= k < es.len() && (#[trigger] es[k]).when == EdgeWhen::Always) ==> (r matches Some(e)
                && first_with(es, EdgeWhen::Always, e))
            &&& (r is None <==> (!has_verdict_edge(es, passed) && forall|k: int|
                0 <= k < es.len() ==> (#[trigger] es[k]).when != EdgeWhen::Always))
        }),
{
    let es = wf.out_edges_of(from);
    let n = es.len() as int;
    let pa = |i: int| es[i].when == EdgeWhen::Always;
    lemma_first_index_props(pa, 0, n);
    let r = next_edge_spec(wf, from, passed);
    let always = first_index(pa, 0, n);
    match always {
        Some(i) => {
            assert forall|j: int| 0 <= j < i implies (#[trigger] es[j]).when != EdgeWhen::Always by {
                assert(!pa(j));
            }
            assert(first_at(es, EdgeWhen::Always, i));
            assert(first_with(es, EdgeWhen::Always, es[i]));
        },
        None => {
            assert forall|k: int| 0 <= k < es.len() implies (#[trigger] es[k]).when != EdgeWhen::Always by {
                assert(!pa(k));
            }
        },
    }
    match passed {
        Some(b) => {
            let want = verdict_when(b);
            let pw = |i: int| es[i].when == want;
            lemma_first_index_props(pw, 0, n);
            let pick = first_index(pw, 0, n);
            assert(r == match pick {
                Some(i) => Some(es[i]),
                None => match always {
                    Some(i) => Some(es[i]),
                    None => None,
                },
            });
            match pick {
                Some(i) => {
                    assert(es[i].when == want);
                    assert(has_verdict_edge(es, passed));
                    assert forall|j: int| 0 <= j < i implies (#[trigger] es[j]).when != want by {
                        assert(!pw(j));
                    }
                    assert(first_at(es, want, i));
                    assert(first_with(es, want, es[i]));
                },
                None => {
                    assert(!has_verdict_edge(es, passed)) by {
                        if has_verdict_edge(es, passed) {
                            let k = choose|k: int| 0 <= k < es.len() && (#[trigger] es[k]).when == verdict_when(b);
                            assert(pw(k));
                        }
                    }
                },
            }
        },
        None => {
            assert(r == match always {
                Some(i) => Some(es[i]),
                None => None,
            });
        },
    }
}

fn first_when(es: &Vec<&WorkflowEdge>, want: EdgeWhen) -> (r: Option<usize>)
    ensures
        match r {
            Some(i) => first_index(
                |j: int| es@.map_values(|e: &WorkflowEdge| *e)[j].when == want,
                0,
                es@.len() as int,
            ) == Some(i as int) && i < es@.len(),
            None => first_index(
                |j: int| es@.map_values(|e: &WorkflowEdge| *e)[j].when == want,
                0,
                es@.len() as int,
            ) is None,
        },
{
    let ghost m = es@.map_values(|e: &WorkflowEdge| *e);
    let ghost p = |j: int| m[j].when == want;
    let mut i: usize = 0;
    while i < es.len()
        invariant
            i <= es@.len(),
            m == es@.map_values(|e: &WorkflowEdge| *e),
            p == (|j: int| m[j].when == want),
            forall|j: int| 0 <= j < i ==> !#[trigger] p(j),
        decreases es.len() - i,
    {
        if es[i].when == want {
            proof {
                lemma_first_index_skip(p, 0, i as int, es@.len() as int);
                assert(p(i as int));
            }
            return Some(i);
        }
        i = i + 1;
    }
    proof {
        lemma_first_index_skip(p, 0, i as int, es@.len() as int);
    }
    None
}

/// Choose the next edge given the current node's outcome.
pub fn next_edge<'a>(wf: &'a Workflow, from: &str, passed: Option<bool>) -> (r: Option<&'a WorkflowEdge>)
    ensures
        match r {
            Some(e) => next_edge_spec(*wf, from@, passed) == Some(*e),
            None => next_edge_spec(*wf, from@, passed) is None,
        },
{
    let edges = wf.out_edges(from);
    let ghost es = wf.out_edges_of(from@);
    assert(edges@.map_values(|e: &WorkflowEdge| *e) == es);
    let preferred = match passed {
        Some(true) => Some(EdgeWhen::OnPass),
        Some(false) => Some(EdgeWhen::OnFail),
        None => None,
    };
    if let Some(want) = preferred {
        if let Some(i) = first_when(&edges, want) {
            assert(edges@.map_values(|e: &WorkflowEdge| *e)[i as int] == *edges@[i as int]);
            return Some(edges[i]);
        }
    }
    match first_when(&edges, EdgeWhen::Always) {
        Some(i) => {
            assert(edges@.map_values(|e: &WorkflowEdge| *e)[i as int] == *edges@[i as int]);
            Some(edges[i])
        },
        None => None,
    }
}


/// How many times one edge (keyed by `from`, `to`, `when`) has been traversed.
#[derive(Debug, Clone, PartialEq, Eq)]
pub struct Traversal {
    pub from: String,
    pub to: String,
    pub when: EdgeWhen,
    pub count: usize,
}

/// Where a walk stands between nodes.
#[derive(Debug, Clone, PartialEq, Eq)]
pub struct WalkState {
    /// The node to execute next.
    pub current: String,
    /// How many nodes have executed so far.
    pub steps: usize,
    /// Per-edge traversal counts.
    pub traversals: Vec<Traversal>,
    /// The context handed to the next node.
    pub ctx: FlowContext,
}

impl WalkState {
    /// No edge has been traversed more often than nodes have executed.
    pub open spec fn counts_bounded(&self) -> bool {
        forall|i: int| 0 <= i < self.traversals@.len() ==> (#[trigger] self.traversals@[i]).count <= self.steps
    }
}

pub open spec fn key_matches(t: Traversal, from: Seq<char>, to: Seq<char>, when: EdgeWhen) -> bool {
    t.from@ == from && t.to@ == to && t.when == when
}

pub open spec fn trav_index(ts: Seq<Traversal>, from: Seq<char>, to: Seq<char>, when: EdgeWhen) -> Option<int> {
    first_index(|i: int| key_matches(ts[i], from, to, when), 0, ts.len() as int)
}

/// How many times the edge `from`→`to` (`when`) has been traversed.
pub open spec fn trav_count(ts: Seq<Traversal>, from: Seq<char>, to: Seq<char>, when: EdgeWhen) -> nat {
    match trav_index(ts, from, to, when) {
        Some(i) => ts[i].count as nat,
        None => 0,
    }
}

/// The walk's start: the workflow validates, and the walk begins at its start
/// node with no steps taken and empty context.
pub fn walk_begin(wf: &Workflow) -> (r: Result<WalkState, WorkflowRunError>)
    ensures
        match r {
            Ok(st) => st.counts_bounded() && wf.is_valid() && wf.start_index() is Some && st.current@ == wf.node_id(
                wf.start_index()->0,
            ) && st.steps == 0 && st.traversals@.len() == 0 && st.ctx.text@.len() == 0
                && !st.ctx.is_fix,
            Err(WorkflowRunError::Invalid(e)) => wf.validation_fault() == Some(e.fault()),
            Err(_) => false,
        },
{
    match wf.validate() {
        Err(e) => return Err(WorkflowRunError::Invalid(e)),
        Ok(()) => {},
    }
    match wf.start() {
        Some(n) => Ok(
            WalkState {
                current: n.id.clone(),
                steps: 0,
                traversals: Vec::new(),
                ctx: FlowContext { text: String::new(), is_fix: false },
            },
        ),
        None => {
            // a valid workflow has exactly one start node
            Err(WorkflowRunError::Invalid(WorkflowError::NotOneStart(0)))
        },
    }
}

/// Whether the walk ends before executing the current node: at the step
/// ceiling it is exhausted; at a `Done` node it is complete.
pub fn walk_check(wf: &Workflow, st: &WalkState, max_steps: usize) -> (r: Option<WorkflowEnd>)
    ensures
        match r {
            Some(WorkflowEnd::StepsExhausted) => st.steps >= max_steps,
            Some(WorkflowEnd::Completed) => st.steps < max_steps && wf.is_done_id(st.current@),
            Some(_) => false,
            None => st.steps < max_steps && !wf.is_done_id(st.current@),
        },
{
    if st.steps >= max_steps {
        return Some(WorkflowEnd::StepsExhausted);
    }
    match wf.node(st.current.as_str()) {
        Some(n) => if n.kind == StageKind::Done {
            Some(WorkflowEnd::Completed)
        } else {
            None
        },
        None => None,
    }
}

fn find_traversal(ts: &Vec<Traversal>, from: &[char], to: &[char], when: EdgeWhen) -> (r: Option<usize>)
    ensures
        match r {
            Some(i) => trav_index(ts@, from@, to@, when) == Some(i as int) && i < ts@.len(),
            None => trav_index(ts@, from@, to@, when) is None,
        },
{
    let ghost p = |i: int| key_matches(ts@[i], from@, to@, when);
    let mut i: usize = 0;
    while i < ts.len()
        invariant
            i <= ts@.len(),
            p == (|i: int| key_matches(ts@[i], from@, to@, when)),
            forall|j: int| 0 <= j < i ==> !#[trigger] p(j),
        decreases ts.len() - i,
    {
        let f = chars_of(ts[i].from.as_str());
        let t = chars_of(ts[i].to.as_str());
        if ts[i].when == when && seq_eq(&f, from) && seq_eq(&t, to) {
            proof {
                lemma_first_index_skip(p, 0, i as int, ts@.len() as int);
                assert(p(i as int));
            }
            return Some(i);
        }
        i = i + 1;
    }
    proof {
        lemma_first_index_skip(p, 0, i as int, ts@.len() as int);
    }
    None
}

/// `from->to`, the label of a capped edge.
pub open spec fn edge_label(from: Seq<char>, to: Seq<char>) -> Seq<char> {
    from + "->"@ + to
}

/// Advance past the node just executed, given its pass/fail verdict (`None`
/// for ordinary stages) and its output. Takes the routed edge (see
/// [`next_edge`]), counts the traversal, stops at the edge's cap, and threads
/// the output forward (as fix context along `OnFail`).
pub fn walk_advance(wf: &Workflow, st: &mut WalkState, passed: Option<bool>, final_text: String) -> (r: Option<WorkflowEnd>)
    requires
        old(st).steps < usize::MAX,
        old(st).counts_bounded(),
    ensures
        final(st).steps == old(st).steps + 1,
        final(st).counts_bounded(),
        match next_edge_spec(*wf, old(st).current@, passed) {
            None => r matches Some(end) && end.view_end() == EndView::Stuck(old(st).current@),
            Some(e) => {
                let c = trav_count(old(st).traversals@, e.from@, e.to@, e.when) + 1;
                &&& trav_count(final(st).traversals@, e.from@, e.to@, e.when) == c
                &&& forall|f: Seq<char>, t: Seq<char>, w: EdgeWhen|
                    !(f == e.from@ && t == e.to@ && w == e.when) ==> trav_count(
                        final(st).traversals@,
                        f,
                        t,
                        w,
                    ) == trav_count(old(st).traversals@, f, t, w)
                &&& match e.max_traversals {
                    Some(cap) if c > cap => r matches Some(end) && end.view_end()
                        == EndView::LoopCapReached(edge_label(e.from@, e.to@)),
                    _ => {
                        &&& r is None
                        &&& final(st).current@ == e.to@
                        &&& final(st).ctx.text@ == final_text@
                        &&& final(st).ctx.is_fix == (e.when == EdgeWhen::OnFail)
                    },
                }
            },
        },
{
    st.steps = st.steps + 1;
    let edge = match next_edge(wf, st.current.as_str(), passed) {
        None => return Some(WorkflowEnd::Stuck(st.current.clone())),
        Some(e) => e,
    };
    let from = chars_of(edge.from.as_str());
    let to = chars_of(edge.to.as_str());
    let ghost ts0 = st.traversals@;
    let ghost kf = edge.from@;
    let ghost kt = edge.to@;
    let ghost kw = edge.when;
    let count: usize;
    match find_traversal(&st.traversals, &from, &to, edge.when) {
        Some(i) => {
            let c = st.traversals[i].count;
            assert(c <= old(st).steps);
            count = c + 1;
            let t = Traversal {
                from: st.traversals[i].from.clone(),
                to: st.traversals[i].to.clone(),
                when: st.traversals[i].when,
                count,
            };
            st.traversals.set(i, t);
            proof {
                let ts1 = st.traversals@;
                assert forall|f: Seq<char>, tt: Seq<char>, w: EdgeWhen|
                    #![trigger trav_index(ts1, f, tt, w)]
                    trav_index(ts1, f, tt, w) == trav_index(ts0, f, tt, w) by {
                    lemma_first_index_ext(
                        |j: int| key_matches(ts1[j], f, tt, w),
                        |j: int| key_matches(ts0[j], f, tt, w),
                        0,
                        ts0.len() as int,
                    );
                }
                assert forall|f: Seq<char>, tt: Seq<char>, w: EdgeWhen|
                    !(f == kf && tt == kt && w == kw) implies trav_count(ts1, f, tt, w) == trav_count(
                        ts0,
                        f,
                        tt,
                        w,
                    ) by {
                    assert(trav_index(ts1, f, tt, w) == trav_index(ts0, f, tt, w));
                    lemma_first_index_props(
                        |j: int| key_matches(ts0[j], f, tt, w),
                        0,
                        ts0.len() as int,
                    );
                    lemma_first_index_props(
                        |j: int| key_matches(ts0[j], kf, kt, kw),
                        0,
                        ts0.len() as int,
                    );
                }
                assert(trav_index(ts1, kf, kt, kw) == trav_index(ts0, kf, kt, kw));
            }
        },
        None => {
            count = 1;
            st.traversals.push(Traversal {
                from: edge.from.clone(),
                to: edge.to.clone(),
                when: edge.when,
                count: 1,
            });
            proof {
                let ts1 = st.traversals@;
                assert forall|f: Seq<char>, tt: Seq<char>, w: EdgeWhen|
                    #![trigger trav_index(ts1, f, tt, w)]
                    trav_index(ts1, f, tt, w) == (match trav_index(ts0, f, tt, w) {
                        Some(x) => Some(x),
                        None => if key_matches(ts1[ts0.len() as int], f, tt, w) {
                            Some(ts0.len() as int)
                        } else {
                            None
                        },
                    }) by {
                    lemma_first_index_extend(
                        |j: int| key_matches(ts1[j], f, tt, w),
                        0,
                        ts0.len() as int,
                    );
                    lemma_first_index_ext(
                        |j: int| key_matches(ts1[j], f, tt, w),
                        |j: int| key_matches(ts0[j], f, tt, w),
                        0,
                        ts0.len() as int,
                    );
                }
                assert forall|f: Seq<char>, tt: Seq<char>, w: EdgeWhen|
                    !(f == kf && tt == kt && w == kw) implies trav_count(ts1, f, tt, w) == trav_count(
                        ts0,
                        f,
                        tt,
                        w,
                    ) by {
                    assert(trav_index(ts1, f, tt, w) == (match trav_index(ts0, f, tt, w) {
                        Some(x) => Some(x),
                        None => if key_matches(ts1[ts0.len() as int], f, tt, w) {
                            Some(ts0.len() as int)
                        } else {
                            None
                        },
                    }));
                    lemma_first_index_props(
                        |j: int| key_matches(ts0[j], f, tt, w),
                        0,
                        ts0.len() as int,
                    );
                }
                assert(trav_index(ts1, kf, kt, kw) == (match trav_index(ts0, kf, kt, kw) {
                    Some(x) => Some(x),
                    None => if key_matches(ts1[ts0.len() as int], kf, kt, kw) {
                        Some(ts0.len() as int)
                    } else {
                        None
                    },
                }));
            }
        },
    }
    if let Some(cap) = edge.max_traversals {
        if count > cap {
            let mut label = from;
            append_str(&mut label, "->");
            append_str(&mut label, edge.to.as_str());
            return Some(WorkflowEnd::LoopCapReached(string_of(&label)));
        }
    }
    st.ctx = FlowContext { text: final_text, is_fix: edge.when == EdgeWhen::OnFail };
    st.current = edge.to.clone();
    None
}
} // verus!

//! Composable workflow model: an engineer-authored directed graph of stages,
//! each bound to a hired operative, plus its structural validation.
use vstd::prelude::*;
use crate::text::{chars_of, seq_eq};

verus! {

/// What a node does.
#[derive(Debug, Clone, Copy, PartialEq, Eq, Structural)]
pub enum StageKind {
    Research,
    Aggregate,
    Scope,
    Gate,
    Plan,
    Interrogate,
    Tdd,
    Execute,
    Review,
    Test,
    Done,
}

impl StageKind {
    pub open spec fn decides(self) -> bool {
        self is Gate || self is Review || self is Test
    }

    /// Stages that decide pass/fail (and thus may have `OnFail` out-edges).
    pub fn is_gate_or_check(self) -> (r: bool)
        ensures
            r == self.decides(),
    {
        match self {
            StageKind::Gate | StageKind::Review | StageKind::Test => true,
            _ => false,
        }
    }
}

/// How a `Gate` node resolves: `Human` blocks for an engineer approve/reject,
/// `Auto` passes straight through.
#[derive(Debug, Clone, Copy, PartialEq, Eq, Structural)]
pub enum GateMode {
    Human,
    Auto,
}

impl Default for GateMode {
    fn default() -> (r: Self)
        ensures
            r == GateMode::Human,
    {
        GateMode::Human
    }
}

/// One stage in the graph.
#[derive(Debug, Clone, PartialEq)]
pub struct WorkflowNode {
    pub id: String,
    pub kind: StageKind,
    /// The hired operative (roster id) this stage runs as. `None` → the lead.
    pub operative_id: Option<String>,
    /// Extra per-stage instruction appended to the operative's prompt.
    pub instruction: Option<String>,
    /// For `Gate` nodes only: human approval vs auto-pass. Absent → `Human`.
    pub gate_mode: Option<GateMode>,
    /// Roster ids run in parallel before this node's primary operative consolidates.
    pub sub_operatives: Vec<String>,
}

impl WorkflowNode {
    /// A node bound to an operative (or the lead when `operative_id` is `None`).
    pub fn new(id: &str, kind: StageKind, operative_id: Option<String>) -> (r: Self)
        ensures
            r.id@ == id@,
            r.kind == kind,
            r.operative_id == operative_id,
            r.instruction is None,
            r.gate_mode is None,
            r.sub_operatives@.len() == 0,
    {
        WorkflowNode {
            id: id.to_owned(),
            kind,
            operative_id,
            instruction: None,
            gate_mode: None,
            sub_operatives: Vec::new(),
        }
    }

    pub open spec fn effective_gate_mode(&self) -> GateMode {
        match self.gate_mode {
            Some(m) => m,
            None => GateMode::Human,
        }
    }

    /// The approval mode for this node, defaulting to `Human`.
    pub fn gate_mode(&self) -> (r: GateMode)
        ensures
            r == self.effective_gate_mode(),
    {
        match self.gate_mode {
            Some(m) => m,
            None => GateMode::Human,
        }
    }
}

/// When a transition fires.
#[derive(Debug, Clone, Copy, PartialEq, Eq, Hash, Structural)]
pub enum EdgeWhen {
    Always,
    OnPass,
    OnFail,
}

impl Default for EdgeWhen {
    fn default() -> (r: Self)
        ensures
            r == EdgeWhen::Always,
    {
        EdgeWhen::Always
    }
}

/// A directed transition between stages.
#[derive(Debug, Clone, PartialEq)]
pub struct WorkflowEdge {
    pub from: String,
    pub to: String,
    pub when: EdgeWhen,
    /// The most times this edge may be traversed in one run; `None` → bounded
    /// only by the run-wide step ceiling.
    pub max_traversals: Option<usize>,
}

impl WorkflowEdge {
    /// An uncapped edge.
    pub fn new(from: &str, to: &str, when: EdgeWhen) -> (r: Self)
        ensures
            r.from@ == from@,
            r.to@ == to@,
            r.when == when,
            r.max_traversals is None,
    {
        WorkflowEdge { from: from.to_owned(), to: to.to_owned(), when, max_traversals: None }
    }

    /// An edge that may be traversed at most `cap` times in one run.
    pub fn capped(from: &str, to: &str, when: EdgeWhen, cap: usize) -> (r: Self)
        ensures
            r.from@ == from@,
            r.to@ == to@,
            r.when == when,
            r.max_traversals == Some(cap),
    {
        WorkflowEdge { from: from.to_owned(), to: to.to_owned(), when, max_traversals: Some(cap) }
    }
}

/// An engineer-authored workflow.
#[derive(Debug, Clone, PartialEq)]
pub struct Workflow {
    pub schema: String,
    pub root_goal: String,
    pub nodes: Vec<WorkflowNode>,
    pub edges: Vec<WorkflowEdge>,
}

pub const WORKFLOW_SCHEMA: &'static str = "workflow.v1";

/// Default per-edge cap for the built-in fix-loops.
pub const FIX_LOOP_CAP: usize = 3;

/// Why a workflow failed validation.
#[derive(Debug, PartialEq)]
pub enum WorkflowError {
    Empty,
    DuplicateId(String),
    UnknownNode(String),
    NotOneStart(usize),
    NoDone,
    DoneHasOutgoing(String),
    DeadEnd(String),
    BadOnFail(String),
    DoneUnreachable,
}

/// The abstract form of a `WorkflowError`.
pub enum WorkflowFault {
    Empty,
    DuplicateId(Seq<char>),
    UnknownNode(Seq<char>),
    NotOneStart(nat),
    NoDone,
    DoneHasOutgoing(Seq<char>),
    DeadEnd(Seq<char>),
    BadOnFail(Seq<char>),
    DoneUnreachable,
}

impl WorkflowError {
    pub open spec fn fault(&self) -> WorkflowFault {
        match self {
            WorkflowError::Empty => WorkflowFault::Empty,
            WorkflowError::DuplicateId(s) => WorkflowFault::DuplicateId(s@),
            WorkflowError::UnknownNode(s) => WorkflowFault::UnknownNode(s@),
            WorkflowError::NotOneStart(n) => WorkflowFault::NotOneStart(*n as nat),
            WorkflowError::NoDone => WorkflowFault::NoDone,
            WorkflowError::DoneHasOutgoing(s) => WorkflowFault::DoneHasOutgoing(s@),
            WorkflowError::DeadEnd(s) => WorkflowFault::DeadEnd(s@),
            WorkflowError::BadOnFail(s) => WorkflowFault::BadOnFail(s@),
            WorkflowError::DoneUnreachable => WorkflowFault::DoneUnreachable,
        }
    }
}

/// The least index in `[lo, hi)` satisfying `p`.
pub open spec fn first_index(p: spec_fn(int) -> bool, lo: int, hi: int) -> Option<int>
    decreases hi - lo,
{
    if lo >= hi {
        None
    } else if p(lo) {
        Some(lo)
    } else {
        first_index(p, lo + 1, hi)
    }
}

pub proof fn lemma_first_index_skip(p: spec_fn(int) -> bool, lo: int, i: int, hi: int)
    requires
        lo <= i <= hi,
        forall|j: int| lo <= j < i ==> !#[trigger] p(j),
    ensures
        first_index(p, lo, hi) == first_index(p, i, hi),
    decreases i - lo,
{
    if lo < i {
        lemma_first_index_skip(p, lo + 1, i, hi);
    }
}

pub proof fn lemma_first_index_props(p: spec_fn(int) -> bool, lo: int, hi: int)
    ensures
        match first_index(p, lo, hi) {
            Some(i) => lo <= i < hi && p(i) && forall|j: int| lo <= j < i ==> !#[trigger] p(j),
            None => forall|j: int| lo <= j < hi ==> !#[trigger] p(j),
        },
    decreases hi - lo,
{
    if lo < hi && !p(lo) {
        lemma_first_index_props(p, lo + 1, hi);
    }
}

pub proof fn lemma_first_index_ext(p: spec_fn(int) -> bool, q: spec_fn(int) -> bool, lo: int, hi: int)
    requires
        forall|j: int| lo <= j < hi ==> #[trigger] p(j) == q(j),
    ensures
        first_index(p, lo, hi) == first_index(q, lo, hi),
    decreases hi - lo,
{
    if lo < hi {
        lemma_first_index_ext(p, q, lo + 1, hi);
    }
}

pub proof fn lemma_first_index_extend(p: spec_fn(int) -> bool, lo: int, hi: int)
    requires
        lo <= hi,
    ensures
        first_index(p, lo, hi + 1) == (match first_index(p, lo, hi) {
            Some(x) => Some(x),
            None => if p(hi) {
                Some(hi)
            } else {
                None
            },
        }),
    decreases hi - lo,
{
    if lo < hi {
        lemma_first_index_extend(p, lo + 1, hi);
    } else {
        assert(first_index(p, hi + 1, hi + 1) is None);
    }
}

impl Workflow {
    pub open spec fn id_pred(self, id: Seq<char>) -> spec_fn(int) -> bool {
        |i: int| self.node_id(i) == id
    }

    pub open spec fn start_pred(self) -> spec_fn(int) -> bool {
        |i: int| self.is_start_at(i)
    }

    pub open spec fn node_id(self, i: int) -> Seq<char> {
        self.nodes@[i].id@
    }

    pub open spec fn has_node_id(self, id: Seq<char>) -> bool {
        exists|i: int| 0 <= i < self.nodes@.len() && #[trigger] self.node_id(i) == id
    }

    /// Index of the first node with this id.
    pub open spec fn node_index(self, id: Seq<char>) -> Option<int> {
        first_index(self.id_pred(id), 0, self.nodes@.len() as int)
    }

    /// The node `node(id)` finds.
    pub open spec fn node_for(self, id: Seq<char>) -> Option<WorkflowNode> {
        match self.node_index(id) {
            Some(i) => Some(self.nodes@[i]),
            None => None,
        }
    }

    pub open spec fn is_done_id(self, id: Seq<char>) -> bool {
        match self.node_for(id) {
            Some(n) => n.kind == StageKind::Done,
            None => false,
        }
    }

    /// One edge leads from `x` to `y`.
    pub open spec fn step(self, x: Seq<char>, y: Seq<char>) -> bool {
        exists|k: int|
            0 <= k < self.edges@.len() && #[trigger] self.edges@[k].from@ == x && self.edges@[k].to@
                == y
    }

    pub open spec fn is_path(self, p: Seq<Seq<char>>) -> bool {
        &&& p.len() >= 1
        &&& forall|i: int| 0 <= i < p.len() - 1 ==> #[trigger] self.step(p[i], p[i + 1])
    }

    /// `y` can be reached from `x` by following edges.
    pub open spec fn reachable(self, x: Seq<char>, y: Seq<char>) -> bool {
        exists|p: Seq<Seq<char>>| #[trigger] self.is_path(p) && p[0] == x && p.last() == y
    }

    /// Some `Done` node can be reached from `start`.
    pub open spec fn done_reachable(self, start: Seq<char>) -> bool {
        exists|y: Seq<char>| #[trigger] self.reachable(start, y) && self.is_done_id(y)
    }

    /// The edges leaving `id`, in declared order.
    pub open spec fn out_edges_of(self, id: Seq<char>) -> Seq<WorkflowEdge> {
        self.edges@.filter(|e: WorkflowEdge| e.from@ == id)
    }

    pub open spec fn has_incoming(self, id: Seq<char>) -> bool {
        exists|k: int| 0 <= k < self.edges@.len() && #[trigger] self.edges@[k].to@ == id
    }

    pub open spec fn has_outgoing(self, id: Seq<char>) -> bool {
        exists|k: int| 0 <= k < self.edges@.len() && #[trigger] self.edges@[k].from@ == id
    }

    pub open spec fn is_start_at(self, i: int) -> bool {
        !self.has_incoming(self.node_id(i))
    }

    /// Index of the first node with no incoming edge.
    pub open spec fn start_index(self) -> Option<int> {
        first_index(self.start_pred(), 0, self.nodes@.len() as int)
    }

    /// Finds the first node with this id.
    pub fn node(&self, id: &str) -> (r: Option<&WorkflowNode>)
        ensures
            match self.node_index(id@) {
                Some(i) => r == Some(&self.nodes@[i]),
                None => r is None,
            },
    {
        let want = chars_of(id);
        let mut i: usize = 0;
        while i < self.nodes.len()
            invariant
                i <= self.nodes@.len(),
                want@ == id@,
                forall|j: int| 0 <= j < i ==> self.node_id(j) != id@,
            decreases self.nodes.len() - i,
        {
            let cand = chars_of(self.nodes[i].id.as_str());
            if seq_eq(&cand, &want) {
                proof {
                    lemma_first_index_skip(
                        self.id_pred(id@),
                        0,
                        i as int,
                        self.nodes@.len() as int,
                    );
                }
                return Some(&self.nodes[i]);
            }
            i = i + 1;
        }
        proof {
            lemma_first_index_skip(
                self.id_pred(id@),
                0,
                i as int,
                self.nodes@.len() as int,
            );
        }
        None
    }

    /// Outgoing edges of a node, in declared order.
    pub fn out_edges<'a>(&'a self, id: &str) -> (r: Vec<&'a WorkflowEdge>)
        ensures
            r@.map_values(|e: &WorkflowEdge| *e) == self.out_edges_of(id@),
    {
        let want = chars_of(id);
        let mut out: Vec<&'a WorkflowEdge> = Vec::new();
        let mut k: usize = 0;
        while k < self.edges.len()
            invariant
                k <= self.edges@.len(),
                want@ == id@,
                out@.map_values(|e: &WorkflowEdge| *e) == self.edges@.take(k as int).filter(
                    |e: WorkflowEdge| e.from@ == id@,
                ),
            decreases self.edges.len() - k,
        {
            let from = chars_of(self.edges[k].from.as_str());
            proof {
                reveal(Seq::filter);
                assert(self.edges@.take(k + 1).drop_last() == self.edges@.take(k as int));
            }
            let ghost before = out@;
            if seq_eq(&from, &want) {
                out.push(&self.edges[k]);
                assert(out@.map_values(|e: &WorkflowEdge| *e) =~= before.map_values(
                    |e: &WorkflowEdge| *e,
                ).push(self.edges@[k as int]));
            }
            k = k + 1;
        }
        assert(self.edges@.take(self.edges@.len() as int) == self.edges@);
        out
    }

    /// Whether node `i` has an incoming edge.
    fn node_has_incoming(&self, id: &[char]) -> (r: bool)
        ensures
            r == self.has_incoming(id@),
    {
        let mut k: usize = 0;
        while k < self.edges.len()
            invariant
                k <= self.edges@.len(),
                forall|j: int| 0 <= j < k ==> self.edges@[j].to@ != id@,
            decreases self.edges.len() - k,
        {
            let to = chars_of(self.edges[k].to.as_str());
            if seq_eq(&to, id) {
                return true;
            }
            k = k + 1;
        }
        false
    }

    /// Whether node `i` has an outgoing edge.
    fn node_has_outgoing(&self, id: &[char]) -> (r: bool)
        ensures
            r == self.has_outgoing(id@),
    {
        let mut k: usize = 0;
        while k < self.edges.len()
            invariant
                k <= self.edges@.len(),
                forall|j: int| 0 <= j < k ==> self.edges@[j].from@ != id@,
            decreases self.edges.len() - k,
        {
            let from = chars_of(self.edges[k].from.as_str());
            if seq_eq(&from, id) {
                return true;
            }
            k = k + 1;
        }
        false
    }

    /// The single start node (no incoming edges): the first such node.
    pub fn start(&self) -> (r: Option<&WorkflowNode>)
        ensures
            r == (match self.start_index() {
                Some(i) => Some(&self.nodes@[i]),
                None => None,
            }),
    {
        let mut i: usize = 0;
        while i < self.nodes.len()
            invariant
                i <= self.nodes@.len(),
                forall|j: int| 0 <= j < i ==> !self.is_start_at(j),
            decreases self.nodes.len() - i,
        {
            let id = chars_of(self.nodes[i].id.as_str());
            if !self.node_has_incoming(&id) {
                proof {
                    lemma_first_index_skip(
                        self.start_pred(),
                        0,
                        i as int,
                        self.nodes@.len() as int,
                    );
                }
                return Some(&self.nodes[i]);
            }
            i = i + 1;
        }
        proof {
            lemma_first_index_skip(
                self.start_pred(),
                0,
                i as int,
                self.nodes@.len() as int,
            );
        }
        None
    }
}


/// How many entries of `s` are `false`.
pub open spec fn count_false(s: Seq<bool>) -> nat
    decreases s.len(),
{
    if s.len() == 0 {
        0
    } else {
        count_false(s.drop_last()) + if s.last() {
            0nat
        } else {
            1nat
        }
    }
}

proof fn lemma_count_false_mono(a: Seq<bool>, b: Seq<bool>)
    requires
        a.len() == b.len(),
        forall|j: int| 0 <= j < a.len() ==> a[j] ==> b[j],
    ensures
        count_false(b) <= count_false(a),
    decreases a.len(),
{
    if a.len() > 0 {
        lemma_count_false_mono(a.drop_last(), b.drop_last());
    }
}

proof fn lemma_count_false_strict(a: Seq<bool>, b: Seq<bool>, m: int)
    requires
        a.len() == b.len(),
        forall|j: int| 0 <= j < a.len() ==> a[j] ==> b[j],
        0 <= m < a.len(),
        !a[m],
        b[m],
    ensures
        count_false(b) < count_false(a),
    decreases a.len(),
{
    if m == a.len() - 1 {
        lemma_count_false_mono(a.drop_last(), b.drop_last());
    } else {
        lemma_count_false_strict(a.drop_last(), b.drop_last(), m);
    }
}

impl Workflow {
    proof fn lemma_reach_extend(self, x: Seq<char>, y: Seq<char>, z: Seq<char>)
        requires
            self.reachable(x, y),
            self.step(y, z),
        ensures
            self.reachable(x, z),
    {
        let p = choose|p: Seq<Seq<char>>| #[trigger] self.is_path(p) && p[0] == x && p.last() == y;
        let q = p.push(z);
        assert forall|i: int| 0 <= i < q.len() - 1 implies #[trigger] self.step(q[i], q[i + 1]) by {
            if i < p.len() - 1 {
                assert(q[i] == p[i] && q[i + 1] == p[i + 1]);
            }
        }
        assert(self.is_path(q));
    }

    proof fn lemma_reach_refl(self, x: Seq<char>)
        ensures
            self.reachable(x, x),
    {
        let p = seq![x];
        assert(self.is_path(p));
    }

    /// Finds the index of the first node whose id is `id`.
    fn node_index_of(&self, id: &[char]) -> (r: Option<usize>)
        ensures
            match r {
                Some(i) => self.node_index(id@) == Some(i as int) && i < self.nodes@.len(),
                None => self.node_index(id@) is None,
            },
    {
        proof {
            lemma_first_index_props(
                self.id_pred(id@),
                0,
                self.nodes@.len() as int,
            );
        }
        let mut i: usize = 0;
        while i < self.nodes.len()
            invariant
                i <= self.nodes@.len(),
                forall|j: int| 0 <= j < i ==> self.node_id(j) != id@,
            decreases self.nodes.len() - i,
        {
            let cand = chars_of(self.nodes[i].id.as_str());
            if seq_eq(&cand, id) {
                proof {
                    lemma_first_index_skip(
                        self.id_pred(id@),
                        0,
                        i as int,
                        self.nodes@.len() as int,
                    );
                }
                return Some(i);
            }
            i = i + 1;
        }
        proof {
            lemma_first_index_skip(
                self.id_pred(id@),
                0,
                i as int,
                self.nodes@.len() as int,
            );
        }
        None
    }

    fn is_done_chars(&self, id: &[char]) -> (r: bool)
        ensures
            r == self.is_done_id(id@),
    {
        match self.node_index_of(id) {
            Some(i) => self.nodes[i].kind == StageKind::Done,
            None => false,
        }
    }

    proof fn lemma_path_seen(
        self,
        univ: Seq<Seq<char>>,
        seen: Seq<bool>,
        e: int,
        p: Seq<Seq<char>>,
        i: int,
    )
        requires
            e == self.edges@.len(),
            univ.len() == e + 1,
            seen.len() == e + 1,
            forall|k: int| 0 <= k < e ==> univ[k] == self.edges@[k].to@,
            forall|m1: int, m2: int|
                0 <= m1 < e + 1 && 0 <= m2 < e + 1 && univ[m1] == univ[m2] ==> seen[m1]
                    == seen[m2],
            forall|m: int, k: int|
                0 <= m < e + 1 && 0 <= k < e && #[trigger] seen[m] && self.edges@[k].from@
                    == univ[m] ==> #[trigger] seen[k],
            seen[e],
            self.is_path(p),
            p[0] == univ[e],
            0 <= i < p.len(),
        ensures
            exists|m: int| 0 <= m < e + 1 && univ[m] == p[i] && #[trigger] seen[m],
        decreases i,
    {
        if i > 0 {
            self.lemma_path_seen(univ, seen, e, p, i - 1);
            let m = choose|m: int| 0 <= m < e + 1 && univ[m] == p[i - 1] && #[trigger] seen[m];
            let i0 = i - 1;
            assert(self.step(p[i0], p[i0 + 1]));
            let k = choose|k: int|
                0 <= k < self.edges@.len() && #[trigger] self.edges@[k].from@ == p[i - 1]
                    && self.edges@[k].to@ == p[i];
            assert(seen[k]);
        }
    }

    /// Whether some `Done` node is reachable from `start` along edges
    /// (a depth-first search over node ids).
    pub fn reaches_done(&self, start: &str) -> (r: bool)
        ensures
            r == self.done_reachable(start@),
    {
        let e = self.edges.len();
        let mut ids: Vec<Vec<char>> = Vec::new();
        let mut froms: Vec<Vec<char>> = Vec::new();
        let mut k: usize = 0;
        while k < e
            invariant
                e == self.edges@.len(),
                k <= e,
                ids@.len() == k,
                froms@.len() == k,
                forall|j: int| 0 <= j < k ==> (#[trigger] ids@[j])@ == self.edges@[j].to@,
                forall|j: int| 0 <= j < k ==> (#[trigger] froms@[j])@ == self.edges@[j].from@,
            decreases e - k,
        {
            ids.push(chars_of(self.edges[k].to.as_str()));
            froms.push(chars_of(self.edges[k].from.as_str()));
            k = k + 1;
        }
        ids.push(chars_of(start));
        let ghost univ: Seq<Seq<char>> = ids@.map_values(|v: Vec<char>| v@);
        let n = ids.len();
        let mut seen: Vec<bool> = Vec::new();
        let mut j: usize = 0;
        while j < n
            invariant
                n == e + 1,
                j <= e + 1,
                seen@.len() == j,
                forall|i: int| 0 <= i < j ==> !seen@[i],
            decreases e + 1 - j,
        {
            seen.push(false);
            j = j + 1;
        }
        let mut stack: Vec<usize> = Vec::new();
        stack.push(e);
        assert(stack@[0] == e);
        proof {
            self.lemma_reach_refl(start@);
        }
        while stack.len() > 0
            invariant
                e == self.edges@.len(),
                ids@.len() == e + 1,
                froms@.len() == e,
                univ.len() == e + 1,
                forall|j: int| 0 <= j < e + 1 ==> univ[j] == (#[trigger] ids@[j])@,
                forall|j: int| 0 <= j < e ==> univ[j] == self.edges@[j].to@,
                forall|j: int| 0 <= j < e ==> (#[trigger] froms@[j])@ == self.edges@[j].from@,
                univ[e as int] == start@,
                seen@.len() == e + 1,
                forall|m1: int, m2: int|
                    0 <= m1 < e + 1 && 0 <= m2 < e + 1 && univ[m1] == univ[m2] ==> seen@[m1]
                        == seen@[m2],
                forall|i: int| 0 <= i < stack@.len() ==> #[trigger] stack@[i] < e + 1,
                forall|i: int|
                    0 <= i < stack@.len() ==> self.reachable(start@, univ[#[trigger] stack@[i] as int]),
                forall|m: int| 0 <= m < e + 1 && #[trigger] seen@[m] ==> self.reachable(start@, univ[m]),
                forall|m: int| 0 <= m < e + 1 && #[trigger] seen@[m] ==> !self.is_done_id(univ[m]),
                forall|m: int, k: int|
                    0 <= m < e + 1 && 0 <= k < e && #[trigger] seen@[m] && self.edges@[k].from@
                        == univ[m] ==> #[trigger] seen@[k] || stack@.contains(k as usize),
                seen@[e as int] || stack@.contains(e),
            decreases count_false(seen@), stack@.len(),
        {
            let ghost old_stack = stack@;
            let m = stack.pop().unwrap();
            assert(old_stack == stack@.push(m));
            if seen[m] {
                proof {
                assert forall|m2: int, k: int|
                    0 <= m2 < e + 1 && 0 <= k < e && #[trigger] seen@[m2] && self.edges@[k].from@
                        == univ[m2] implies #[trigger] seen@[k] || stack@.contains(k as usize) by {
                    if !seen@[k] {
                        assert(old_stack.contains(k as usize));
                        let i = choose|i: int| 0 <= i < old_stack.len() && old_stack[i] == k as usize;
                        if i < stack@.len() {
                            assert(stack@[i] == k as usize);
                        }
                    }
                }
                if !seen@[e as int] {
                    let i = choose|i: int| 0 <= i < old_stack.len() && old_stack[i] == e;
                    if i < stack@.len() {
                        assert(stack@[i] == e);
                    }
                }
                }
                continue;
            }
            assert(self.reachable(start@, univ[m as int]));
            if self.is_done_chars(&ids[m]) {
                return true;
            }
            // push every successor of ids[m]
            let ghost stack0 = stack@;
            let mut k: usize = 0;
            while k < e
                invariant
                    e == self.edges@.len(),
                    ids@.len() == e + 1,
                    froms@.len() == e,
                    univ.len() == e + 1,
                    m < e + 1,
                    forall|j: int| 0 <= j < e + 1 ==> univ[j] == (#[trigger] ids@[j])@,
                    forall|j: int| 0 <= j < e ==> univ[j] == self.edges@[j].to@,
                    forall|j: int| 0 <= j < e ==> (#[trigger] froms@[j])@ == self.edges@[j].from@,
                    self.reachable(start@, univ[m as int]),
                    k <= e,
                    stack@.len() >= stack0.len(),
                    forall|i: int| 0 <= i < stack0.len() ==> stack@[i] == stack0[i],
                    forall|i: int| 0 <= i < stack@.len() ==> #[trigger] stack@[i] < e + 1,
                    forall|i: int|
                        0 <= i < stack@.len() ==> self.reachable(start@, univ[#[trigger] stack@[i] as int]),
                    forall|j: int|
                        0 <= j < k && self.edges@[j].from@ == univ[m as int] ==> #[trigger] stack@.contains(j as usize),
                decreases e - k,
            {
                if seq_eq(&froms[k], &ids[m]) {
                    proof {
                        assert(self.step(univ[m as int], univ[k as int]));
                        self.lemma_reach_extend(start@, univ[m as int], univ[k as int]);
                    }
                    let ghost before = stack@;
                    stack.push(k);
                    assert(stack@[stack@.len() - 1] == k);
                    assert forall|j: int|
                        0 <= j < k && self.edges@[j].from@ == univ[m as int] implies #[trigger] stack@.contains(j as usize) by {
                        assert(before.contains(j as usize));
                        let i = choose|i: int| 0 <= i < before.len() && before[i] == j as usize;
                        assert(stack@[i] == j as usize);
                    }
                }
                k = k + 1;
            }
            // mark every index carrying the same id as seen
            let ghost seen0 = seen@;
            let mut j: usize = 0;
            while j < ids.len()
                invariant
                    j <= e + 1,
                    m < e + 1,
                    ids@.len() == e + 1,
                    univ.len() == e + 1,
                    forall|i: int| 0 <= i < e + 1 ==> univ[i] == (#[trigger] ids@[i])@,
                    seen@.len() == e + 1,
                    seen0.len() == e + 1,
                    forall|i: int| 0 <= i < j ==> seen@[i] == (seen0[i] || univ[i] == univ[m as int]),
                    forall|i: int| j <= i < e + 1 ==> seen@[i] == seen0[i],
                decreases e + 1 - j,
            {
                if seq_eq(&ids[j], &ids[m]) {
                    seen.set(j, true);
                }
                j = j + 1;
            }
            proof {
                lemma_count_false_strict(seen0, seen@, m as int);
                assert forall|m2: int, k2: int|
                    0 <= m2 < e + 1 && 0 <= k2 < e && #[trigger] seen@[m2] && self.edges@[k2].from@
                        == univ[m2] implies #[trigger] seen@[k2] || stack@.contains(k2 as usize) by {
                    if !seen@[k2] && univ[m2] != univ[m as int] {
                        assert(seen0[m2]);
                        assert(!seen0[k2]);
                        if !stack@.contains(k2 as usize) {
                            assert(old_stack.contains(k2 as usize));
                            let i = choose|i: int| 0 <= i < old_stack.len() && old_stack[i] == k2 as usize;
                            if i < stack0.len() {
                                assert(stack@[i] == k2 as usize);
                            } else {
                                assert(old_stack[i] == m);
                                assert(seen@[m as int]);
                                assert(univ[k2] == univ[m as int] || !seen@[k2]);
                                assert(seen@[k2] == (seen0[k2] || univ[k2] == univ[m as int]));
                            }
                        }
                    }
                }
                if !seen@[e as int] {
                    assert(old_stack.contains(e));
                    let i = choose|i: int| 0 <= i < old_stack.len() && old_stack[i] == e;
                    if i < stack0.len() {
                        assert(stack@[i] == e);
                    } else {
                        assert(old_stack[i] == m);
                    }
                }
            }
        }
        proof {
            if self.done_reachable(start@) {
                let y = choose|y: Seq<char>| #[trigger] self.reachable(start@, y) && self.is_done_id(y);
                let p = choose|p: Seq<Seq<char>>| #[trigger] self.is_path(p) && p[0] == start@ && p.last() == y;
                assert forall|m: int, k: int|
                    0 <= m < e + 1 && 0 <= k < e && #[trigger] seen@[m] && self.edges@[k].from@
                        == univ[m] implies #[trigger] seen@[k] by {
                    assert(!stack@.contains(k as usize));
                }
                assert(seen@[e as int]);
                self.lemma_path_seen(univ, seen@, e as int, p, p.len() - 1);
            }
        }
        false
    }
}

impl Workflow {
    pub open spec fn dup_at(self, i: int) -> bool {
        exists|j: int| 0 <= j < i && #[trigger] self.node_id(j) == self.node_id(i)
    }

    pub open spec fn edge_bad_at(self, k: int) -> bool {
        !self.has_node_id(self.edges@[k].from@) || !self.has_node_id(self.edges@[k].to@)
    }

    /// The unknown endpoint reported for a bad edge: `from` first, then `to`.
    pub open spec fn edge_bad_id(self, k: int) -> Seq<char> {
        if !self.has_node_id(self.edges@[k].from@) {
            self.edges@[k].from@
        } else {
            self.edges@[k].to@
        }
    }

    pub open spec fn onfail_bad_at(self, k: int) -> bool {
        self.edges@[k].when == EdgeWhen::OnFail && !(match self.node_for(self.edges@[k].from@) {
            Some(n) => n.kind.decides(),
            None => false,
        })
    }

    /// Number of nodes among the first `upto` that have no incoming edge.
    pub open spec fn start_count(self, upto: int) -> nat
        decreases upto,
    {
        if upto <= 0 {
            0
        } else {
            self.start_count(upto - 1) + if self.is_start_at(upto - 1) {
                1nat
            } else {
                0nat
            }
        }
    }

    pub open spec fn done_fault_at(self, i: int) -> bool {
        if self.nodes@[i].kind == StageKind::Done {
            self.has_outgoing(self.node_id(i))
        } else {
            !self.has_outgoing(self.node_id(i))
        }
    }

    pub open spec fn dup_pred(self) -> spec_fn(int) -> bool {
        |i: int| self.dup_at(i)
    }

    pub open spec fn edge_bad_pred(self) -> spec_fn(int) -> bool {
        |k: int| self.edge_bad_at(k)
    }

    pub open spec fn onfail_bad_pred(self) -> spec_fn(int) -> bool {
        |k: int| self.onfail_bad_at(k)
    }

    pub open spec fn done_fault_pred(self) -> spec_fn(int) -> bool {
        |i: int| self.done_fault_at(i)
    }

    pub open spec fn any_done(self) -> bool {
        exists|i: int| 0 <= i < self.nodes@.len() && #[trigger] self.nodes@[i].kind == StageKind::Done
    }

    /// The first structural problem, checked in this order: no nodes, a
    /// duplicate id, an edge to an unknown node, an `OnFail` edge leaving a
    /// non-check node, not exactly one start node, a `Done` node with an
    /// outgoing edge or a non-`Done` dead end, no `Done` node, and no `Done`
    /// node reachable from the start.
    pub open spec fn validation_fault(self) -> Option<WorkflowFault> {
        let n = self.nodes@.len() as int;
        let ne = self.edges@.len() as int;
        if n == 0 {
            Some(WorkflowFault::Empty)
        } else {
            match first_index(self.dup_pred(), 0, n) {
                Some(i) => Some(WorkflowFault::DuplicateId(self.node_id(i))),
                None => match first_index(self.edge_bad_pred(), 0, ne) {
                    Some(k) => Some(WorkflowFault::UnknownNode(self.edge_bad_id(k))),
                    None => match first_index(self.onfail_bad_pred(), 0, ne) {
                        Some(k) => Some(WorkflowFault::BadOnFail(self.edges@[k].from@)),
                        None => if self.start_count(n) != 1 {
                            Some(WorkflowFault::NotOneStart(self.start_count(n)))
                        } else {
                            match first_index(self.done_fault_pred(), 0, n) {
                                Some(i) => if self.nodes@[i].kind == StageKind::Done {
                                    Some(WorkflowFault::DoneHasOutgoing(self.node_id(i)))
                                } else {
                                    Some(WorkflowFault::DeadEnd(self.node_id(i)))
                                },
                                None => if !self.any_done() {
                                    Some(WorkflowFault::NoDone)
                                } else {
                                    match self.start_index() {
                                        Some(s) => if self.done_reachable(self.node_id(s)) {
                                            None
                                        } else {
                                            Some(WorkflowFault::DoneUnreachable)
                                        },
                                        None => Some(WorkflowFault::DoneUnreachable),
                                    }
                                },
                            }
                        },
                    },
                },
            }
        }
    }

    pub open spec fn is_valid(self) -> bool {
        self.validation_fault() is None
    }

    fn has_node_chars(&self, id: &[char]) -> (r: bool)
        ensures
            r == self.has_node_id(id@),
    {
        proof {
            lemma_first_index_props(
                self.id_pred(id@),
                0,
                self.nodes@.len() as int,
            );
        }
        match self.node_index_of(id) {
            Some(i) => {
                assert(self.id_pred(id@)(i as int));
                assert(self.node_id(i as int) == id@);
                true
            },
            None => {
                assert forall|j: int| 0 <= j < self.nodes@.len() implies #[trigger] self.node_id(j)
                    != id@ by {
                    assert(!self.id_pred(id@)(j));
                }
                false
            },
        }
    }

    /// Validate structural integrity; the error is the first fault found.
    pub fn validate(&self) -> (r: Result<(), WorkflowError>)
        ensures
            match r {
                Ok(()) => self.validation_fault() is None,
                Err(e) => self.validation_fault() == Some(e.fault()),
            },
    {
        let n = self.nodes.len();
        let ne = self.edges.len();
        if n == 0 {
            return Err(WorkflowError::Empty);
        }
        // unique ids
        let mut ids: Vec<Vec<char>> = Vec::new();
        let mut i: usize = 0;
        while i < n
            invariant
                n == self.nodes@.len(),
                i <= n,
                ids@.len() == i,
                forall|j: int| 0 <= j < i ==> (#[trigger] ids@[j])@ == self.node_id(j),
                forall|j: int| 0 <= j < i ==> !self.dup_at(j),
            decreases n - i,
        {
            let id = chars_of(self.nodes[i].id.as_str());
            let mut j: usize = 0;
            while j < i
                invariant
                    i < n,
                    n == self.nodes@.len(),
                    ids@.len() == i,
                    id@ == self.node_id(i as int),
                    forall|q: int| 0 <= q < i ==> (#[trigger] ids@[q])@ == self.node_id(q),
                    j <= i,
                    forall|q: int| 0 <= q < j ==> self.node_id(q) != self.node_id(i as int),
                    forall|q: int| 0 <= q < i ==> !self.dup_at(q),
                decreases i - j,
            {
                if seq_eq(&ids[j], &id) {
                    proof {
                        assert(self.dup_at(i as int));
                        lemma_first_index_skip(self.dup_pred(), 0, i as int, n as int);
                    }
                    return Err(WorkflowError::DuplicateId(self.nodes[i].id.clone()));
                }
                j = j + 1;
            }
            ids.push(id);
            i = i + 1;
        }
        proof {
            lemma_first_index_skip(self.dup_pred(), 0, n as int, n as int);
        }
        // edges reference real nodes
        let mut k: usize = 0;
        while k < ne
            invariant
                ne == self.edges@.len(),
                n == self.nodes@.len(),
                k <= ne,
                forall|j: int| 0 <= j < k ==> !self.edge_bad_at(j),
                first_index(self.dup_pred(), 0, n as int) is None,
                n > 0,
            decreases ne - k,
        {
            let from = chars_of(self.edges[k].from.as_str());
            let to = chars_of(self.edges[k].to.as_str());
            if !self.has_node_chars(&from) {
                proof {
                    lemma_first_index_skip(self.edge_bad_pred(), 0, k as int, ne as int);
                    assert(self.edge_bad_pred()(k as int));
                    assert(first_index(self.dup_pred(), 0, n as int) is None);
                    assert(first_index(self.edge_bad_pred(), 0, ne as int) == Some(k as int));
                    assert(self.edge_bad_id(k as int) == self.edges@[k as int].from@);
                }
                return Err(WorkflowError::UnknownNode(self.edges[k].from.clone()));
            }
            if !self.has_node_chars(&to) {
                proof {
                    lemma_first_index_skip(self.edge_bad_pred(), 0, k as int, ne as int);
                    assert(self.edge_bad_pred()(k as int));
                }
                return Err(WorkflowError::UnknownNode(self.edges[k].to.clone()));
            }
            k = k + 1;
        }
        proof {
            lemma_first_index_skip(self.edge_bad_pred(), 0, ne as int, ne as int);
        }
        // OnFail only from a gate/check
        let mut k: usize = 0;
        while k < ne
            invariant
                ne == self.edges@.len(),
                n == self.nodes@.len(),
                k <= ne,
                forall|j: int| 0 <= j < ne ==> !self.edge_bad_at(j),
                forall|j: int| 0 <= j < k ==> !self.onfail_bad_at(j),
                first_index(self.dup_pred(), 0, n as int) is None,
                n > 0,
                first_index(self.edge_bad_pred(), 0, ne as int) is None,
            decreases ne - k,
        {
            if self.edges[k].when == EdgeWhen::OnFail {
                let from = chars_of(self.edges[k].from.as_str());
                proof {
                    lemma_first_index_props(
                        self.id_pred(from@),
                        0,
                        self.nodes@.len() as int,
                    );
                    assert(!self.edge_bad_at(k as int));
                }
                let ok = match self.node_index_of(&from) {
                    Some(x) => self.nodes[x].kind.is_gate_or_check(),
                    None => false,
                };
                if !ok {
                    proof {
                        lemma_first_index_skip(self.onfail_bad_pred(), 0, k as int, ne as int);
                        assert(self.onfail_bad_pred()(k as int));
                    }
                    return Err(WorkflowError::BadOnFail(self.edges[k].from.clone()));
                }
            }
            k = k + 1;
        }
        proof {
            lemma_first_index_skip(self.onfail_bad_pred(), 0, ne as int, ne as int);
        }
        // exactly one start
        let mut starts: usize = 0;
        let mut first_start: usize = 0;
        let mut i: usize = 0;
        while i < n
            invariant
                n == self.nodes@.len(),
                i <= n,
                ids@.len() == n,
                forall|j: int| 0 <= j < n ==> (#[trigger] ids@[j])@ == self.node_id(j),
                starts == self.start_count(i as int),
                starts <= i,
                starts == 0 ==> forall|j: int| 0 <= j < i ==> !self.is_start_at(j),
                starts > 0 ==> first_start < i && self.start_index() == Some(first_start as int),
                ne == self.edges@.len(),
                first_index(self.dup_pred(), 0, n as int) is None,
                n > 0,
                first_index(self.edge_bad_pred(), 0, ne as int) is None,
                first_index(self.onfail_bad_pred(), 0, ne as int) is None,
            decreases n - i,
        {
            if !self.node_has_incoming(&ids[i]) {
                if starts == 0 {
                    first_start = i;
                    proof {
                        lemma_first_index_skip(self.start_pred(), 0, i as int, n as int);
                    }
                }
                starts = starts + 1;
            }
            i = i + 1;
        }
        if starts != 1 {
            return Err(WorkflowError::NotOneStart(starts));
        }
        // ≥1 Done; Done has no out-edges; non-Done has ≥1 out-edge
        let mut any_done = false;
        let mut i: usize = 0;
        while i < n
            invariant
                n == self.nodes@.len(),
                i <= n,
                ids@.len() == n,
                forall|j: int| 0 <= j < n ==> (#[trigger] ids@[j])@ == self.node_id(j),
                forall|j: int| 0 <= j < i ==> !self.done_fault_at(j),
                any_done <==> exists|j: int| 0 <= j < i && #[trigger] self.nodes@[j].kind == StageKind::Done,
                ne == self.edges@.len(),
                self.start_count(n as int) == 1,
                first_start < n,
                self.start_index() == Some(first_start as int),
                first_index(self.dup_pred(), 0, n as int) is None,
                n > 0,
                first_index(self.edge_bad_pred(), 0, ne as int) is None,
                first_index(self.onfail_bad_pred(), 0, ne as int) is None,
            decreases n - i,
        {
            let out = self.node_has_outgoing(&ids[i]);
            if self.nodes[i].kind == StageKind::Done {
                any_done = true;
                if out {
                    proof {
                        lemma_first_index_skip(self.done_fault_pred(), 0, i as int, n as int);
                        assert(self.done_fault_pred()(i as int));
                    }
                    return Err(WorkflowError::DoneHasOutgoing(self.nodes[i].id.clone()));
                }
            } else if !out {
                proof {
                    lemma_first_index_skip(self.done_fault_pred(), 0, i as int, n as int);
                    assert(self.done_fault_pred()(i as int));
                }
                return Err(WorkflowError::DeadEnd(self.nodes[i].id.clone()));
            }
            i = i + 1;
        }
        proof {
            lemma_first_index_skip(self.done_fault_pred(), 0, n as int, n as int);
        }
        if !any_done {
            return Err(WorkflowError::NoDone);
        }
        // a Done node is reachable from the start
        if !self.reaches_done(self.nodes[first_start].id.as_str()) {
            return Err(WorkflowError::DoneUnreachable);
        }
        Ok(())
    }
}

/// `n` is a plain stage: this id, kind and operative, no instruction, gate mode
/// or fan-out.
pub open spec fn node_is(n: WorkflowNode, id: Seq<char>, kind: StageKind, op: Option<Seq<char>>) -> bool {
    &&& n.id@ == id
    &&& n.kind == kind
    &&& match op {
        Some(o) => n.operative_id is Some && n.operative_id->0@ == o,
        None => n.operative_id is None,
    }
    &&& n.instruction is None
    &&& n.gate_mode is None
    &&& n.sub_operatives@.len() == 0
}

/// `e` goes from `from` to `to` when `when`, with this traversal cap.
pub open spec fn edge_is(e: WorkflowEdge, from: Seq<char>, to: Seq<char>, when: EdgeWhen, cap: Option<usize>) -> bool {
    &&& e.from@ == from
    &&& e.to@ == to
    &&& e.when == when
    &&& e.max_traversals == cap
}

pub open spec fn is_standard_template(r: Workflow, goal: Seq<char>, lead: Seq<char>, forger: Seq<char>) -> bool {
    &&& r.schema@ == WORKFLOW_SCHEMA@
    &&& r.root_goal@ == goal
    &&& r.nodes@.len() == 4
    &&& node_is(r.nodes@[0], "plan"@, StageKind::Plan, Some(lead))
    &&& node_is(r.nodes@[1], "execute"@, StageKind::Execute, Some(forger))
    &&& node_is(r.nodes@[2], "review"@, StageKind::Review, Some(lead))
    &&& node_is(r.nodes@[3], "done"@, StageKind::Done, None)
    &&& r.edges@.len() == 4
    &&& edge_is(r.edges@[0], "plan"@, "execute"@, EdgeWhen::Always, None)
    &&& edge_is(r.edges@[1], "execute"@, "review"@, EdgeWhen::Always, None)
    &&& edge_is(r.edges@[2], "review"@, "done"@, EdgeWhen::OnPass, None)
    &&& edge_is(r.edges@[3], "review"@, "execute"@, EdgeWhen::OnFail, None)
}

pub open spec fn is_full_pipeline_template(r: Workflow, goal: Seq<char>, lead: Seq<char>, forger: Seq<char>) -> bool {
    &&& r.schema@ == WORKFLOW_SCHEMA@
    &&& r.root_goal@ == goal
    &&& r.nodes@.len() == 11
    &&& node_is(r.nodes@[0], "research"@, StageKind::Research, Some(lead))
    &&& node_is(r.nodes@[1], "aggregate"@, StageKind::Aggregate, Some(lead))
    &&& node_is(r.nodes@[2], "scope"@, StageKind::Scope, Some(lead))
    &&& node_is(r.nodes@[3], "gate"@, StageKind::Gate, None)
    &&& node_is(r.nodes@[4], "plan"@, StageKind::Plan, Some(lead))
    &&& node_is(r.nodes@[5], "interrogate"@, StageKind::Interrogate, Some(lead))
    &&& node_is(r.nodes@[6], "tdd"@, StageKind::Tdd, Some(forger))
    &&& node_is(r.nodes@[7], "execute"@, StageKind::Execute, Some(forger))
    &&& node_is(r.nodes@[8], "review"@, StageKind::Review, Some(lead))
    &&& node_is(r.nodes@[9], "test"@, StageKind::Test, None)
    &&& node_is(r.nodes@[10], "done"@, StageKind::Done, None)
    &&& r.edges@.len() == 13
    &&& edge_is(r.edges@[0], "research"@, "aggregate"@, EdgeWhen::Always, None)
    &&& edge_is(r.edges@[1], "aggregate"@, "scope"@, EdgeWhen::Always, None)
    &&& edge_is(r.edges@[2], "scope"@, "gate"@, EdgeWhen::Always, None)
    &&& edge_is(r.edges@[3], "gate"@, "plan"@, EdgeWhen::OnPass, None)
    &&& edge_is(r.edges@[4], "gate"@, "scope"@, EdgeWhen::OnFail, Some(FIX_LOOP_CAP))
    &&& edge_is(r.edges@[5], "plan"@, "interrogate"@, EdgeWhen::Always, None)
    &&& edge_is(r.edges@[6], "interrogate"@, "tdd"@, EdgeWhen::Always, None)
    &&& edge_is(r.edges@[7], "tdd"@, "execute"@, EdgeWhen::Always, None)
    &&& edge_is(r.edges@[8], "execute"@, "review"@, EdgeWhen::Always, None)
    &&& edge_is(r.edges@[9], "review"@, "test"@, EdgeWhen::OnPass, None)
    &&& edge_is(r.edges@[10], "review"@, "execute"@, EdgeWhen::OnFail, Some(FIX_LOOP_CAP))
    &&& edge_is(r.edges@[11], "test"@, "done"@, EdgeWhen::OnPass, None)
    &&& edge_is(r.edges@[12], "test"@, "execute"@, EdgeWhen::OnFail, Some(FIX_LOOP_CAP))
}

fn op_node(id: &str, kind: StageKind, op: &str) -> (r: WorkflowNode)
    ensures
        node_is(r, id@, kind, Some(op@)),
{
    WorkflowNode::new(id, kind, Some(op.to_owned()))
}

impl Workflow {
    /// The built-in Standard template: Plan → Execute → Review → Done, with a
    /// review failure looping back to Execute.
    pub fn standard_template(goal: &str, lead: &str, forger: &str) -> (r: Workflow)
        ensures
            is_standard_template(r, goal@, lead@, forger@),
    {
        let mut nodes: Vec<WorkflowNode> = Vec::new();
        nodes.push(op_node("plan", StageKind::Plan, lead));
        nodes.push(op_node("execute", StageKind::Execute, forger));
        nodes.push(op_node("review", StageKind::Review, lead));
        nodes.push(WorkflowNode::new("done", StageKind::Done, None));
        let mut edges: Vec<WorkflowEdge> = Vec::new();
        edges.push(WorkflowEdge::new("plan", "execute", EdgeWhen::Always));
        edges.push(WorkflowEdge::new("execute", "review", EdgeWhen::Always));
        edges.push(WorkflowEdge::new("review", "done", EdgeWhen::OnPass));
        edges.push(WorkflowEdge::new("review", "execute", EdgeWhen::OnFail));
        Workflow { schema: WORKFLOW_SCHEMA.to_owned(), root_goal: goal.to_owned(), nodes, edges }
    }

    /// The Full pipeline template: Research → Aggregate → Scope → Gate(human) →
    /// Plan → Interrogate → TDD → Execute → Review⟲ → Test⟲ → Done; each fix-loop
    /// edge is capped at `FIX_LOOP_CAP` traversals.
    pub fn full_pipeline_template(goal: &str, lead: &str, forger: &str) -> (r: Workflow)
        ensures
            is_full_pipeline_template(r, goal@, lead@, forger@),
    {
        let mut nodes: Vec<WorkflowNode> = Vec::new();
        nodes.push(op_node("research", StageKind::Research, lead));
        nodes.push(op_node("aggregate", StageKind::Aggregate, lead));
        nodes.push(op_node("scope", StageKind::Scope, lead));
        nodes.push(WorkflowNode::new("gate", StageKind::Gate, None));
        nodes.push(op_node("plan", StageKind::Plan, lead));
        nodes.push(op_node("interrogate", StageKind::Interrogate, lead));
        nodes.push(op_node("tdd", StageKind::Tdd, forger));
        nodes.push(op_node("execute", StageKind::Execute, forger));
        nodes.push(op_node("review", StageKind::Review, lead));
        nodes.push(WorkflowNode::new("test", StageKind::Test, None));
        nodes.push(WorkflowNode::new("done", StageKind::Done, None));
        let mut edges: Vec<WorkflowEdge> = Vec::new();
        edges.push(WorkflowEdge::new("research", "aggregate", EdgeWhen::Always));
        edges.push(WorkflowEdge::new("aggregate", "scope", EdgeWhen::Always));
        edges.push(WorkflowEdge::new("scope", "gate", EdgeWhen::Always));
        edges.push(WorkflowEdge::new("gate", "plan", EdgeWhen::OnPass));
        edges.push(WorkflowEdge::capped("gate", "scope", EdgeWhen::OnFail, FIX_LOOP_CAP));
        edges.push(WorkflowEdge::new("plan", "interrogate", EdgeWhen::Always));
        edges.push(WorkflowEdge::new("interrogate", "tdd", EdgeWhen::Always));
        edges.push(WorkflowEdge::new("tdd", "execute", EdgeWhen::Always));
        edges.push(WorkflowEdge::new("execute", "review", EdgeWhen::Always));
        edges.push(WorkflowEdge::new("review", "test", EdgeWhen::OnPass));
        edges.push(WorkflowEdge::capped("review", "execute", EdgeWhen::OnFail, FIX_LOOP_CAP));
        edges.push(WorkflowEdge::new("test", "done", EdgeWhen::OnPass));
        edges.push(WorkflowEdge::capped("test", "execute", EdgeWhen::OnFail, FIX_LOOP_CAP));
        Workflow { schema: WORKFLOW_SCHEMA.to_owned(), root_goal: goal.to_owned(), nodes, edges }
    }
}

/// A reusable, named starter workflow shown in the builder's template picker.
#[derive(Debug, Clone, PartialEq)]
pub struct NamedTemplate {
    pub name: String,
    pub description: String,
    pub workflow: Workflow,
}

/// The built-in starter templates: Standard, then Full pipeline, each with an
/// empty goal placeholder.
pub fn builtin_templates(lead: &str, forger: &str) -> (r: Vec<NamedTemplate>)
    ensures
        r@.len() == 2,
        r@[0].name@ == "Standard"@,
        r@[0].description@ == "Today's loop: Plan → Execute → Review (fix-loop) → Done."@,
        is_standard_template(r@[0].workflow, ""@, lead@, forger@),
        r@[1].name@ == "Full pipeline"@,
        is_full_pipeline_template(r@[1].workflow, ""@, lead@, forger@),
        r@[1].description@ == "Research → Aggregate → Scope → Gate → Plan → Interrogate → TDD → Execute → Review⟲ → Test⟲ → Done."@,
{
    let mut v: Vec<NamedTemplate> = Vec::new();
    v.push(NamedTemplate {
        name: "Standard".to_owned(),
        description: "Today's loop: Plan → Execute → Review (fix-loop) → Done.".to_owned(),
        workflow: Workflow::standard_template("", lead, forger),
    });
    v.push(NamedTemplate {
        name: "Full pipeline".to_owned(),
        description: "Research → Aggregate → Scope → Gate → Plan → Interrogate → TDD → Execute → Review⟲ → Test⟲ → Done.".to_owned(),
        workflow: Workflow::full_pipeline_template("", lead, forger),
    });
    v
}

/// `first_index` finds nothing where nothing satisfies the predicate.
proof fn lemma_first_index_none(p: spec_fn(int) -> bool, lo: int, hi: int)
    requires
        forall|j: int| lo <= j < hi ==> !#[trigger] p(j),
    ensures
        first_index(p, lo, hi) is None,
{
    lemma_first_index_props(p, lo, hi);
}

/// `first_index` finds `i` where `i` is the first index satisfying the predicate.
proof fn lemma_first_index_at(p: spec_fn(int) -> bool, lo: int, i: int, hi: int)
    requires
        lo <= i < hi,
        p(i),
        forall|j: int| lo <= j < i ==> !#[trigger] p(j),
    ensures
        first_index(p, lo, hi) == Some(i),
{
    lemma_first_index_skip(p, lo, i, hi);
}

impl Workflow {
    /// The node with id `ids[i]` is found at index `i`, for distinct ids.
    proof fn lemma_node_index_distinct(self, i: int)
        requires
            0 <= i < self.nodes@.len(),
            forall|a: int, b: int|
                0 <= a < b < self.nodes@.len() ==> #[trigger] self.node_id(a) != #[trigger] self.node_id(b),
        ensures
            self.node_index(self.node_id(i)) == Some(i),
            self.node_for(self.node_id(i)) == Some(self.nodes@[i]),
    {
        let p = self.id_pred(self.node_id(i));
        assert forall|j: int| 0 <= j < i implies !#[trigger] p(j) by {
            assert(self.node_id(j) != self.node_id(i));
        }
        lemma_first_index_at(p, 0, i, self.nodes@.len() as int);
    }

    /// Node ids are pairwise distinct, so no node repeats an earlier id.
    proof fn lemma_no_duplicates(self)
        requires
            forall|a: int, b: int|
                0 <= a < b < self.nodes@.len() ==> #[trigger] self.node_id(a) != #[trigger] self.node_id(b),
        ensures
            first_index(self.dup_pred(), 0, self.nodes@.len() as int) is None,
    {
        let n = self.nodes@.len() as int;
        assert forall|i: int| 0 <= i < n implies !#[trigger] self.dup_pred()(i) by {
            if self.dup_at(i) {
                let j = choose|j: int| 0 <= j < i && #[trigger] self.node_id(j) == self.node_id(i);
                assert(self.node_id(j) != self.node_id(i));
            }
        }
        lemma_first_index_none(self.dup_pred(), 0, n);
    }
}

/// The Standard template validates, whatever the goal and the operatives.
pub proof fn lemma_standard_template_valid(w: Workflow, goal: Seq<char>, lead: Seq<char>, forger: Seq<char>)
    requires
        is_standard_template(w, goal, lead, forger),
    ensures
        w.is_valid(),
        w.start_index() == Some(0int),
{
    reveal_strlit("plan");
    reveal_strlit("execute");
    reveal_strlit("review");
    reveal_strlit("done");
    let n = 4int;
    let ne = 4int;
    assert(w.node_id(0) == "plan"@);
    assert(w.node_id(1) == "execute"@);
    assert(w.node_id(2) == "review"@);
    assert(w.node_id(3) == "done"@);
    assert("plan"@.len() == 4 && "execute"@.len() == 7 && "review"@.len() == 6 && "done"@.len() == 4);
    assert("plan"@ != "done"@) by {
        assert("plan"@[0] != "done"@[0]);
    }
    assert forall|a: int, b: int| 0 <= a < b < n implies #[trigger] w.node_id(a) != #[trigger] w.node_id(b) by {
        assert(a == 0 || a == 1 || a == 2);
        assert(b == 1 || b == 2 || b == 3);
    }
    w.lemma_no_duplicates();
    w.lemma_node_index_distinct(0);
    w.lemma_node_index_distinct(1);
    w.lemma_node_index_distinct(2);
    w.lemma_node_index_distinct(3);
    // every edge joins known nodes
    assert forall|k: int| 0 <= k < ne implies !#[trigger] w.edge_bad_pred()(k) by {
        assert(w.has_node_id(w.node_id(0)));
        assert(w.has_node_id(w.node_id(1)));
        assert(w.has_node_id(w.node_id(2)));
        assert(w.has_node_id(w.node_id(3)));
    }
    lemma_first_index_none(w.edge_bad_pred(), 0, ne);
    // the one OnFail edge leaves the review check
    assert forall|k: int| 0 <= k < ne implies !#[trigger] w.onfail_bad_pred()(k) by {}
    lemma_first_index_none(w.onfail_bad_pred(), 0, ne);
    // exactly one start: plan
    assert(!w.has_incoming(w.node_id(0)));
    assert(w.has_incoming(w.node_id(1))) by {
        assert(w.edges@[0].to@ == w.node_id(1));
    }
    assert(w.has_incoming(w.node_id(2))) by {
        assert(w.edges@[1].to@ == w.node_id(2));
    }
    assert(w.has_incoming(w.node_id(3))) by {
        assert(w.edges@[2].to@ == w.node_id(3));
    }
    reveal_with_fuel(Workflow::start_count, 5);
    assert(w.start_count(n) == 1);
    lemma_first_index_at(w.start_pred(), 0, 0, n);
    // Done has no outgoing edge, every other node has one
    assert(w.has_outgoing(w.node_id(0))) by {
        assert(w.edges@[0].from@ == w.node_id(0));
    }
    assert(w.has_outgoing(w.node_id(1))) by {
        assert(w.edges@[1].from@ == w.node_id(1));
    }
    assert(w.has_outgoing(w.node_id(2))) by {
        assert(w.edges@[2].from@ == w.node_id(2));
    }
    assert(!w.has_outgoing(w.node_id(3)));
    assert forall|i: int| 0 <= i < n implies !#[trigger] w.done_fault_pred()(i) by {}
    lemma_first_index_none(w.done_fault_pred(), 0, n);
    assert(w.nodes@[3].kind == StageKind::Done);
    assert(w.any_done());
    // done is reachable from plan
    assert(w.step(w.node_id(0), w.node_id(1))) by {
        assert(w.edges@[0].from@ == w.node_id(0));
    }
    assert(w.step(w.node_id(1), w.node_id(2))) by {
        assert(w.edges@[1].from@ == w.node_id(1));
    }
    assert(w.step(w.node_id(2), w.node_id(3))) by {
        assert(w.edges@[2].from@ == w.node_id(2));
    }
    let path = seq![w.node_id(0), w.node_id(1), w.node_id(2), w.node_id(3)];
    assert(w.is_path(path));
    assert(w.reachable(w.node_id(0), w.node_id(3)));
    assert(w.is_done_id(w.node_id(3)));
    assert(w.done_reachable(w.node_id(0)));
}


/// The Full pipeline template validates, whatever the goal and the operatives;
/// it starts at Research.
pub proof fn lemma_full_pipeline_template_valid(w: Workflow, goal: Seq<char>, lead: Seq<char>, forger: Seq<char>)
    requires
        is_full_pipeline_template(w, goal, lead, forger),
    ensures
        w.is_valid(),
        w.start_index() == Some(0int),
{
    let n = 11int;
    let ne = 13int;
    reveal_strlit("research");
    reveal_strlit("aggregate");
    reveal_strlit("scope");
    reveal_strlit("gate");
    reveal_strlit("plan");
    reveal_strlit("interrogate");
    reveal_strlit("tdd");
    reveal_strlit("execute");
    reveal_strlit("review");
    reveal_strlit("test");
    reveal_strlit("done");
    assert(w.node_id(0) == "research"@);
    assert(w.node_id(1) == "aggregate"@);
    assert(w.node_id(2) == "scope"@);
    assert(w.node_id(3) == "gate"@);
    assert(w.node_id(4) == "plan"@);
    assert(w.node_id(5) == "interrogate"@);
    assert(w.node_id(6) == "tdd"@);
    assert(w.node_id(7) == "execute"@);
    assert(w.node_id(8) == "review"@);
    assert(w.node_id(9) == "test"@);
    assert(w.node_id(10) == "done"@);
    assert("research"@.len() == 8);
    assert("aggregate"@.len() == 9);
    assert("scope"@.len() == 5);
    assert("gate"@.len() == 4);
    assert("plan"@.len() == 4);
    assert("interrogate"@.len() == 11);
    assert("tdd"@.len() == 3);
    assert("execute"@.len() == 7);
    assert("review"@.len() == 6);
    assert("test"@.len() == 4);
    assert("done"@.len() == 4);
    assert("gate"@[0] != "plan"@[0]);
    assert("gate"@[0] != "test"@[0]);
    assert("gate"@[0] != "done"@[0]);
    assert("plan"@[0] != "test"@[0]);
    assert("plan"@[0] != "done"@[0]);
    assert("test"@[0] != "done"@[0]);
    assert forall|a: int, b: int| 0 <= a < b < n implies #[trigger] w.node_id(a) != #[trigger] w.node_id(b) by {
        assert(0 <= a <= 9);
        assert(1 <= b <= 10);
        assert(a == 0 || a == 1 || a == 2 || a == 3 || a == 4 || a == 5 || a == 6 || a == 7 || a == 8 || a == 9);
        assert(b == 1 || b == 2 || b == 3 || b == 4 || b == 5 || b == 6 || b == 7 || b == 8 || b == 9 || b == 10);
    }
    w.lemma_no_duplicates();
    w.lemma_node_index_distinct(0);
    w.lemma_node_index_distinct(1);
    w.lemma_node_index_distinct(2);
    w.lemma_node_index_distinct(3);
    w.lemma_node_index_distinct(4);
    w.lemma_node_index_distinct(5);
    w.lemma_node_index_distinct(6);
    w.lemma_node_index_distinct(7);
    w.lemma_node_index_distinct(8);
    w.lemma_node_index_distinct(9);
    w.lemma_node_index_distinct(10);
    assert forall|k: int| 0 <= k < ne implies !#[trigger] w.edge_bad_pred()(k) by {
        assert(w.has_node_id(w.node_id(0)));
        assert(w.has_node_id(w.node_id(1)));
        assert(w.has_node_id(w.node_id(2)));
        assert(w.has_node_id(w.node_id(3)));
        assert(w.has_node_id(w.node_id(4)));
        assert(w.has_node_id(w.node_id(5)));
        assert(w.has_node_id(w.node_id(6)));
        assert(w.has_node_id(w.node_id(7)));
        assert(w.has_node_id(w.node_id(8)));
        assert(w.has_node_id(w.node_id(9)));
        assert(w.has_node_id(w.node_id(10)));
    }
    lemma_first_index_none(w.edge_bad_pred(), 0, ne);
    assert forall|k: int| 0 <= k < ne implies !#[trigger] w.onfail_bad_pred()(k) by {}
    lemma_first_index_none(w.onfail_bad_pred(), 0, ne);
    assert(!w.has_incoming(w.node_id(0)));
    assert(w.has_incoming(w.node_id(1))) by {
        assert(w.edges@[0].to@ == w.node_id(1));
    }
    assert(w.has_incoming(w.node_id(2))) by {
        assert(w.edges@[1].to@ == w.node_id(2));
    }
    assert(w.has_incoming(w.node_id(3))) by {
        assert(w.edges@[2].to@ == w.node_id(3));
    }
    assert(w.has_incoming(w.node_id(4))) by {
        assert(w.edges@[3].to@ == w.node_id(4));
    }
    assert(w.has_incoming(w.node_id(5))) by {
        assert(w.edges@[5].to@ == w.node_id(5));
    }
    assert(w.has_incoming(w.node_id(6))) by {
        assert(w.edges@[6].to@ == w.node_id(6));
    }
    assert(w.has_incoming(w.node_id(7))) by {
        assert(w.edges@[7].to@ == w.node_id(7));
    }
    assert(w.has_incoming(w.node_id(8))) by {
        assert(w.edges@[8].to@ == w.node_id(8));
    }
    assert(w.has_incoming(w.node_id(9))) by {
        assert(w.edges@[9].to@ == w.node_id(9));
    }
    assert(w.has_incoming(w.node_id(10))) by {
        assert(w.edges@[11].to@ == w.node_id(10));
    }
    reveal_with_fuel(Workflow::start_count, 12);
    assert(w.start_count(n) == 1);
    lemma_first_index_at(w.start_pred(), 0, 0, n);
    assert(w.has_outgoing(w.node_id(0))) by {
        assert(w.edges@[0].from@ == w.node_id(0));
    }
    assert(w.has_outgoing(w.node_id(1))) by {
        assert(w.edges@[1].from@ == w.node_id(1));
    }
    assert(w.has_outgoing(w.node_id(2))) by {
        assert(w.edges@[2].from@ == w.node_id(2));
    }
    assert(w.has_outgoing(w.node_id(3))) by {
        assert(w.edges@[3].from@ == w.node_id(3));
    }
    assert(w.has_outgoing(w.node_id(4))) by {
        assert(w.edges@[5].from@ == w.node_id(4));
    }
    assert(w.has_outgoing(w.node_id(5))) by {
        assert(w.edges@[6].from@ == w.node_id(5));
    }
    assert(w.has_outgoing(w.node_id(6))) by {
        assert(w.edges@[7].from@ == w.node_id(6));
    }
    assert(w.has_outgoing(w.node_id(7))) by {
        assert(w.edges@[8].from@ == w.node_id(7));
    }
    assert(w.has_outgoing(w.node_id(8))) by {
        assert(w.edges@[9].from@ == w.node_id(8));
    }
    assert(w.has_outgoing(w.node_id(9))) by {
        assert(w.edges@[11].from@ == w.node_id(9));
    }
    assert(!w.has_outgoing(w.node_id(10)));
    assert forall|i: int| 0 <= i < n implies !#[trigger] w.done_fault_pred()(i) by {
        assert(i == 0 || i == 1 || i == 2 || i == 3 || i == 4 || i == 5 || i == 6 || i == 7 || i == 8 || i == 9 || i == 10);
    }
    lemma_first_index_none(w.done_fault_pred(), 0, n);
    assert(w.nodes@[10].kind == StageKind::Done);
    assert(w.any_done());
    assert(w.step(w.node_id(0), w.node_id(1))) by {
        assert(w.edges@[0].from@ == w.node_id(0));
    }
    assert(w.step(w.node_id(1), w.node_id(2))) by {
        assert(w.edges@[1].from@ == w.node_id(1));
    }
    assert(w.step(w.node_id(2), w.node_id(3))) by {
        assert(w.edges@[2].from@ == w.node_id(2));
    }
    assert(w.step(w.node_id(3), w.node_id(4))) by {
        assert(w.edges@[3].from@ == w.node_id(3));
    }
    assert(w.step(w.node_id(4), w.node_id(5))) by {
        assert(w.edges@[5].from@ == w.node_id(4));
    }
    assert(w.step(w.node_id(5), w.node_id(6))) by {
        assert(w.edges@[6].from@ == w.node_id(5));
    }
    assert(w.step(w.node_id(6), w.node_id(7))) by {
        assert(w.edges@[7].from@ == w.node_id(6));
    }
    assert(w.step(w.node_id(7), w.node_id(8))) by {
        assert(w.edges@[8].from@ == w.node_id(7));
    }
    assert(w.step(w.node_id(8), w.node_id(9))) by {
        assert(w.edges@[9].from@ == w.node_id(8));
    }
    assert(w.step(w.node_id(9), w.node_id(10))) by {
        assert(w.edges@[11].from@ == w.node_id(9));
    }
    let path = seq![w.node_id(0), w.node_id(1), w.node_id(2), w.node_id(3), w.node_id(4), w.node_id(5), w.node_id(6), w.node_id(7), w.node_id(8), w.node_id(9), w.node_id(10)];
    assert forall|i: int| 0 <= i < path.len() - 1 implies #[trigger] w.step(path[i], path[i + 1]) by {
        assert(i == 0 || i == 1 || i == 2 || i == 3 || i == 4 || i == 5 || i == 6 || i == 7 || i == 8 || i == 9);
    }
    assert(w.is_path(path));
    assert(w.reachable(w.node_id(0), w.node_id(10)));
    assert(w.is_done_id(w.node_id(10)));
    assert(w.done_reachable(w.node_id(0)));
}

/// Every built-in template validates, whatever the operatives.
pub proof fn lemma_builtin_templates_valid(ts: Seq<NamedTemplate>, lead: Seq<char>, forger: Seq<char>)
    requires
        ts.len() == 2,
        is_standard_template(ts[0].workflow, ""@, lead, forger),
        is_full_pipeline_template(ts[1].workflow, ""@, lead, forger),
    ensures
        forall|i: int| 0 <= i < ts.len() ==> (#[trigger] ts[i]).workflow.is_valid(),
{
    lemma_standard_template_valid(ts[0].workflow, ""@, lead, forger);
    lemma_full_pipeline_template_valid(ts[1].workflow, ""@, lead, forger);
    assert forall|i: int| 0 <= i < ts.len() implies (#[trigger] ts[i]).workflow.is_valid() by {
        assert(i == 0 || i == 1);
    }
}

} // verus!

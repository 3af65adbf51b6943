//! Run-state vocabulary: statuses, phases, subtasks, and the per-run summary
//! shown on the session rail.
use vstd::prelude::*;

verus! {

#[derive(Debug, Clone, Copy, PartialEq, Eq, Structural)]
pub enum RunStatus {
    Drafted,
    Running,
    Met,
    HaltedGuardrail,
    Aborted,
    Paused,
}

#[derive(Debug, Clone, Copy, PartialEq, Eq, Structural)]
pub enum HaltReason {
    Iterations,
    Cost,
    BlockedTimeout,
    /// The run was launched in an unusable state (e.g. no lead-capable agent).
    Misconfigured,
}

/// The fine-grained step the loop is in.
#[derive(Debug, Clone, Copy, PartialEq, Eq, Structural)]
pub enum RunPhase {
    Idle,
    Planning,
    Dispatching,
    Judging,
    Blocked,
    Met,
    Halted,
}

impl Default for RunPhase {
    fn default() -> (r: Self)
        ensures
            r == RunPhase::Idle,
    {
        RunPhase::Idle
    }
}

#[derive(Debug, Clone, Copy, PartialEq, Eq, Structural)]
pub enum CostMode {
    /// Usage reported by the CLI itself.
    CliUsage,
    /// Wall-clock fallback when a CLI exposes no usage signal.
    Wallclock,
}

#[derive(Debug, Clone, Copy, PartialEq, Eq, Structural)]
pub enum SubtaskState {
    Queued,
    Running,
    Done,
    Failed,
}

#[derive(Debug, Clone, PartialEq)]
pub struct Subtask {
    pub id: String,
    /// The hired-roster agent id this subtask was dispatched to.
    pub agent_id: String,
    pub assignment_rationale: Option<String>,
    pub prompt: String,
    pub state: SubtaskState,
    pub worktree: Option<String>,
    pub result_summary: Option<String>,
    pub parent_event_ids: Vec<String>,
}

#[derive(Debug, Clone, PartialEq)]
pub struct ConsoleInput {
    pub ts: String,
    pub text: String,
}

/// Lightweight per-run summary for the session rail.
#[derive(Debug, Clone, PartialEq)]
pub struct RunSummary {
    pub run_id: String,
    pub name: String,
    pub project_dir: String,
    pub status: RunStatus,
    pub updated_at: String,
    pub goal: String,
}

/// The outcome of a store write.
#[derive(Debug, Clone, Copy, PartialEq, Eq, Structural)]
pub enum WriteOutcome {
    Created,
    Updated,
}

/// `a` sorts strictly before `b` in code-point order (the order of their UTF-8
/// bytes, which is how strings compare).
pub open spec fn text_lt(a: Seq<char>, b: Seq<char>) -> bool
    decreases a.len(),
{
    if b.len() == 0 {
        false
    } else if a.len() == 0 {
        true
    } else if a[0] != b[0] {
        a[0] < b[0]
    } else {
        text_lt(a.drop_first(), b.drop_first())
    }
}

/// Whether `a` sorts strictly before `b` (see `text_lt`).
pub fn text_less(a: &[char], b: &[char]) -> (r: bool)
    ensures
        r == text_lt(a@, b@),
{
    let mut i: usize = 0;
    assert(a@.skip(0) == a@ && b@.skip(0) == b@);
    while i < a.len() && i < b.len() && a[i] == b[i]
        invariant
            i <= a.len(),
            i <= b.len(),
            text_lt(a@, b@) == text_lt(a@.skip(i as int), b@.skip(i as int)),
        decreases a.len() - i,
    {
        proof {
            assert(a@.skip(i as int).drop_first() == a@.skip(i + 1));
            assert(b@.skip(i as int).drop_first() == b@.skip(i + 1));
        }
        i = i + 1;
    }
    if i == b.len() {
        false
    } else if i == a.len() {
        true
    } else {
        assert(a@.skip(i as int)[0] == a@[i as int] && b@.skip(i as int)[0] == b@[i as int]);
        a[i] < b[i]
    }
}

/// Inserts a later summary into a newest-first list: before the first entry
/// updated strictly earlier, so entries updated at the same time keep the order
/// in which they came.
pub open spec fn insert_newest(sorted: Seq<RunSummary>, x: RunSummary) -> Seq<RunSummary>
    decreases sorted.len(),
{
    if sorted.len() == 0 {
        seq![x]
    } else if text_lt(sorted[0].updated_at@, x.updated_at@) {
        seq![x] + sorted
    } else {
        seq![sorted[0]] + insert_newest(sorted.drop_first(), x)
    }
}

/// The summaries ordered newest-first by `updated_at`, stably.
pub open spec fn newest_first(s: Seq<RunSummary>) -> Seq<RunSummary>
    decreases s.len(),
{
    if s.len() == 0 {
        Seq::empty()
    } else {
        insert_newest(newest_first(s.drop_last()), s.last())
    }
}

/// Inserting at the first strictly-earlier entry is `insert_newest`.
proof fn lemma_insert_at_first_earlier(sorted: Seq<RunSummary>, x: RunSummary, p: int)
    requires
        0 <= p <= sorted.len(),
        forall|j: int| 0 <= j < p ==> !text_lt(#[trigger] sorted[j].updated_at@, x.updated_at@),
        p < sorted.len() ==> text_lt(sorted[p].updated_at@, x.updated_at@),
    ensures
        insert_newest(sorted, x) == sorted.take(p) + seq![x] + sorted.skip(p),
    decreases sorted.len(),
{
    if sorted.len() == 0 {
        assert(sorted.take(p) + seq![x] + sorted.skip(p) =~= seq![x]);
    } else if p == 0 {
        assert(sorted.take(0) + seq![x] + sorted.skip(0) =~= seq![x] + sorted);
    } else {
        let rest = sorted.drop_first();
        assert forall|j: int| 0 <= j < p - 1 implies !text_lt(#[trigger] rest[j].updated_at@, x.updated_at@) by {
            assert(rest[j] == sorted[j + 1]);
        }
        if p - 1 < rest.len() {
            assert(rest[p - 1] == sorted[p]);
        }
        lemma_insert_at_first_earlier(rest, x, p - 1);
        assert(seq![sorted[0]] + (rest.take(p - 1) + seq![x] + rest.skip(p - 1)) =~= sorted.take(p)
            + seq![x] + sorted.skip(p));
    }
}

/// Orders run summaries newest-first by `updated_at` (a stable sort).
pub fn sort_newest_first(summaries: Vec<RunSummary>) -> (r: Vec<RunSummary>)
    ensures
        r@ == newest_first(summaries@),
{
    let ghost all = summaries@;
    let n = summaries.len();
    let mut rest = summaries;
    let mut out: Vec<RunSummary> = Vec::new();
    let mut i: usize = 0;
    while rest.len() > 0
        invariant
            all.len() == n,
            0 <= i <= n,
            rest@ == all.skip(i as int),
            out@ == newest_first(all.take(i as int)),
        decreases rest.len(),
    {
        let x = rest.remove(0);
        proof {
            assert(x == all[i as int]);
            assert(rest@ == all.skip(i + 1));
            let t = all.take(i + 1);
            assert(t.drop_last() == all.take(i as int));
            assert(t.last() == all[i as int]);
        }
        let xs = x.updated_at.as_str();
        let xk = crate::text::chars_of(xs);
        let mut p: usize = 0;
        while p < out.len() && !text_less(&crate::text::chars_of(out[p].updated_at.as_str()), &xk)
            invariant
                p <= out@.len(),
                xk@ == x.updated_at@,
                forall|j: int| 0 <= j < p ==> !text_lt(#[trigger] out@[j].updated_at@, x.updated_at@),
            decreases out.len() - p,
        {
            p = p + 1;
        }
        proof {
            lemma_insert_at_first_earlier(out@, x, p as int);
        }
        let ghost before = out@;
        out.insert(p, x);
        proof {
            assert(out@ =~= before.take(p as int) + seq![x] + before.skip(p as int));
        }
        i = i + 1;
    }
    assert(all.take(n as int) == all);
    out
}

/// The time a summary is ordered by: `updated_at`, or `created_at` for a run
/// saved before it had one.
pub fn effective_updated_at(updated_at: &str, created_at: &str) -> (r: String)
    ensures
        r@ == (if updated_at@.len() == 0 {
            created_at@
        } else {
            updated_at@
        }),
{
    if updated_at.is_empty() {
        created_at.to_owned()
    } else {
        updated_at.to_owned()
    }
}

/// No summary sorts after an earlier one: newest first.
pub open spec fn is_newest_first(s: Seq<RunSummary>) -> bool {
    forall|i: int, j: int| 0 <= i < j < s.len() ==> !text_lt(#[trigger] s[i].updated_at@, #[trigger] s[j].updated_at@)
}

proof fn lemma_text_lt_asym(a: Seq<char>, b: Seq<char>)
    ensures
        !(text_lt(a, b) && text_lt(b, a)),
    decreases a.len(),
{
    if a.len() > 0 && b.len() > 0 && a[0] == b[0] {
        lemma_text_lt_asym(a.drop_first(), b.drop_first());
    }
}

proof fn lemma_text_lt_total(a: Seq<char>, b: Seq<char>)
    ensures
        a == b || text_lt(a, b) || text_lt(b, a),
    decreases a.len(),
{
    if a.len() > 0 && b.len() > 0 {
        if a[0] == b[0] {
            lemma_text_lt_total(a.drop_first(), b.drop_first());
            if a.drop_first() == b.drop_first() {
                assert(a =~= seq![a[0]] + a.drop_first());
                assert(b =~= seq![b[0]] + b.drop_first());
            }
        } else {
            assert(a[0] != b[0]);
        }
    } else if a.len() == 0 && b.len() == 0 {
        assert(a =~= b);
    }
}

proof fn lemma_text_lt_trans(a: Seq<char>, b: Seq<char>, c: Seq<char>)
    requires
        text_lt(a, b),
        text_lt(b, c),
    ensures
        text_lt(a, c),
    decreases a.len(),
{
    if a.len() > 0 && b.len() > 0 && c.len() > 0 && a[0] == b[0] && b[0] == c[0] {
        lemma_text_lt_trans(a.drop_first(), b.drop_first(), c.drop_first());
    }
}

/// What `insert_newest` holds: the inserted summary and the earlier ones.
proof fn lemma_insert_contents(sorted: Seq<RunSummary>, x: RunSummary)
    ensures
        insert_newest(sorted, x).len() == sorted.len() + 1,
        forall|k: int|
            0 <= k < insert_newest(sorted, x).len() ==> (#[trigger] insert_newest(sorted, x)[k] == x
                || exists|m: int| 0 <= m < sorted.len() && sorted[m] == insert_newest(sorted, x)[k]),
    decreases sorted.len(),
{
    if sorted.len() > 0 && !text_lt(sorted[0].updated_at@, x.updated_at@) {
        let rest = sorted.drop_first();
        lemma_insert_contents(rest, x);
        let r = insert_newest(sorted, x);
        assert forall|k: int| 0 <= k < r.len() implies (#[trigger] r[k] == x || exists|m: int|
            0 <= m < sorted.len() && sorted[m] == r[k]) by {
            if k == 0 {
                assert(sorted[0] == r[0]);
            } else {
                assert(r[k] == insert_newest(rest, x)[k - 1]);
                if r[k] != x {
                    let m = choose|m: int| 0 <= m < rest.len() && rest[m] == insert_newest(rest, x)[k - 1];
                    assert(sorted[m + 1] == r[k]);
                }
            }
        }
    } else if sorted.len() > 0 {
        let r = insert_newest(sorted, x);
        assert forall|k: int| 0 <= k < r.len() implies (#[trigger] r[k] == x || exists|m: int|
            0 <= m < sorted.len() && sorted[m] == r[k]) by {
            if k > 0 {
                assert(sorted[k - 1] == r[k]);
            }
        }
    }
}

/// Inserting into a newest-first list keeps it newest-first.
proof fn lemma_insert_keeps_order(sorted: Seq<RunSummary>, x: RunSummary)
    requires
        is_newest_first(sorted),
    ensures
        is_newest_first(insert_newest(sorted, x)),
    decreases sorted.len(),
{
    let r = insert_newest(sorted, x);
    if sorted.len() == 0 {
    } else if text_lt(sorted[0].updated_at@, x.updated_at@) {
        assert forall|i: int, j: int| 0 <= i < j < r.len() implies !text_lt(#[trigger] r[i].updated_at@, #[trigger] r[j].updated_at@) by {
            if i == 0 {
                let e = sorted[j - 1];
                assert(r[j] == e);
                if j - 1 > 0 {
                    assert(!text_lt(sorted[0].updated_at@, e.updated_at@));
                }
                lemma_text_lt_total(sorted[0].updated_at@, e.updated_at@);
                if e.updated_at@ != sorted[0].updated_at@ {
                    lemma_text_lt_trans(e.updated_at@, sorted[0].updated_at@, x.updated_at@);
                }
                lemma_text_lt_asym(x.updated_at@, e.updated_at@);
            } else {
                assert(r[i] == sorted[i - 1] && r[j] == sorted[j - 1]);
            }
        }
    } else {
        let rest = sorted.drop_first();
        assert(is_newest_first(rest)) by {
            assert forall|i: int, j: int| 0 <= i < j < rest.len() implies !text_lt(#[trigger] rest[i].updated_at@, #[trigger] rest[j].updated_at@) by {
                assert(rest[i] == sorted[i + 1] && rest[j] == sorted[j + 1]);
            }
        }
        lemma_insert_keeps_order(rest, x);
        lemma_insert_contents(rest, x);
        let ir = insert_newest(rest, x);
        assert forall|i: int, j: int| 0 <= i < j < r.len() implies !text_lt(#[trigger] r[i].updated_at@, #[trigger] r[j].updated_at@) by {
            if i == 0 {
                assert(r[0] == sorted[0]);
                assert(r[j] == ir[j - 1]);
                if ir[j - 1] != x {
                    let m = choose|m: int| 0 <= m < rest.len() && rest[m] == ir[j - 1];
                    assert(sorted[m + 1] == r[j]);
                }
            } else {
                assert(r[i] == ir[i - 1] && r[j] == ir[j - 1]);
            }
        }
    }
}

/// The rail's order is newest-first: after sorting, no run summary is listed
/// after one updated earlier than it.
pub proof fn lemma_newest_first_is_ordered(s: Seq<RunSummary>)
    ensures
        is_newest_first(newest_first(s)),
    decreases s.len(),
{
    if s.len() > 0 {
        lemma_newest_first_is_ordered(s.drop_last());
        lemma_insert_keeps_order(newest_first(s.drop_last()), s.last());
    }
}

} // verus!

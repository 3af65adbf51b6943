//! Decisions of the bus participants: agent-authored panels, the scheduler's
//! firing rule, and a connector's bounded retry.
use vstd::prelude::*;
use crate::text::{
    append_str, chars_of, find, find_seq, slice, spec_usize_decimal, str_eq, string_of, trim_seq,
    trim_str, usize_decimal,
};
use crate::json_value::{
    json_pointer_array_len, json_pointer_str, parse_json, spec_json_parse_error,
    spec_json_pointer_array_len, spec_json_pointer_str, spec_json_value,
};
use crate::json_scan::{balanced_object_texts, balanced_objects};

verus! {

// ---- agent-authored panels -----------------------------------------------------------

/// The body of the first fenced block of language `lang` (between the line
/// that opens "```lang" and the next "```"), if any.
pub open spec fn fenced_block_spec(text: Seq<char>, lang: Seq<char>) -> Option<Seq<char>> {
    let open = "```"@ + lang;
    match find_seq(text, open) {
        None => None,
        Some(at) => {
            let rest = text.skip(at + open.len());
            let body_start = match find_seq(rest, "\n"@) {
                Some(i) => i + 1,
                None => 0,
            };
            let body = rest.skip(body_start);
            match find_seq(body, "```"@) {
                None => None,
                Some(end) => Some(body.take(end)),
            }
        },
    }
}

/// The body of the first fenced block of language `lang` (see `fenced_block_spec`).
pub fn fenced_block(text: &str, lang: &str) -> (r: Option<String>)
    ensures
        match r {
            None => fenced_block_spec(text@, lang@) is None,
            Some(b) => fenced_block_spec(text@, lang@) == Some(b@),
        },
{
    let t = chars_of(text);
    let mut open: Vec<char> = Vec::new();
    append_str(&mut open, "```");
    append_str(&mut open, lang);
    proof {
        reveal_strlit("```");
        reveal_strlit("\n");
    }
    match find(&t, &open) {
        None => None,
        Some(at) => {
            let n = t.len();
            let rest = slice(&t, at + open.len(), n);
            assert(rest@ == t@.skip(at + open@.len()));
            let nl = chars_of("\n");
            let body_start = match find(&rest, &nl) {
                Some(i) => i + 1,
                None => 0,
            };
            let m = rest.len();
            let body = slice(&rest, body_start, m);
            assert(body@ == rest@.skip(body_start as int));
            let fence = chars_of("```");
            match find(&body, &fence) {
                None => None,
                Some(end) => {
                    let b = slice(&body, 0, end);
                    assert(b@ == body@.take(end as int));
                    Some(crate::text::string_of(&b))
                },
            }
        },
    }
}

/// The block kinds a panel may hold.
pub open spec fn is_known_kind_spec(k: Seq<char>) -> bool {
    k == "text"@ || k == "badge"@ || k == "progress"@ || k == "list"@ || k == "code"@ || k
        == "kv"@ || k == "timeline"@
}

/// Whether a block kind is one of the panel vocabulary.
pub fn is_known_kind(k: &str) -> (r: bool)
    ensures
        r == is_known_kind_spec(k@),
{
    str_eq(k, "text") || str_eq(k, "badge") || str_eq(k, "progress") || str_eq(k, "list")
        || str_eq(k, "code") || str_eq(k, "kv") || str_eq(k, "timeline")
}

/// A candidate is a panel when some block has a known kind.
pub fn has_known_block(kinds: &Vec<Option<String>>) -> (r: bool)
    ensures
        r == exists|i: int|
            0 <= i < kinds@.len() && ((#[trigger] kinds@[i]) matches Some(k) && is_known_kind_spec(k@)),
{
    let mut i: usize = 0;
    while i < kinds.len()
        invariant
            0 <= i <= kinds@.len(),
            forall|j: int| 0 <= j < i ==> !((#[trigger] kinds@[j]) matches Some(k) && is_known_kind_spec(k@)),
        decreases kinds.len() - i,
    {
        match &kinds[i] {
            Some(k) => {
                if is_known_kind(k.as_str()) {
                    return true;
                }
            },
            None => {},
        }
        i = i + 1;
    }
    false
}

/// The largest text (in bytes) scanned for a bare panel object.
pub const MAX_PANEL_SCAN: usize = 262144;

/// Whether a text is small enough to scan for a bare panel object.
pub fn within_panel_scan(text: &str) -> (r: bool)
    ensures
        r == (text.len() <= MAX_PANEL_SCAN),
{
    text.len() <= MAX_PANEL_SCAN
}

/// The JSON Pointer to the `kind` of the `i`-th block of a panel.
pub open spec fn kind_pointer_spec(i: usize) -> Seq<char> {
    "/blocks/"@ + spec_usize_decimal(i) + "/kind"@
}

/// The `i`-th block of the panel value has a known kind.
pub open spec fn known_kind_at(v: serde_json::Value, i: usize) -> bool {
    spec_json_pointer_str(v, kind_pointer_spec(i)) matches Some(k) && is_known_kind_spec(k)
}

/// The panel a candidate text holds: its trimmed text parsed as JSON, when that
/// value has a `blocks` array with at least one block of a known kind.
pub open spec fn panel_value_spec(c: Seq<char>) -> Option<serde_json::Value> {
    let t = trim_seq(c);
    match spec_json_parse_error(t) {
        Some(_) => None,
        None => {
            let v = spec_json_value(t);
            match spec_json_pointer_array_len(v, "/blocks"@) {
                Some(n) => if exists|i: usize| i < n && #[trigger] known_kind_at(v, i) {
                    Some(v)
                } else {
                    None
                },
                None => None,
            }
        },
    }
}

/// The first candidate that is a panel.
pub open spec fn first_panel(cs: Seq<Seq<char>>) -> Option<serde_json::Value>
    decreases cs.len(),
{
    if cs.len() == 0 {
        None
    } else {
        match panel_value_spec(cs[0]) {
            Some(v) => Some(v),
            None => first_panel(cs.drop_first()),
        }
    }
}

fn kind_pointer(i: usize) -> (r: String)
    ensures
        r@ == kind_pointer_spec(i),
{
    let mut v: Vec<char> = Vec::new();
    append_str(&mut v, "/blocks/");
    let n = usize_decimal(i);
    append_str(&mut v, n.as_str());
    append_str(&mut v, "/kind");
    string_of(&v)
}

/// Parses and gates a panel candidate (see `panel_value_spec`).
pub fn parse_panel(candidate: &str) -> (r: Option<serde_json::Value>)
    ensures
        r == panel_value_spec(candidate@),
{
    let t = trim_str(candidate);
    let v = match parse_json(t.as_str()) {
        Ok(v) => v,
        Err(_) => {
            return None;
        },
    };
    let n = match json_pointer_array_len(&v, "/blocks") {
        Some(n) => n,
        None => {
            return None;
        },
    };
    let mut i: usize = 0;
    while i < n
        invariant
            i <= n,
            spec_json_parse_error(trim_seq(candidate@)) is None,
            v == spec_json_value(trim_seq(candidate@)),
            spec_json_pointer_array_len(v, "/blocks"@) == Some(n),
            forall|j: usize| j < i ==> !#[trigger] known_kind_at(v, j),
        decreases n - i,
    {
        let k = json_pointer_str(&v, kind_pointer(i).as_str());
        match k {
            Some(k) => {
                if is_known_kind(k.as_str()) {
                    assert(known_kind_at(v, i));
                    return Some(v);
                }
            },
            None => {},
        }
        assert(!known_kind_at(v, i));
        i = i + 1;
    }
    None
}

/// An agent-authored panel in a final text: the fenced `ui-spec` block when it
/// is a panel; otherwise, for a text of at most `MAX_PANEL_SCAN` bytes, the
/// first balanced object that is one.
pub fn extract_panel(final_text: &str) -> (r: Option<serde_json::Value>)
    ensures
        r == (match fenced_block_spec(final_text@, "ui-spec"@) {
            Some(b) if panel_value_spec(b) is Some => panel_value_spec(b),
            _ => if final_text.len() <= MAX_PANEL_SCAN {
                first_panel(balanced_object_texts(final_text@))
            } else {
                None
            },
        }),
{
    match fenced_block(final_text, "ui-spec") {
        Some(b) => {
            match parse_panel(b.as_str()) {
                Some(v) => {
                    return Some(v);
                },
                None => {},
            }
        },
        None => {},
    }
    if !within_panel_scan(final_text) {
        return None;
    }
    let objs = balanced_objects(final_text);
    let ghost texts = balanced_object_texts(final_text@);
    let mut i: usize = 0;
    assert(texts.skip(0) == texts);
    while i < objs.len()
        invariant
            0 <= i <= objs.len(),
            objs@.len() == texts.len(),
            texts == balanced_object_texts(final_text@),
            forall|k: int| 0 <= k < objs@.len() ==> (#[trigger] objs@[k])@ == texts[k],
            first_panel(texts) == first_panel(texts.skip(i as int)),
            final_text.len() <= MAX_PANEL_SCAN,
            !(fenced_block_spec(final_text@, "ui-spec"@) matches Some(b) && panel_value_spec(b) is Some),
        decreases objs.len() - i,
    {
        let p = parse_panel(objs[i]);
        proof {
            assert(texts.skip(i as int)[0] == texts[i as int]);
            assert(texts.skip(i as int).drop_first() == texts.skip(i + 1));
        }
        if p.is_some() {
            proof {
                let rest = texts.skip(i as int);
                assert(rest.len() > 0);
                assert(rest[0] == objs@[i as int]@);
                assert(first_panel(rest) == panel_value_spec(rest[0]));
            }
            return p;
        }
        i = i + 1;
    }
    proof {
        assert(texts.skip(i as int).len() == 0);
    }
    None
}

// ---- scheduled commands ------------------------------------------------------------------

/// The firing state of a schedule: each entry's time, and whether it has fired.
pub struct Schedule {
    pub fire_at: Vec<u64>,
    pub fired: Vec<bool>,
}

impl Schedule {
    pub open spec fn wf(&self) -> bool {
        self.fire_at@.len() == self.fired@.len()
    }

    /// A schedule of entries that have not fired.
    pub fn new(fire_at: Vec<u64>) -> (r: Self)
        ensures
            r.wf(),
            r.fire_at@ == fire_at@,
            forall|i: int| 0 <= i < r.fired@.len() ==> !r.fired@[i],
    {
        let mut fired: Vec<bool> = Vec::new();
        let mut i: usize = 0;
        while i < fire_at.len()
            invariant
                0 <= i <= fire_at@.len(),
                fired@.len() == i,
                forall|j: int| 0 <= j < i ==> !fired@[j],
            decreases fire_at.len() - i,
        {
            fired.push(false);
            i = i + 1;
        }
        Schedule { fire_at, fired }
    }

    /// Whether entry `i` is due at `now`: not yet fired and its time has come.
    pub fn is_due(&self, i: usize, now: u64) -> (r: bool)
        requires
            self.wf(),
            i < self.fire_at@.len(),
        ensures
            r == (!self.fired@[i as int] && self.fire_at@[i as int] <= now),
    {
        !self.fired[i] && self.fire_at[i] <= now
    }

    /// Records the dispatch of a due entry: a successful dispatch marks it fired
    /// for good; a refused one leaves it due.
    pub fn record_dispatch(&mut self, i: usize, dispatched: bool)
        requires
            old(self).wf(),
            i < old(self).fire_at@.len(),
        ensures
            final(self).wf(),
            final(self).fire_at@ == old(self).fire_at@,
            final(self).fired@ == (if dispatched {
                old(self).fired@.update(i as int, true)
            } else {
                old(self).fired@
            }),
    {
        if dispatched {
            self.fired.set(i, true);
        }
    }
}

/// A fired entry is never due again, whatever the time.
pub proof fn lemma_fired_never_due_again(s: Schedule, i: int, now: u64)
    requires
        s.wf(),
        0 <= i < s.fired@.len(),
        s.fired@[i],
    ensures
        !(!s.fired@[i] && s.fire_at@[i] <= now),
{
}

// ---- bounded retry -------------------------------------------------------------------------

/// A connector's retry budget: failures so far, and how many retries follow the
/// first attempt.
pub struct RetryBudget {
    pub failures: u32,
    pub max_retries: u32,
}

impl RetryBudget {
    pub fn new(max_retries: u32) -> (r: Self)
        ensures
            r.failures == 0,
            r.max_retries == max_retries,
    {
        RetryBudget { failures: 0, max_retries }
    }

    /// Counts a failed attempt; returns whether another attempt is due.
    pub fn on_failure(&mut self) -> (retry: bool)
        requires
            old(self).failures <= old(self).max_retries,
            old(self).failures < u32::MAX,
        ensures
            final(self).max_retries == old(self).max_retries,
            final(self).failures == old(self).failures + 1,
            retry == (final(self).failures <= final(self).max_retries),
    {
        self.failures = self.failures + 1;
        self.failures <= self.max_retries
    }
}

/// A connector attempts at most `max_retries + 1` times: while retries are
/// granted, the failure count stays within the budget.
pub proof fn lemma_retry_bounded(before: RetryBudget, after: RetryBudget, retry: bool)
    requires
        before.failures <= before.max_retries,
        after.max_retries == before.max_retries,
        after.failures == before.failures + 1,
        retry == (after.failures <= after.max_retries),
    ensures
        retry ==> after.failures <= after.max_retries,
        !retry ==> after.failures == after.max_retries + 1,
{
}

} // verus!

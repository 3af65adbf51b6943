//! What a CLI's output lines signal, and how a signal shows on the floor.
//!
//! A line is read (as JSON) into the plain shapes below; the mapping from a
//! line to its signal, and from a signal to the event an operative shows, is
//! decided here. The cost a line may report is a fraction and is carried by
//! the caller beside the signal; a token total is carried here.
use vstd::prelude::*;
use crate::events::{
    activity_to_district, activity_to_state, district_of, item_activity, item_to_activity,
    state_of, tool_activity, tool_to_activity, Activity, EventContext, OperativeState, WagnerEvent,
    WAGNER_EVENT_SCHEMA,
};
use crate::text::{append_str, chars_of, slice, str_eq, string_of, trim_str, trim_seq};
use crate::workflow::{first_index, lemma_first_index_props};
use crate::json_value::{
    json_pointer_array_len, json_pointer_present, json_pointer_str, json_pointer_u64, parse_json,
    spec_json_parse_error, spec_json_value, text_pointer_array_len, text_pointer_present,
    text_pointer_str, text_pointer_u64,
};

verus! {

broadcast use vstd::string::group_string_axioms;

/// The longest preview of a text an event message carries.
pub const MESSAGE_PREVIEW_MAX: usize = 120;

/// The longest preview of a tool's command in an event message.
pub const COMMAND_PREVIEW_MAX: usize = 60;

/// The longest preview of a Codex item's text.
pub const ITEM_PREVIEW_MAX: usize = 80;

/// The first `max` characters of `s` (all of it when shorter).
pub open spec fn preview_spec(s: Seq<char>, max: int) -> Seq<char> {
    if s.len() <= max {
        s
    } else {
        s.take(max)
    }
}

/// The first `max` characters of a text.
pub fn preview(s: &str, max: usize) -> (r: String)
    ensures
        r@ == preview_spec(s@, max as int),
{
    let v = chars_of(s);
    if v.len() <= max {
        s.to_owned()
    } else {
        let head = slice(&v, 0, max);
        string_of(&head)
    }
}

// ---- signals ---------------------------------------------------------------------

/// What one CLI output line signals (its reported cost aside).
#[derive(Debug, Clone, PartialEq, Eq)]
pub enum SignalKind {
    /// Session started: the operative appears, idle.
    Spawned,
    /// The operative is doing something.
    Activity { activity: Activity, message: Option<String> },
    /// The CLI paused awaiting a permission or question decision.
    AwaitingInput { prompt: String },
    /// The run finished, with the reported token total (when reported) and the
    /// final text.
    Completed { tokens: Option<u64>, result: String },
    /// A line with nothing to show (hooks, notices, unparseable output).
    Ignored,
}

/// A signal with its texts as sequences.
pub enum SignalView {
    Spawned,
    Activity { activity: Activity, message: Option<Seq<char>> },
    AwaitingInput { prompt: Seq<char> },
    Completed { tokens: Option<u64>, result: Seq<char> },
    Ignored,
}

/// The sequence of an optional text.
pub open spec fn opt_view(o: Option<String>) -> Option<Seq<char>> {
    match o {
        Some(s) => Some(s@),
        None => None,
    }
}

/// An optional text, or empty.
pub open spec fn or_empty(o: Option<String>) -> Seq<char> {
    match o {
        Some(s) => s@,
        None => Seq::empty(),
    }
}

/// The optional text is exactly `k`.
pub open spec fn is_text(o: Option<String>, k: Seq<char>) -> bool {
    o matches Some(s) && s@ == k
}

impl SignalKind {
    pub open spec fn view_signal(&self) -> SignalView {
        match self {
            SignalKind::Spawned => SignalView::Spawned,
            SignalKind::Activity { activity, message } => SignalView::Activity {
                activity: *activity,
                message: opt_view(*message),
            },
            SignalKind::AwaitingInput { prompt } => SignalView::AwaitingInput { prompt: prompt@ },
            SignalKind::Completed { tokens, result } => SignalView::Completed {
                tokens: *tokens,
                result: result@,
            },
            SignalKind::Ignored => SignalView::Ignored,
        }
    }
}

fn is_text_exec(o: &Option<String>, k: &str) -> (r: bool)
    ensures
        r == is_text(*o, k@),
{
    match o {
        Some(s) => str_eq(s.as_str(), k),
        None => false,
    }
}

fn copy_text(o: &Option<String>) -> (r: Option<String>)
    ensures
        opt_view(r) == opt_view(*o),
{
    match o {
        Some(s) => Some(s.as_str().to_owned()),
        None => None,
    }
}

// ---- the architect CLI's stream-json lines -------------------------------------------

/// One content block of an assistant message: its `type`, and for a tool use
/// the tool `name` and `input.command`, for text its `text` (each when a string).
#[derive(Debug, Clone, PartialEq, Eq)]
pub struct ContentBlock {
    pub kind: Option<String>,
    pub name: Option<String>,
    pub command: Option<String>,
    pub text: Option<String>,
}

/// One stream-json line of the architect CLI: its `type` and `subtype`, the
/// assistant message's content blocks (when `message.content` is an array),
/// and `result` (each text when a string).
#[derive(Debug, Clone, PartialEq, Eq)]
pub struct ArchitectLine {
    pub kind: Option<String>,
    pub subtype: Option<String>,
    pub blocks: Option<Vec<ContentBlock>>,
    pub result: Option<String>,
}

pub open spec fn block_pred(blocks: Seq<ContentBlock>, k: Seq<char>) -> spec_fn(int) -> bool {
    |i: int| is_text(blocks[i].kind, k)
}

/// The message shown for a tool use: the tool, and a preview of its command.
pub open spec fn tool_message(b: ContentBlock) -> Seq<char> {
    match b.command {
        Some(c) => or_empty(b.name) + ": "@ + preview_spec(c@, COMMAND_PREVIEW_MAX as int),
        None => or_empty(b.name),
    }
}

/// What an assistant message signals: its first tool use (the concrete
/// action) wins; otherwise its first text is thinking; otherwise nothing.
pub open spec fn assistant_signal(blocks: Seq<ContentBlock>) -> SignalView {
    match first_index(block_pred(blocks, "tool_use"@), 0, blocks.len() as int) {
        Some(i) => SignalView::Activity {
            activity: tool_activity(or_empty(blocks[i].name), opt_view(blocks[i].command)),
            message: Some(tool_message(blocks[i])),
        },
        None => match first_index(block_pred(blocks, "text"@), 0, blocks.len() as int) {
            Some(i) => SignalView::Activity {
                activity: Activity::Think,
                message: Some(preview_spec(or_empty(blocks[i].text), MESSAGE_PREVIEW_MAX as int)),
            },
            None => SignalView::Ignored,
        },
    }
}

/// What an architect-CLI line signals: `system/init` spawns, an assistant
/// message acts, `result` completes; anything else is ignored.
pub open spec fn architect_signal(l: ArchitectLine) -> SignalView {
    if is_text(l.kind, "system"@) {
        if is_text(l.subtype, "init"@) {
            SignalView::Spawned
        } else {
            SignalView::Ignored
        }
    } else if is_text(l.kind, "assistant"@) {
        match l.blocks {
            Some(bs) => assistant_signal(bs@),
            None => SignalView::Ignored,
        }
    } else if is_text(l.kind, "result"@) {
        SignalView::Completed { tokens: None, result: or_empty(l.result) }
    } else {
        SignalView::Ignored
    }
}

fn find_block(blocks: &Vec<ContentBlock>, k: &str) -> (r: Option<usize>)
    ensures
        match r {
            Some(i) => first_index(block_pred(blocks@, k@), 0, blocks@.len() as int) == Some(i as int)
                && i < blocks@.len(),
            None => first_index(block_pred(blocks@, k@), 0, blocks@.len() as int) is None,
        },
{
    let ghost p = block_pred(blocks@, k@);
    proof {
        lemma_first_index_props(p, 0, blocks@.len() as int);
    }
    let mut i: usize = 0;
    while i < blocks.len()
        invariant
            i <= blocks@.len(),
            p == block_pred(blocks@, k@),
            forall|j: int| 0 <= j < i ==> !#[trigger] p(j),
        decreases blocks.len() - i,
    {
        if is_text_exec(&blocks[i].kind, k) {
            proof {
                crate::workflow::lemma_first_index_skip(p, 0, i as int, blocks@.len() as int);
            }
            return Some(i);
        }
        i = i + 1;
    }
    proof {
        crate::workflow::lemma_first_index_skip(p, 0, i as int, blocks@.len() as int);
    }
    None
}

fn name_or_empty(o: &Option<String>) -> (r: &str)
    ensures
        r@ == or_empty(*o),
{
    match o {
        Some(s) => s.as_str(),
        None => {
            proof {
                reveal_strlit("");
            }
            ""
        },
    }
}

/// Maps an architect-CLI line to its signal (see `architect_signal`).
pub fn map_architect(line: &ArchitectLine) -> (r: SignalKind)
    ensures
        r.view_signal() == architect_signal(*line),
{
    if is_text_exec(&line.kind, "system") {
        if is_text_exec(&line.subtype, "init") {
            return SignalKind::Spawned;
        }
        return SignalKind::Ignored;
    }
    if is_text_exec(&line.kind, "assistant") {
        let blocks = match &line.blocks {
            Some(bs) => bs,
            None => {
                return SignalKind::Ignored;
            },
        };
        match find_block(blocks, "tool_use") {
            Some(i) => {
                let b = &blocks[i];
                let tool = name_or_empty(&b.name);
                let activity = match &b.command {
                    Some(c) => tool_to_activity(tool, Some(c.as_str())),
                    None => tool_to_activity(tool, None),
                };
                let mut m: Vec<char> = chars_of(tool);
                match &b.command {
                    Some(c) => {
                        append_str(&mut m, ": ");
                        let p = preview(c.as_str(), COMMAND_PREVIEW_MAX);
                        append_str(&mut m, p.as_str());
                    },
                    None => {},
                }
                proof {
                    assert(m@ == tool_message(blocks@[i as int]));
                }
                return SignalKind::Activity { activity, message: Some(string_of(&m)) };
            },
            None => {},
        }
        match find_block(blocks, "text") {
            Some(i) => {
                let text = name_or_empty(&blocks[i].text);
                let p = preview(text, MESSAGE_PREVIEW_MAX);
                return SignalKind::Activity { activity: Activity::Think, message: Some(p) };
            },
            None => {
                return SignalKind::Ignored;
            },
        }
    }
    if is_text_exec(&line.kind, "result") {
        let result = name_or_empty(&line.result).to_owned();
        return SignalKind::Completed { tokens: None, result };
    }
    SignalKind::Ignored
}

// ---- Codex's exec --json lines -------------------------------------------------------

/// A completed Codex item: its `type`, `text` and `command` (each when a string).
#[derive(Debug, Clone, PartialEq, Eq)]
pub struct CodexItem {
    pub kind: Option<String>,
    pub text: Option<String>,
    pub command: Option<String>,
}

/// A `usage` block: its token counts (each when a non-negative integer).
#[derive(Debug, Clone, Copy, PartialEq, Eq)]
pub struct Usage {
    pub input_tokens: Option<u64>,
    pub output_tokens: Option<u64>,
}

/// One `exec --json` line of Codex: its `type`, its `item` and its `usage`.
#[derive(Debug, Clone, PartialEq, Eq)]
pub struct CodexLine {
    pub kind: Option<String>,
    pub item: Option<CodexItem>,
    pub usage: Option<Usage>,
}

/// The total of a usage block, or `None` when it reports neither count.
pub open spec fn usage_total_spec(u: Usage) -> Option<int> {
    match (u.input_tokens, u.output_tokens) {
        (None, None) => None,
        (i, o) => Some(
            (match i {
                Some(x) => x as int,
                None => 0,
            }) + (match o {
                Some(x) => x as int,
                None => 0,
            }),
        ),
    }
}

/// The counts of a usage block add up without overflow.
pub open spec fn usage_fits(u: Usage) -> bool {
    match usage_total_spec(u) {
        Some(t) => t <= u64::MAX,
        None => true,
    }
}

/// Total tokens of a usage block (see `usage_total_spec`).
pub fn usage_total_tokens(u: &Usage) -> (r: Option<u64>)
    requires
        usage_fits(*u),
    ensures
        match r {
            Some(t) => usage_total_spec(*u) == Some(t as int),
            None => usage_total_spec(*u) is None,
        },
{
    match (u.input_tokens, u.output_tokens) {
        (None, None) => None,
        (i, o) => {
            let a = match i {
                Some(x) => x,
                None => 0,
            };
            let b = match o {
                Some(x) => x,
                None => 0,
            };
            Some(a + b)
        },
    }
}

/// The message of a completed item: a preview of its trimmed text, else of
/// its trimmed command.
pub open spec fn item_message(it: CodexItem) -> Option<Seq<char>> {
    match it.text {
        Some(t) => Some(preview_spec(trim_seq(t@), ITEM_PREVIEW_MAX as int)),
        None => match it.command {
            Some(c) => Some(preview_spec(trim_seq(c@), ITEM_PREVIEW_MAX as int)),
            None => None,
        },
    }
}

/// What a Codex line signals: a started thread spawns, a started turn thinks,
/// a completed item acts, a completed turn completes with its token total;
/// anything else is ignored.
pub open spec fn codex_signal(l: CodexLine) -> SignalView {
    if is_text(l.kind, "thread.started"@) {
        SignalView::Spawned
    } else if is_text(l.kind, "turn.started"@) {
        SignalView::Activity { activity: Activity::Think, message: None }
    } else if is_text(l.kind, "item.completed"@) {
        match l.item {
            Some(it) => SignalView::Activity {
                activity: item_activity(or_empty(it.kind)),
                message: item_message(it),
            },
            None => SignalView::Ignored,
        }
    } else if is_text(l.kind, "turn.completed"@) {
        SignalView::Completed {
            tokens: match l.usage {
                Some(u) => match usage_total_spec(u) {
                    Some(t) => Some(t as u64),
                    None => None,
                },
                None => None,
            },
            result: Seq::empty(),
        }
    } else {
        SignalView::Ignored
    }
}

/// Maps a Codex line to its signal (see `codex_signal`).
pub fn map_codex(line: &CodexLine) -> (r: SignalKind)
    requires
        is_text(line.kind, "turn.completed"@) ==> (line.usage matches Some(u) ==> usage_fits(u)),
    ensures
        r.view_signal() == codex_signal(*line),
{
    if is_text_exec(&line.kind, "thread.started") {
        return SignalKind::Spawned;
    }
    if is_text_exec(&line.kind, "turn.started") {
        return SignalKind::Activity { activity: Activity::Think, message: None };
    }
    if is_text_exec(&line.kind, "item.completed") {
        let it = match &line.item {
            Some(it) => it,
            None => {
                return SignalKind::Ignored;
            },
        };
        let activity = item_to_activity(name_or_empty(&it.kind));
        let message = match &it.text {
            Some(t) => {
                let tt = trim_str(t.as_str());
                Some(preview(tt.as_str(), ITEM_PREVIEW_MAX))
            },
            None => match &it.command {
                Some(c) => {
                    let tc = trim_str(c.as_str());
                    Some(preview(tc.as_str(), ITEM_PREVIEW_MAX))
                },
                None => None,
            },
        };
        return SignalKind::Activity { activity, message };
    }
    if is_text_exec(&line.kind, "turn.completed") {
        let tokens = match &line.usage {
            Some(u) => usage_total_tokens(u),
            None => None,
        };
        return SignalKind::Completed { tokens, result: String::new() };
    }
    SignalKind::Ignored
}

// ---- reading a raw output line ----------------------------------------------------------

/// The line read from a Codex output text: each field is what stands at its
/// place in the JSON (`type`; `item` with its `type`, `text`, `command`;
/// `usage` with its two token counts).
pub open spec fn codex_line_read(l: CodexLine, t: Seq<char>) -> bool {
    &&& opt_view(l.kind) == text_pointer_str(t, "/type"@)
    &&& (l.item is Some) == text_pointer_present(t, "/item"@)
    &&& (l.item matches Some(it) ==> {
        &&& opt_view(it.kind) == text_pointer_str(t, "/item/type"@)
        &&& opt_view(it.text) == text_pointer_str(t, "/item/text"@)
        &&& opt_view(it.command) == text_pointer_str(t, "/item/command"@)
    })
    &&& (l.usage is Some) == text_pointer_present(t, "/usage"@)
    &&& (l.usage matches Some(u) ==> {
        &&& u.input_tokens == text_pointer_u64(t, "/usage/input_tokens"@)
        &&& u.output_tokens == text_pointer_u64(t, "/usage/output_tokens"@)
    })
}

/// Reads a Codex `exec --json` output line into its line shape.
pub fn read_codex_text(line: &str) -> (l: CodexLine)
    ensures
        codex_line_read(l, line@),
{
    let v = match parse_json(line) {
        Ok(v) => v,
        Err(_) => {
            return CodexLine { kind: None, item: None, usage: None };
        },
    };
    let kind = json_pointer_str(&v, "/type");
    let item = if json_pointer_present(&v, "/item") {
        Some(
            CodexItem {
                kind: json_pointer_str(&v, "/item/type"),
                text: json_pointer_str(&v, "/item/text"),
                command: json_pointer_str(&v, "/item/command"),
            },
        )
    } else {
        None
    };
    let usage = if json_pointer_present(&v, "/usage") {
        Some(
            Usage {
                input_tokens: json_pointer_u64(&v, "/usage/input_tokens"),
                output_tokens: json_pointer_u64(&v, "/usage/output_tokens"),
            },
        )
    } else {
        None
    };
    CodexLine { kind, item, usage }
}

/// Whether a usage block's counts add up without overflow.
pub fn usage_fits_exec(u: &Usage) -> (r: bool)
    ensures
        r == usage_fits(*u),
{
    match (u.input_tokens, u.output_tokens) {
        (Some(a), Some(b)) => a.checked_add(b).is_some(),
        _ => true,
    }
}

/// What a raw Codex output line signals (see `codex_signal`), or `None` for a
/// completed turn whose token counts add up past `u64::MAX`.
pub fn map_codex_text(line: &str) -> (r: Option<SignalKind>)
    ensures
        forall|l: CodexLine|
            #![trigger codex_line_read(l, line@)]
            codex_line_read(l, line@) ==> {
                &&& (r is None <==> (is_text(l.kind, "turn.completed"@) && (l.usage matches Some(u)
                    && !usage_fits(u))))
                &&& (r matches Some(k) ==> k.view_signal() == codex_signal(l))
            },
{
    let l = read_codex_text(line);
    if is_text_exec(&l.kind, "turn.completed") {
        if let Some(u) = &l.usage {
            if !usage_fits_exec(u) {
                return None;
            }
        }
    }
    Some(map_codex(&l))
}

/// The JSON Pointer to a field of the `i`-th content block.
pub open spec fn block_pointer_spec(i: usize, field: Seq<char>) -> Seq<char> {
    "/message/content/"@ + crate::text::spec_usize_decimal(i) + field
}

fn block_pointer(i: usize, field: &str) -> (r: String)
    ensures
        r@ == block_pointer_spec(i, field@),
{
    let mut v: Vec<char> = Vec::new();
    append_str(&mut v, "/message/content/");
    let n = crate::text::usize_decimal(i);
    append_str(&mut v, n.as_str());
    append_str(&mut v, field);
    string_of(&v)
}

/// The `i`-th content block as read from the text.
pub open spec fn block_read(b: ContentBlock, t: Seq<char>, i: usize) -> bool {
    &&& opt_view(b.kind) == text_pointer_str(t, block_pointer_spec(i, "/type"@))
    &&& opt_view(b.name) == text_pointer_str(t, block_pointer_spec(i, "/name"@))
    &&& opt_view(b.command) == text_pointer_str(t, block_pointer_spec(i, "/input/command"@))
    &&& opt_view(b.text) == text_pointer_str(t, block_pointer_spec(i, "/text"@))
}

/// The line read from an architect-CLI output text: its `type`, `subtype` and
/// `result`, and, when `message.content` is an array, each of its blocks.
pub open spec fn architect_line_read(l: ArchitectLine, t: Seq<char>) -> bool {
    &&& opt_view(l.kind) == text_pointer_str(t, "/type"@)
    &&& opt_view(l.subtype) == text_pointer_str(t, "/subtype"@)
    &&& opt_view(l.result) == text_pointer_str(t, "/result"@)
    &&& match text_pointer_array_len(t, "/message/content"@) {
        None => l.blocks is None,
        Some(n) => l.blocks matches Some(bs) && bs@.len() == n && forall|i: int|
            0 <= i < n ==> block_read(#[trigger] bs@[i], t, i as usize),
    }
}

/// Reads an architect-CLI stream-json output line into its line shape.
pub fn read_architect_text(line: &str) -> (l: ArchitectLine)
    ensures
        architect_line_read(l, line@),
{
    let v = match parse_json(line) {
        Ok(v) => v,
        Err(_) => {
            return ArchitectLine { kind: None, subtype: None, blocks: None, result: None };
        },
    };
    let kind = json_pointer_str(&v, "/type");
    let subtype = json_pointer_str(&v, "/subtype");
    let result = json_pointer_str(&v, "/result");
    let blocks = match json_pointer_array_len(&v, "/message/content") {
        None => None,
        Some(n) => {
            let mut bs: Vec<ContentBlock> = Vec::new();
            let mut i: usize = 0;
            while i < n
                invariant
                    i <= n,
                    bs@.len() == i,
                    spec_json_parse_error(line@) is None,
                    v == spec_json_value(line@),
                    forall|j: int| 0 <= j < i ==> block_read(#[trigger] bs@[j], line@, j as usize),
                decreases n - i,
            {
                let b = ContentBlock {
                    kind: json_pointer_str(&v, block_pointer(i, "/type").as_str()),
                    name: json_pointer_str(&v, block_pointer(i, "/name").as_str()),
                    command: json_pointer_str(&v, block_pointer(i, "/input/command").as_str()),
                    text: json_pointer_str(&v, block_pointer(i, "/text").as_str()),
                };
                bs.push(b);
                i = i + 1;
            }
            Some(bs)
        },
    };
    ArchitectLine { kind, subtype, blocks, result }
}

/// Two block lists with the same texts signal the same.
proof fn lemma_assistant_signal_same_views(b1: Seq<ContentBlock>, b2: Seq<ContentBlock>)
    requires
        b1.len() == b2.len(),
        forall|i: int|
            0 <= i < b1.len() ==> {
                &&& opt_view((#[trigger] b1[i]).kind) == opt_view(b2[i].kind)
                &&& opt_view(b1[i].name) == opt_view(b2[i].name)
                &&& opt_view(b1[i].command) == opt_view(b2[i].command)
                &&& opt_view(b1[i].text) == opt_view(b2[i].text)
            },
    ensures
        assistant_signal(b1) == assistant_signal(b2),
{
    let n = b1.len() as int;
    assert forall|i: int| 0 <= i < n implies opt_view(b1[i].kind) == opt_view(#[trigger] b2[i].kind) by {
        assert(opt_view(b1[i].kind) == opt_view(b2[i].kind));
    }
    let pt1 = block_pred(b1, "tool_use"@);
    let pt2 = block_pred(b2, "tool_use"@);
    lemma_first_index_same(pt1, pt2, b1, b2, "tool_use"@, 0, n);
    let px1 = block_pred(b1, "text"@);
    let px2 = block_pred(b2, "text"@);
    lemma_first_index_same(px1, px2, b1, b2, "text"@, 0, n);
    match first_index(pt1, 0, n) {
        Some(i) => {
            lemma_first_index_props(pt1, 0, n);
            assert(opt_view(b1[i].name) == opt_view(b2[i].name));
            assert(opt_view(b1[i].command) == opt_view(b2[i].command));
            assert(or_empty(b1[i].name) == or_empty(b2[i].name));
            assert(tool_message(b1[i]) == tool_message(b2[i]));
        },
        None => match first_index(px1, 0, n) {
            Some(i) => {
                lemma_first_index_props(px1, 0, n);
                assert(opt_view(b1[i].text) == opt_view(b2[i].text));
                assert(or_empty(b1[i].text) == or_empty(b2[i].text));
            },
            None => {},
        },
    }
}

/// Block predicates over lists with the same kinds find the same first index.
proof fn lemma_first_index_same(
    p1: spec_fn(int) -> bool,
    p2: spec_fn(int) -> bool,
    b1: Seq<ContentBlock>,
    b2: Seq<ContentBlock>,
    k: Seq<char>,
    lo: int,
    hi: int,
)
    requires
        p1 == block_pred(b1, k),
        p2 == block_pred(b2, k),
        b1.len() == b2.len(),
        0 <= lo,
        hi == b1.len(),
        forall|i: int| 0 <= i < b1.len() ==> opt_view(b1[i].kind) == opt_view(#[trigger] b2[i].kind),
    ensures
        first_index(p1, lo, hi) == first_index(p2, lo, hi),
{
    assert forall|i: int| lo <= i < hi implies #[trigger] p1(i) == p2(i) by {
        assert(opt_view(b1[i].kind) == opt_view(b2[i].kind));
    }
    crate::workflow::lemma_first_index_ext(p1, p2, lo, hi);
}

/// What a raw architect-CLI output line signals (see `architect_signal`).
pub fn map_architect_text(line: &str) -> (r: SignalKind)
    ensures
        forall|l: ArchitectLine|
            #![trigger architect_line_read(l, line@)]
            architect_line_read(l, line@) ==> r.view_signal() == architect_signal(l),
{
    let mine = read_architect_text(line);
    let r = map_architect(&mine);
    assert forall|l: ArchitectLine| #![trigger architect_line_read(l, line@)] architect_line_read(l, line@)
        implies r.view_signal() == architect_signal(l) by {
        match (mine.blocks, l.blocks) {
            (Some(b1), Some(b2)) => {
                assert forall|i: int| 0 <= i < b1@.len() implies {
                    &&& opt_view((#[trigger] b1@[i]).kind) == opt_view(b2@[i].kind)
                    &&& opt_view(b1@[i].name) == opt_view(b2@[i].name)
                    &&& opt_view(b1@[i].command) == opt_view(b2@[i].command)
                    &&& opt_view(b1@[i].text) == opt_view(b2@[i].text)
                } by {
                    assert(block_read(b1@[i], line@, i as usize));
                    assert(block_read(b2@[i], line@, i as usize));
                }
                lemma_assistant_signal_same_views(b1@, b2@);
            },
            _ => {},
        }
    }
    r
}

// ---- projection onto the floor ---------------------------------------------------------

/// The activity, state and message a signal shows, or `None` for an ignored
/// line: a spawn thinks idly, an activity works in its own state, a wait
/// blocks on its prompt, a completion steps into review idly with its
/// (non-empty) result.
pub open spec fn projection(s: SignalView) -> Option<(Activity, OperativeState, Option<Seq<char>>)> {
    match s {
        SignalView::Spawned => Some((Activity::Think, OperativeState::Idle, None)),
        SignalView::Activity { activity, message } => Some((activity, state_of(activity), message)),
        SignalView::AwaitingInput { prompt } => Some(
            (Activity::AwaitPermission, OperativeState::Blocked, Some(prompt)),
        ),
        SignalView::Completed { result, .. } => Some(
            (
                Activity::Review,
                OperativeState::Idle,
                if result.len() == 0 {
                    None
                } else {
                    Some(result)
                },
            ),
        ),
        SignalView::Ignored => None,
    }
}

/// Projects a signal into the event its operative shows (see `projection`),
/// stamped with the context's run, operative, faction, id and time.
pub fn signal_to_event(signal: &SignalKind, ctx: EventContext) -> (r: Option<WagnerEvent>)
    ensures
        match projection(signal.view_signal()) {
            None => r is None,
            Some((activity, state, message)) => r matches Some(e) && {
                &&& e.schema@ == WAGNER_EVENT_SCHEMA@
                &&& e.event_id@ == ctx.event_id@
                &&& e.run_id@ == ctx.run_id@
                &&& e.operative_id@ == ctx.operative_id@
                &&& e.operative_name@ == ctx.operative_name@
                &&& e.faction == ctx.faction
                &&& e.activity == activity
                &&& e.district == district_of(activity)
                &&& e.state == state
                &&& opt_view(e.message) == message
                &&& e.handoff_target_operative_id is None
                &&& e.ts@ == ctx.ts@
            },
        },
{
    let (activity, state, message) = match signal {
        SignalKind::Spawned => (Activity::Think, OperativeState::Idle, None),
        SignalKind::Activity { activity, message } => (*activity, activity_to_state(*activity), copy_text(message)),
        SignalKind::AwaitingInput { prompt } => (
            Activity::AwaitPermission,
            OperativeState::Blocked,
            Some(prompt.as_str().to_owned()),
        ),
        SignalKind::Completed { result, .. } => (
            Activity::Review,
            OperativeState::Idle,
            if result.as_str().is_empty() {
                None
            } else {
                Some(result.as_str().to_owned())
            },
        ),
        SignalKind::Ignored => {
            return None;
        },
    };
    Some(
        WagnerEvent {
            schema: WAGNER_EVENT_SCHEMA.to_owned(),
            event_id: ctx.event_id,
            run_id: ctx.run_id.to_owned(),
            operative_id: ctx.operative_id.to_owned(),
            operative_name: ctx.operative_name.to_owned(),
            faction: ctx.faction,
            activity,
            district: activity_to_district(activity),
            state,
            message,
            handoff_target_operative_id: None,
            ts: ctx.ts,
        },
    )
}

/// The final text of a signal stream: the last non-empty completion result,
/// or empty.
pub open spec fn final_text_spec(s: Seq<SignalView>) -> Seq<char>
    decreases s.len(),
{
    if s.len() == 0 {
        Seq::empty()
    } else {
        match s.last() {
            SignalView::Completed { result, .. } if result.len() > 0 => result,
            _ => final_text_spec(s.drop_last()),
        }
    }
}

pub open spec fn signal_views(s: Seq<SignalKind>) -> Seq<SignalView> {
    s.map_values(|k: SignalKind| k.view_signal())
}

/// The final text of a signal stream (see `final_text_spec`).
pub fn final_text(signals: &Vec<SignalKind>) -> (r: String)
    ensures
        r@ == final_text_spec(signal_views(signals@)),
{
    let mut i = signals.len();
    assert(signals@.take(i as int) =~= signals@);
    while i > 0
        invariant
            i <= signals@.len(),
            final_text_spec(signal_views(signals@)) == final_text_spec(signal_views(signals@.take(i as int))),
        decreases i,
    {
        let k = i - 1;
        proof {
            let t = signals@.take(i as int);
            assert(signal_views(t).drop_last() == signal_views(signals@.take(k as int)));
            assert(signal_views(t).last() == signals@[k as int].view_signal());
        }
        match &signals[k] {
            SignalKind::Completed { result, .. } => {
                if !result.as_str().is_empty() {
                    return result.as_str().to_owned();
                }
            },
            _ => {},
        }
        i = k;
    }
    proof {
        assert(signal_views(signals@.take(0)) == Seq::<SignalView>::empty());
    }
    String::new()
}

} // verus!

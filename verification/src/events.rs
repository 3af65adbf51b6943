//! The normalized event model and the activity → district/state routing.
use vstd::prelude::*;
use crate::text::{chars_of, contains, contains_seq, eq_str, lowercase, spec_lowercase};

verus! {

/// The kind of work an operative is doing right now.
#[derive(Debug, Clone, Copy, PartialEq, Eq, Structural)]
pub enum Activity {
    Read,
    Edit,
    Test,
    Build,
    Lint,
    Shell,
    Review,
    Diff,
    Judge,
    Plan,
    Decompose,
    Think,
    AwaitPermission,
    AwaitQuestion,
}

/// One of the five zones on the operations floor.
#[derive(Debug, Clone, Copy, PartialEq, Eq, Structural)]
pub enum District {
    Stacks,
    Forge,
    Mirror,
    Oracle,
    Gate,
}

/// The state ring shown around an operative.
#[derive(Debug, Clone, Copy, PartialEq, Eq, Structural)]
pub enum OperativeState {
    Idle,
    Thinking,
    Working,
    Blocked,
}

/// Which engine an operative belongs to.
#[derive(Debug, Clone, Copy, PartialEq, Eq, Structural)]
pub enum Faction {
    Architects,
    Forgers,
}

/// The normalized event emitted to the frontend.
#[derive(Debug, Clone, PartialEq, Eq)]
pub struct WagnerEvent {
    pub schema: String,
    pub event_id: String,
    pub run_id: String,
    pub operative_id: String,
    /// Display name of the hired agent (floor label).
    pub operative_name: String,
    pub faction: Faction,
    pub activity: Activity,
    pub district: District,
    pub state: OperativeState,
    pub message: Option<String>,
    pub handoff_target_operative_id: Option<String>,
    pub ts: String,
}

/// The schema tag every `WagnerEvent` carries.
pub const WAGNER_EVENT_SCHEMA: &'static str = "wagner-event.v1";

/// Identity and clock the loop injects when projecting a signal.
pub struct EventContext<'a> {
    pub run_id: &'a str,
    pub operative_id: &'a str,
    /// Display name of the hired agent (floor label).
    pub operative_name: &'a str,
    pub faction: Faction,
    pub event_id: String,
    pub ts: String,
}

pub open spec fn district_of(activity: Activity) -> District {
    match activity {
        Activity::Read | Activity::Edit => District::Stacks,
        Activity::Test | Activity::Build | Activity::Lint | Activity::Shell => District::Forge,
        Activity::Review | Activity::Diff | Activity::Judge => District::Mirror,
        Activity::Plan | Activity::Decompose | Activity::Think => District::Oracle,
        Activity::AwaitPermission | Activity::AwaitQuestion => District::Gate,
    }
}

pub open spec fn state_of(activity: Activity) -> OperativeState {
    match activity {
        Activity::AwaitPermission | Activity::AwaitQuestion => OperativeState::Blocked,
        Activity::Plan | Activity::Decompose | Activity::Think | Activity::Judge => OperativeState::Thinking,
        _ => OperativeState::Working,
    }
}

/// Map an activity to its district.
pub fn activity_to_district(activity: Activity) -> (r: District)
    ensures
        r == district_of(activity),
{
    match activity {
        Activity::Read | Activity::Edit => District::Stacks,
        Activity::Test | Activity::Build | Activity::Lint | Activity::Shell => District::Forge,
        Activity::Review | Activity::Diff | Activity::Judge => District::Mirror,
        Activity::Plan | Activity::Decompose | Activity::Think => District::Oracle,
        Activity::AwaitPermission | Activity::AwaitQuestion => District::Gate,
    }
}

/// Default state ring implied by an activity.
pub fn activity_to_state(activity: Activity) -> (r: OperativeState)
    ensures
        r == state_of(activity),
{
    match activity {
        Activity::AwaitPermission | Activity::AwaitQuestion => OperativeState::Blocked,
        Activity::Plan | Activity::Decompose | Activity::Think | Activity::Judge => {
            OperativeState::Thinking
        },
        _ => OperativeState::Working,
    }
}

/// A blocked operative always stands in `District::Gate`, and every Gate activity blocks.
pub proof fn lemma_blocked_iff_gate(activity: Activity)
    ensures
        (state_of(activity) == OperativeState::Blocked) <==> (district_of(activity) == District::Gate),
{
}

/// The activity a shell command implies, from its lowercased text: tests, then
/// builds, then lints, else plain shell.
pub open spec fn command_activity(cmd: Seq<char>) -> Activity {
    let c = spec_lowercase(cmd);
    if contains_seq(c, "test"@) || contains_seq(c, "vitest"@) || contains_seq(c, "playwright"@) {
        Activity::Test
    } else if contains_seq(c, "build"@) || contains_seq(c, "compile"@) || contains_seq(c, "tsc"@) {
        Activity::Build
    } else if contains_seq(c, "lint"@) || contains_seq(c, "clippy"@) || contains_seq(c, "fmt"@) {
        Activity::Lint
    } else {
        Activity::Shell
    }
}

fn has(hay: &[char], needle: &str) -> (r: bool)
    ensures
        r == contains_seq(hay@, needle@),
{
    let n = chars_of(needle);
    contains(hay, &n)
}

/// Classify a shell command's activity.
pub fn classify_command(cmd: &str) -> (r: Activity)
    ensures
        r == command_activity(cmd@),
{
    let lower = lowercase(cmd);
    let c = chars_of(lower.as_str());
    if has(&c, "test") || has(&c, "vitest") || has(&c, "playwright") {
        Activity::Test
    } else if has(&c, "build") || has(&c, "compile") || has(&c, "tsc") {
        Activity::Build
    } else if has(&c, "lint") || has(&c, "clippy") || has(&c, "fmt") {
        Activity::Lint
    } else {
        Activity::Shell
    }
}

/// The activity an architect-CLI tool name implies (a `Bash` command is classified by
/// its text).
pub open spec fn tool_activity(tool: Seq<char>, command: Option<Seq<char>>) -> Activity {
    if tool == "Read"@ || tool == "Glob"@ || tool == "Grep"@ || tool == "NotebookRead"@ {
        Activity::Read
    } else if tool == "Edit"@ || tool == "Write"@ || tool == "NotebookEdit"@ || tool == "MultiEdit"@ {
        Activity::Edit
    } else if tool == "Task"@ {
        Activity::Decompose
    } else if tool == "TodoWrite"@ {
        Activity::Think
    } else if tool == "Bash"@ || tool == "BashOutput"@ || tool == "KillBash"@ {
        match command {
            Some(c) => command_activity(c),
            None => Activity::Shell,
        }
    } else {
        Activity::Shell
    }
}

/// The file-writing tools work on files: a use of `Edit`, `Write`,
/// `NotebookEdit` or `MultiEdit` is an edit whatever command comes with it, and
/// shows working in the Stacks district.
pub proof fn lemma_file_writing_tools_edit(tool: Seq<char>, command: Option<Seq<char>>)
    requires
        tool == "Edit"@ || tool == "Write"@ || tool == "NotebookEdit"@ || tool == "MultiEdit"@,
    ensures
        tool_activity(tool, command) == Activity::Edit,
        district_of(tool_activity(tool, command)) == District::Stacks,
        state_of(tool_activity(tool, command)) == OperativeState::Working,
{
    reveal_strlit("Edit");
    reveal_strlit("Write");
    reveal_strlit("NotebookEdit");
    reveal_strlit("MultiEdit");
    reveal_strlit("Read");
    reveal_strlit("Glob");
    reveal_strlit("Grep");
    reveal_strlit("NotebookRead");
    assert(tool.len() >= 4);
    assert(tool != "Read"@ && tool != "Glob"@ && tool != "Grep"@ && tool != "NotebookRead"@) by {
        if tool == "Edit"@ || tool == "Write"@ || tool == "NotebookEdit"@ || tool == "MultiEdit"@ {
            assert(tool[0] != 'R' || tool.len() != 4);
            assert(tool[0] != 'G');
            assert(tool.len() != 12 || tool[8] != 'R');
        }
    }
}

/// Infer the activity from an architect-CLI tool name (+ optional bash command text).
pub fn tool_to_activity(tool: &str, command: Option<&str>) -> (r: Activity)
    ensures
        r == tool_activity(
            tool@,
            match command {
                Some(c) => Some(c@),
                None => None,
            },
        ),
{
    let t = chars_of(tool);
    if eq_str(&t, "Read") || eq_str(&t, "Glob") || eq_str(&t, "Grep") || eq_str(&t, "NotebookRead") {
        Activity::Read
    } else if eq_str(&t, "Edit") || eq_str(&t, "Write") || eq_str(&t, "NotebookEdit") || eq_str(
        &t,
        "MultiEdit",
    ) {
        Activity::Edit
    } else if eq_str(&t, "Task") {
        Activity::Decompose
    } else if eq_str(&t, "TodoWrite") {
        Activity::Think
    } else if eq_str(&t, "Bash") || eq_str(&t, "BashOutput") || eq_str(&t, "KillBash") {
        match command {
            Some(c) => classify_command(c),
            None => Activity::Shell,
        }
    } else {
        Activity::Shell
    }
}

/// The activity a Codex item type implies.
pub open spec fn item_activity(item_type: Seq<char>) -> Activity {
    if item_type == "command_execution"@ {
        Activity::Shell
    } else if item_type == "file_change"@ || item_type == "patch_apply"@ {
        Activity::Edit
    } else if item_type == "file_read"@ {
        Activity::Read
    } else {
        Activity::Think
    }
}

/// Map a Codex item type to an activity.
pub fn item_to_activity(item_type: &str) -> (r: Activity)
    ensures
        r == item_activity(item_type@),
{
    let t = chars_of(item_type);
    if eq_str(&t, "command_execution") {
        Activity::Shell
    } else if eq_str(&t, "file_change") || eq_str(&t, "patch_apply") {
        Activity::Edit
    } else if eq_str(&t, "file_read") {
        Activity::Read
    } else {
        Activity::Think
    }
}

} // verus!

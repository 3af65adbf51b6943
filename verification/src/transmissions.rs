//! Human-in-the-loop permission decisions.
use vstd::prelude::*;
use crate::json_value::{
    json_pointer_present, json_pointer_str, json_pointer_value, opt_text, spec_json_pointer_present,
    spec_json_pointer_str, spec_json_pointer_value,
};
use crate::text::{chars_of, eq_str, lowercase, spec_lowercase, trim_seq, trim_str};

verus! {

/// The engineer's decision on a transmission.
#[derive(Debug, Clone, Copy, PartialEq, Eq, Structural)]
pub enum Decision {
    Allow,
    Deny,
}

/// The answers (after trimming and lowercasing) that allow.
pub open spec fn is_allow_word(s: Seq<char>) -> bool {
    s == "allow"@ || s == "yes"@ || s == "approve"@ || s == "y"@ || s == "ok"@
}

/// The decision an answer maps to: allow for `allow`/`yes`/`approve`/`y`/`ok`
/// (ignoring surrounding whitespace and case), deny for anything else.
pub open spec fn decision_for(answer: Seq<char>) -> Decision {
    if is_allow_word(spec_lowercase(trim_seq(answer))) {
        Decision::Allow
    } else {
        Decision::Deny
    }
}

impl Decision {
    /// Map an already trimmed and lowercased answer to a decision.
    pub fn from_normalized(norm: &str) -> (r: Self)
        ensures
            r == (if is_allow_word(norm@) {
                Decision::Allow
            } else {
                Decision::Deny
            }),
    {
        let v = chars_of(norm);
        if eq_str(&v, "allow") || eq_str(&v, "yes") || eq_str(&v, "approve") || eq_str(&v, "y")
            || eq_str(&v, "ok") {
            Decision::Allow
        } else {
            Decision::Deny
        }
    }

    /// Map a transmission option id / free-text answer to a decision.
    pub fn from_answer(answer: &str) -> (r: Self)
        ensures
            r == decision_for(answer@),
    {
        let t = trim_str(answer);
        let l = lowercase(t.as_str());
        Decision::from_normalized(l.as_str())
    }
}


// ---- the permission tool's arguments ---------------------------------------------------

/// What the permission tool is called with: the tool, its input (when given),
/// and the correlation id.
pub struct PermissionCall {
    pub tool_name: String,
    pub input: Option<serde_json::Value>,
    pub tool_use_id: Option<String>,
}

/// The first of two entries that is present.
pub open spec fn first_present(v: serde_json::Value, a: Seq<char>, b: Seq<char>) -> Option<Seq<char>> {
    if spec_json_pointer_present(v, a) {
        Some(a)
    } else if spec_json_pointer_present(v, b) {
        Some(b)
    } else {
        None
    }
}

fn first_present_exec<'a>(v: &serde_json::Value, a: &'a str, b: &'a str) -> (r: Option<&'a str>)
    ensures
        match r {
            Some(p) => first_present(*v, a@, b@) == Some(p@),
            None => first_present(*v, a@, b@) is None,
        },
{
    if json_pointer_present(v, a) {
        Some(a)
    } else if json_pointer_present(v, b) {
        Some(b)
    } else {
        None
    }
}

/// The string at the first present of two entries.
pub open spec fn first_present_str(v: serde_json::Value, a: Seq<char>, b: Seq<char>) -> Option<Seq<char>> {
    match first_present(v, a, b) {
        Some(p) => spec_json_pointer_str(v, p),
        None => None,
    }
}

/// Reads a permission-tool call's arguments, taking each entry under its
/// documented name or its alias (the first present): `tool_name`/`toolName`
/// (required, a string), `input`/`tool_input`, `tool_use_id`/`toolUseId`.
pub fn read_permission_call(args: &serde_json::Value) -> (r: Option<PermissionCall>)
    ensures
        match first_present_str(*args, "/tool_name"@, "/toolName"@) {
            None => r is None,
            Some(name) => r matches Some(c) && {
                &&& c.tool_name@ == name
                &&& c.input == match first_present(*args, "/input"@, "/tool_input"@) {
                    Some(q) => spec_json_pointer_value(*args, q),
                    None => None,
                }
                &&& opt_text(c.tool_use_id) == first_present_str(*args, "/tool_use_id"@, "/toolUseId"@)
            },
        },
{
    let name_at = first_present_exec(args, "/tool_name", "/toolName");
    let tool_name = match name_at {
        Some(p) => match json_pointer_str(args, p) {
            Some(s) => s,
            None => {
                return None;
            },
        },
        None => {
            return None;
        },
    };
    let input = match first_present_exec(args, "/input", "/tool_input") {
        Some(q) => json_pointer_value(args, q),
        None => None,
    };
    let tool_use_id = match first_present_exec(args, "/tool_use_id", "/toolUseId") {
        Some(q) => json_pointer_str(args, q),
        None => None,
    };
    Some(PermissionCall { tool_name, input, tool_use_id })
}

} // verus!

//! The engines' command surface: preflight of the installed CLIs, the argv each
//! CLI is invoked with, and the rules for OpenAI-compatible chat endpoints.
//!
//! No argv, endpoint request or child environment authored here carries an API
//! key: the CLIs authenticate with the engineer's own session.
use vstd::prelude::*;
use crate::engine::Role;
use crate::events::Faction;
use crate::json_value::{json_pointer_array_len, json_pointer_str, spec_json_pointer_array_len, spec_json_pointer_str};
use crate::text::{
    decimal_spec, usize_decimal,
    append_str, chars_of, contains, contains_seq, join, join_seq, lowercase, spec_lowercase,
    starts_with, starts_with_seq, str_eq, string_of, trim, trim_char_end, trim_seq, hex_digit,
    hex_digit_char,
};

verus! {

// ---- preflight ----------------------------------------------------------------

/// The API-key variables that would route a CLI to metered billing.
pub const ANTHROPIC_API_KEY: &'static str = "ANTHROPIC_API_KEY";

/// The API-key variables that would route a CLI to metered billing.
pub const OPENAI_API_KEY: &'static str = "OPENAI_API_KEY";

/// Whether one CLI was found, and where.
#[derive(Debug, Clone, PartialEq, Eq)]
pub struct EngineStatus {
    /// The CLI's program name.
    pub program: String,
    pub present: bool,
    pub path: Option<String>,
}

/// What preflight found.
#[derive(Debug, Clone, PartialEq, Eq)]
pub struct CliStatus {
    /// The architect CLI (the planning and judging engine).
    pub architect: EngineStatus,
    pub codex: EngineStatus,
    /// Which API-key variables are set, non-empty, in the environment.
    pub api_keys_in_env: Vec<String>,
    /// Set when the architect CLI's settings bypass the permission gate.
    pub gate_bypass_warning: Option<String>,
}

/// Why a run cannot start, given which CLIs are present.
pub open spec fn blocking_reason_spec(architect: EngineStatus, codex: EngineStatus) -> Option<
    Seq<char>,
> {
    if architect.present && codex.present {
        None
    } else if !architect.present && !codex.present {
        Some("neither `"@ + architect.program@ + "` nor `"@ + codex.program@ + "` found on PATH"@)
    } else if !architect.present {
        Some("`"@ + architect.program@ + "` not found on PATH"@)
    } else {
        Some("`"@ + codex.program@ + "` not found on PATH"@)
    }
}

impl CliStatus {
    /// A run may start only when both CLIs are available.
    pub fn ready(&self) -> (r: bool)
        ensures
            r == (self.architect.present && self.codex.present),
    {
        self.architect.present && self.codex.present
    }

    /// Why a run cannot start, or `None` when ready.
    pub fn blocking_reason(&self) -> (r: Option<String>)
        ensures
            match blocking_reason_spec(self.architect, self.codex) {
                None => r is None,
                Some(m) => r matches Some(s) && s@ == m,
            },
    {
        let a = self.architect.program.as_str();
        let c = self.codex.program.as_str();
        let mut v: Vec<char> = Vec::new();
        match (self.architect.present, self.codex.present) {
            (true, true) => {
                return None;
            },
            (false, false) => {
                append_str(&mut v, "neither `");
                append_str(&mut v, a);
                append_str(&mut v, "` nor `");
                append_str(&mut v, c);
                append_str(&mut v, "` found on PATH");
            },
            (false, true) => {
                append_str(&mut v, "`");
                append_str(&mut v, a);
                append_str(&mut v, "` not found on PATH");
            },
            (true, false) => {
                append_str(&mut v, "`");
                append_str(&mut v, c);
                append_str(&mut v, "` not found on PATH");
            },
        }
        Some(string_of(&v))
    }
}

/// An environment value counts as set when it is present and non-empty.
pub open spec fn is_set(v: Option<String>) -> bool {
    v matches Some(s) && s@.len() > 0
}

/// The API-key variables flagged, in their fixed order.
pub open spec fn flagged_keys(anthropic: Option<String>, openai: Option<String>) -> Seq<Seq<char>> {
    let a: Seq<Seq<char>> = if is_set(anthropic) {
        seq![ANTHROPIC_API_KEY@]
    } else {
        Seq::empty()
    };
    if is_set(openai) {
        a.push(OPENAI_API_KEY@)
    } else {
        a
    }
}

/// The Codex CLI's program name.
pub const CODEX_PROGRAM: &'static str = "codex";

/// Detects the CLIs (the architect CLI under its configured program name, and
/// `codex`) and the API-key variables through the given lookups: a CLI is
/// present when the path lookup finds it; an API-key variable is flagged when
/// the environment lookup gives a non-empty value.
pub fn detect<P, E>(architect_program: &str, path_lookup: P, env_lookup: E) -> (r: CliStatus) where
    P: Fn(&str) -> Option<String>,
    E: Fn(&str) -> Option<String>,

    requires
        forall|s: &str| #[trigger] path_lookup.requires((s,)),
        forall|s: &str| #[trigger] env_lookup.requires((s,)),
    ensures
        path_lookup.ensures((architect_program,), r.architect.path),
        path_lookup.ensures((CODEX_PROGRAM,), r.codex.path),
        r.architect.program@ == architect_program@,
        r.codex.program@ == CODEX_PROGRAM@,
        r.architect.present == r.architect.path is Some,
        r.codex.present == r.codex.path is Some,
        exists|a: Option<String>, o: Option<String>|
            env_lookup.ensures((ANTHROPIC_API_KEY,), a) && env_lookup.ensures((OPENAI_API_KEY,), o)
                && #[trigger] flagged_keys(a, o) == r.api_keys_in_env@.map_values(|k: String| k@),
        r.gate_bypass_warning is None,
{
    let architect_path = path_lookup(architect_program);
    let codex_path = path_lookup(CODEX_PROGRAM);
    let a = env_lookup(ANTHROPIC_API_KEY);
    let o = env_lookup(OPENAI_API_KEY);
    let mut keys: Vec<String> = Vec::new();
    let a_set = match &a {
        Some(v) => !v.as_str().is_empty(),
        None => false,
    };
    if a_set {
        keys.push(ANTHROPIC_API_KEY.to_owned());
    }
    let o_set = match &o {
        Some(v) => !v.as_str().is_empty(),
        None => false,
    };
    if o_set {
        keys.push(OPENAI_API_KEY.to_owned());
    }
    proof {
        assert(keys@.map_values(|k: String| k@) =~= flagged_keys(a, o));
    }
    CliStatus {
        architect: EngineStatus {
            program: architect_program.to_owned(),
            present: architect_path.is_some(),
            path: architect_path,
        },
        codex: EngineStatus {
            program: CODEX_PROGRAM.to_owned(),
            present: codex_path.is_some(),
            path: codex_path,
        },
        api_keys_in_env: keys,
        gate_bypass_warning: None,
    }
}

/// The parts of the architect CLI's `settings.json` that decide whether the permission gate
/// is bypassed: the string entries of `permissions.allow`, and
/// `permissions.defaultMode` when it is a string.
#[derive(Debug, Clone, PartialEq, Eq)]
pub struct ArchitectSettings {
    pub allow: Vec<String>,
    pub default_mode: Option<String>,
}

/// The gated tools pre-approved by the allow rules, in the order Bash, Edit, Write.
pub open spec fn pre_allowed(allow: Seq<Seq<char>>) -> Seq<Seq<char>> {
    let a: Seq<Seq<char>> = if allow.contains("Bash"@) {
        seq!["Bash"@]
    } else {
        Seq::empty()
    };
    let b = if allow.contains("Edit"@) {
        a.push("Edit"@)
    } else {
        a
    };
    if allow.contains("Write"@) {
        b.push("Write"@)
    } else {
        b
    }
}

/// The permission modes under which the architect CLI approves tool use on its own.
pub open spec fn is_permissive_mode(mode: Seq<char>) -> bool {
    mode == "auto"@ || mode == "bypassPermissions"@ || mode == "dontAsk"@ || mode
        == "acceptEdits"@
}

/// The reasons the settings bypass the permission gate.
pub open spec fn bypass_reasons(settings: ArchitectSettings) -> Seq<Seq<char>> {
    let allowed = pre_allowed(settings.allow@.map_values(|s: String| s@));
    let a: Seq<Seq<char>> = if allowed.len() > 0 {
        seq!["allow rules pre-approve "@ + join_seq(allowed, ", "@)]
    } else {
        Seq::empty()
    };
    match settings.default_mode {
        Some(m) => if is_permissive_mode(m@) {
            a.push("defaultMode `"@ + m@ + "` auto-approves tool use"@)
        } else {
            a
        },
        None => a,
    }
}

/// The warning shown when the settings bypass the permission gate.
pub open spec fn bypass_warning_spec(settings: ArchitectSettings) -> Option<Seq<char>> {
    let reasons = bypass_reasons(settings);
    if reasons.len() == 0 {
        None
    } else {
        Some(
            "Architect CLI settings bypass the permission gate ("@ + join_seq(reasons, "; "@)
                + "); US2 transmissions will not fire for those tools. Remove them from permissions.allow / set defaultMode to `default` to surface permission prompts."@,
        )
    }
}

/// Whether `v` holds a string equal to `lit`.
fn holds(v: &Vec<String>, lit: &str) -> (r: bool)
    ensures
        r == v@.map_values(|s: String| s@).contains(lit@),
{
    let ghost vv = v@.map_values(|s: String| s@);
    let mut k: usize = 0;
    while k < v.len()
        invariant
            0 <= k <= v@.len(),
            vv == v@.map_values(|s: String| s@),
            forall|m: int| 0 <= m < k ==> vv[m] != lit@,
        decreases v.len() - k,
    {
        if str_eq(v[k].as_str(), lit) {
            assert(vv[k as int] == lit@);
            return true;
        }
        k = k + 1;
    }
    false
}

/// Inspects the architect CLI's settings for configuration that bypasses the permission gate:
/// allow rules pre-approving `Bash`, `Edit` or `Write`, or a permissive default
/// mode. Returns the warning, or `None` when the settings are clean.
pub fn gate_bypass_warning(settings: &ArchitectSettings) -> (r: Option<String>)
    ensures
        match bypass_warning_spec(*settings) {
            None => r is None,
            Some(w) => r matches Some(s) && s@ == w,
        },
{
    let ghost av = settings.allow@.map_values(|s: String| s@);
    let mut allowed: Vec<String> = Vec::new();
    if holds(&settings.allow, "Bash") {
        allowed.push("Bash".to_owned());
    }
    if holds(&settings.allow, "Edit") {
        allowed.push("Edit".to_owned());
    }
    if holds(&settings.allow, "Write") {
        allowed.push("Write".to_owned());
    }
    assert(allowed@.map_values(|s: String| s@) =~= pre_allowed(av));
    let mut reasons: Vec<String> = Vec::new();
    if allowed.len() > 0 {
        let mut v: Vec<char> = Vec::new();
        append_str(&mut v, "allow rules pre-approve ");
        let j = join(&allowed, ", ");
        append_str(&mut v, j.as_str());
        reasons.push(string_of(&v));
    }
    match &settings.default_mode {
        Some(m) => {
            let ms = m.as_str();
            if str_eq(ms, "auto") || str_eq(ms, "bypassPermissions") || str_eq(ms, "dontAsk")
                || str_eq(ms, "acceptEdits") {
                let mut v: Vec<char> = Vec::new();
                append_str(&mut v, "defaultMode `");
                append_str(&mut v, ms);
                append_str(&mut v, "` auto-approves tool use");
                reasons.push(string_of(&v));
            }
        },
        None => {},
    }
    assert(reasons@.map_values(|s: String| s@) =~= bypass_reasons(*settings));
    if reasons.len() == 0 {
        return None;
    }
    let mut w: Vec<char> = Vec::new();
    append_str(&mut w, "Architect CLI settings bypass the permission gate (");
    let j = join(&reasons, "; ");
    append_str(&mut w, j.as_str());
    append_str(
        &mut w,
        "); US2 transmissions will not fire for those tools. Remove them from permissions.allow / set defaultMode to `default` to surface permission prompts.",
    );
    Some(string_of(&w))
}

// ---- chat endpoints ---------------------------------------------------------------

/// A base URL without surrounding whitespace and without trailing slashes.
pub open spec fn normalize_base_spec(base: Seq<char>) -> Seq<char> {
    trim_char_end(trim_seq(base), '/')
}

/// Trims a base URL and its trailing slashes, so `{base}/chat/completions` is well formed.
pub fn normalize_base(base: &str) -> (r: String)
    ensures
        r@ == normalize_base_spec(base@),
{
    let v = chars_of(base);
    let t = trim(&v);
    let mut j = t.len();
    assert(t@.subrange(0, t.len() as int) =~= t@);
    while j > 0 && t[j - 1] == '/'
        invariant
            j <= t.len(),
            trim_char_end(t@, '/') == trim_char_end(t@.subrange(0, j as int), '/'),
        decreases j,
    {
        assert(t@.subrange(0, j as int).drop_last() =~= t@.subrange(0, j - 1));
        j = j - 1;
    }
    let mut out: Vec<char> = Vec::new();
    let mut i: usize = 0;
    while i < j
        invariant
            0 <= i <= j <= t.len(),
            out@ == t@.subrange(0, i as int),
        decreases j - i,
    {
        out.push(t[i]);
        assert(t@.subrange(0, i + 1) == t@.subrange(0, i as int).push(t@[i as int]));
        i = i + 1;
    }
    string_of(&out)
}

/// Only `http://` and `https://` endpoints are allowed.
pub open spec fn is_http_url_spec(base: Seq<char>) -> bool {
    starts_with_seq(trim_seq(base), "http://"@) || starts_with_seq(trim_seq(base), "https://"@)
}

/// Whether a base URL uses http or https (other schemes, and no scheme, are refused).
pub fn is_http_url(base: &str) -> (r: bool)
    ensures
        r == is_http_url_spec(base@),
{
    let v = chars_of(base);
    let b = trim(&v);
    let http = chars_of("http://");
    let https = chars_of("https://");
    starts_with(&b, &http) || starts_with(&b, &https)
}

/// The cloud instance-metadata hosts that are never a model host.
pub open spec fn blocked_hosts() -> Seq<Seq<char>> {
    seq![
        "169.254.169.254"@,
        "ffff:169.254.169.254"@,
        "fd00:ec2::254"@,
        "metadata.google.internal"@,
        "100.100.100.200"@,
        "metadata.azure.com"@,
        "0.0.0.0"@,
    ]
}

/// `s` without `[` and `]`.
pub open spec fn strip_brackets(s: Seq<char>) -> Seq<char>
    decreases s.len(),
{
    if s.len() == 0 {
        Seq::empty()
    } else {
        let prev = strip_brackets(s.drop_last());
        let c = s.last();
        if c != '[' && c != ']' {
            prev.push(c)
        } else {
            prev
        }
    }
}

/// A base URL names a metadata endpoint when its trimmed, lowercased,
/// bracket-stripped text contains one of the blocked hosts.
pub open spec fn is_metadata_endpoint_spec(base: Seq<char>) -> bool {
    let s = strip_brackets(spec_lowercase(trim_seq(base)));
    exists|k: int| 0 <= k < blocked_hosts().len() && contains_seq(s, #[trigger] blocked_hosts()[k])
}

/// Whether a base URL points at a cloud instance-metadata endpoint.
pub fn is_metadata_endpoint(base: &str) -> (r: bool)
    ensures
        r == is_metadata_endpoint_spec(base@),
{
    let t = trim(&chars_of(base));
    let lower = lowercase(string_of(&t).as_str());
    let lv = chars_of(lower.as_str());
    let mut stripped: Vec<char> = Vec::new();
    let mut i: usize = 0;
    while i < lv.len()
        invariant
            0 <= i <= lv.len(),
            stripped@ == strip_brackets(lv@.take(i as int)),
        decreases lv.len() - i,
    {
        let c = lv[i];
        proof {
            assert(lv@.take(i + 1).drop_last() == lv@.take(i as int));
            assert(lv@.take(i + 1).last() == c);
            assert(strip_brackets(lv@.take(i + 1)) == (if c != '[' && c != ']' {
                strip_brackets(lv@.take(i as int)).push(c)
            } else {
                strip_brackets(lv@.take(i as int))
            }));
        }
        if c != '[' && c != ']' {
            stripped.push(c);
        }
        i = i + 1;
    }
    assert(lv@.take(lv.len() as int) == lv@);
    let hosts: [&str; 7] = [
        "169.254.169.254",
        "ffff:169.254.169.254",
        "fd00:ec2::254",
        "metadata.google.internal",
        "100.100.100.200",
        "metadata.azure.com",
        "0.0.0.0",
    ];
    let mut k: usize = 0;
    while k < 7
        invariant
            0 <= k <= 7,
            hosts@.len() == 7,
            forall|m: int| 0 <= m < 7 ==> (#[trigger] hosts@[m])@ == blocked_hosts()[m],
            forall|m: int| 0 <= m < k ==> !contains_seq(stripped@, #[trigger] blocked_hosts()[m]),
            stripped@ == strip_brackets(spec_lowercase(trim_seq(base@))),
        decreases 7 - k,
    {
        let h = chars_of(hosts[k]);
        if contains(&stripped, &h) {
            return true;
        }
        k = k + 1;
    }
    false
}

/// Why a base URL is refused before any request is made, for a run: a
/// non-http(s) scheme or a metadata endpoint.
pub open spec fn run_refusal_spec(base: Seq<char>) -> Option<Seq<char>> {
    if !is_http_url_spec(base) {
        Some("endpoint base_url must be http(s): "@ + base)
    } else if is_metadata_endpoint_spec(base) {
        Some("refusing to call a cloud instance-metadata endpoint: "@ + base)
    } else {
        None
    }
}

/// The message with which a run refuses its (normalized) base URL, if it does.
pub fn run_refusal(base: &str) -> (r: Option<String>)
    ensures
        match run_refusal_spec(base@) {
            None => r is None,
            Some(m) => r matches Some(s) && s@ == m,
        },
{
    if !is_http_url(base) {
        let mut v: Vec<char> = Vec::new();
        append_str(&mut v, "endpoint base_url must be http(s): ");
        append_str(&mut v, base);
        return Some(string_of(&v));
    }
    if is_metadata_endpoint(base) {
        let mut v: Vec<char> = Vec::new();
        append_str(&mut v, "refusing to call a cloud instance-metadata endpoint: ");
        append_str(&mut v, base);
        return Some(string_of(&v));
    }
    None
}

/// Reachability and served models of an endpoint.
#[derive(Debug, Clone, PartialEq)]
pub struct EndpointStatus {
    pub reachable: bool,
    /// Model ids the endpoint advertises.
    pub models: Vec<String>,
    pub error: Option<String>,
}

/// The status a ping reports without calling out, when the base URL is refused.
pub open spec fn ping_refusal_spec(base: Seq<char>) -> Option<Seq<char>> {
    if !is_http_url_spec(base) {
        Some("base_url must start with http:// or https://"@)
    } else if is_metadata_endpoint_spec(base) {
        Some("refusing to ping a cloud instance-metadata endpoint"@)
    } else {
        None
    }
}

/// The unreachable status of a refused ping, or `None` when the ping may go out.
pub fn ping_refusal(base: &str) -> (r: Option<EndpointStatus>)
    ensures
        match ping_refusal_spec(base@) {
            None => r is None,
            Some(m) => r matches Some(st) && !st.reachable && st.models@.len() == 0 && (st.error
                matches Some(e) && e@ == m),
        },
{
    if !is_http_url(base) {
        return Some(
            EndpointStatus {
                reachable: false,
                models: Vec::new(),
                error: Some("base_url must start with http:// or https://".to_owned()),
            },
        );
    }
    if is_metadata_endpoint(base) {
        return Some(
            EndpointStatus {
                reachable: false,
                models: Vec::new(),
                error: Some("refusing to ping a cloud instance-metadata endpoint".to_owned()),
            },
        );
    }
    None
}

/// `{base}{suffix}` on the normalized base URL.
pub fn endpoint_url(base: &str, suffix: &str) -> (r: String)
    ensures
        r@ == normalize_base_spec(base@) + suffix@,
{
    let b = normalize_base(base);
    let mut v = chars_of(b.as_str());
    append_str(&mut v, suffix);
    string_of(&v)
}

/// One chat message.
#[derive(Debug, Clone, PartialEq, Eq)]
pub struct ChatMessage {
    pub role: String,
    pub content: String,
}

/// A chat-completions request: the model, the messages, and no streaming.
#[derive(Debug, Clone, PartialEq, Eq)]
pub struct ChatRequest {
    pub model: String,
    pub messages: Vec<ChatMessage>,
    pub stream: bool,
}

/// Builds a chat request: a non-blank role prompt becomes a leading system
/// message; the task prompt is the user message.
pub fn chat_request(model: &str, role_prompt: Option<&str>, prompt: &str) -> (r: ChatRequest)
    ensures
        r.model@ == model@,
        !r.stream,
        match role_prompt {
            Some(sys) if trim_seq(sys@).len() > 0 => {
                &&& r.messages@.len() == 2
                &&& r.messages@[0].role@ == "system"@ && r.messages@[0].content@ == sys@
                &&& r.messages@[1].role@ == "user"@ && r.messages@[1].content@ == prompt@
            },
            _ => {
                &&& r.messages@.len() == 1
                &&& r.messages@[0].role@ == "user"@ && r.messages@[0].content@ == prompt@
            },
        },
{
    let mut messages: Vec<ChatMessage> = Vec::new();
    match role_prompt {
        Some(sys) => {
            let t = trim(&chars_of(sys));
            if t.len() > 0 {
                messages.push(ChatMessage { role: "system".to_owned(), content: sys.to_owned() });
            }
        },
        None => {},
    }
    messages.push(ChatMessage { role: "user".to_owned(), content: prompt.to_owned() });
    ChatRequest { model: model.to_owned(), messages, stream: false }
}

// ---- CLI argv ----------------------------------------------------------------------

/// The message for a chat response without a reply text.
pub const NO_CHAT_CONTENT: &'static str = "no choices[0].message.content in response";

/// The reply text of a chat response: `choices[0].message.content`, when
/// `choices` is a non-empty array and that entry is a string.
pub open spec fn chat_reply_spec(v: serde_json::Value) -> Option<Seq<char>> {
    match spec_json_pointer_array_len(v, "/choices"@) {
        Some(n) if n > 0 => spec_json_pointer_str(v, "/choices/0/message/content"@),
        _ => None,
    }
}

/// The reply text of a chat response (see `chat_reply_spec`), or the error
/// for a response without one.
pub fn parse_chat_response(v: &serde_json::Value) -> (r: Result<String, String>)
    ensures
        match r {
            Ok(s) => chat_reply_spec(*v) == Some(s@),
            Err(m) => chat_reply_spec(*v) is None && m@ == NO_CHAT_CONTENT@,
        },
{
    let reply = match json_pointer_array_len(v, "/choices") {
        Some(n) => if n > 0 {
            json_pointer_str(v, "/choices/0/message/content")
        } else {
            None
        },
        None => None,
    };
    match reply {
        Some(s) => Ok(s),
        None => Err(NO_CHAT_CONTENT.to_owned()),
    }
}

/// The pointer to the `id` of the `i`-th model of a `/models` response.
pub open spec fn model_id_pointer(i: nat) -> Seq<char> {
    "/data/"@ + decimal_spec(i) + "/id"@
}

/// The ids among the first `n` entries of `data`, in order, skipping entries
/// without a string `id`.
pub open spec fn model_ids_spec(v: serde_json::Value, n: nat) -> Seq<Seq<char>>
    decreases n,
{
    if n == 0 {
        Seq::empty()
    } else {
        model_ids_spec(v, (n - 1) as nat) + match spec_json_pointer_str(v, model_id_pointer((n - 1) as nat)) {
            Some(id) => seq![id],
            None => Seq::empty(),
        }
    }
}

/// The model ids a `/models` response advertises: the string `id` of each
/// entry of its `data` array; none when `data` is not an array.
pub fn parse_models_response(v: &serde_json::Value) -> (r: Vec<String>)
    ensures
        r@.map_values(|s: String| s@) == match spec_json_pointer_array_len(*v, "/data"@) {
            Some(n) => model_ids_spec(*v, n as nat),
            None => Seq::empty(),
        },
{
    let mut out: Vec<String> = Vec::new();
    let n = match json_pointer_array_len(v, "/data") {
        Some(n) => n,
        None => {
            assert(out@.map_values(|s: String| s@) =~= Seq::<Seq<char>>::empty());
            return out;
        },
    };
    let mut i: usize = 0;
    assert(out@.map_values(|s: String| s@) =~= model_ids_spec(*v, 0));
    while i < n
        invariant
            i <= n,
            out@.map_values(|s: String| s@) == model_ids_spec(*v, i as nat),
        decreases n - i,
    {
        let mut p: Vec<char> = Vec::new();
        append_str(&mut p, "/data/");
        let d = usize_decimal(i);
        append_str(&mut p, d.as_str());
        append_str(&mut p, "/id");
        let ps = string_of(&p);
        assert(ps@ =~= model_id_pointer(i as nat));
        let ghost before = out@;
        match json_pointer_str(v, ps.as_str()) {
            Some(id) => {
                let ghost idv = id@;
                out.push(id);
                assert(out@.map_values(|s: String| s@) =~= before.map_values(|s: String| s@).push(idv));
            },
            None => {},
        }
        proof {
            assert(out@.map_values(|s: String| s@) =~= model_ids_spec(*v, (i + 1) as nat));
        }
        i = i + 1;
    }
    out
}

/// The MCP permission-prompt tool the architect CLI calls to gate tool use.
pub const GATE_PROMPT_TOOL: &'static str = "mcp__gate__approve";

/// Wiring of the permission gate: the inline `--mcp-config` JSON and the
/// `--permission-prompt-tool` name.
#[derive(Debug, Clone, PartialEq, Eq)]
pub struct GateConfig {
    pub mcp_config_json: String,
    pub prompt_tool: String,
}

/// How `serde_json` writes one character inside a string literal: `"` and
/// `\` behind a backslash, the short escapes for backspace, tab, line feed,
/// form feed and carriage return, `\u00XX` (lowercase hex) for every other
/// control character below 0x20, and every other character as it is.
pub open spec fn json_escape_char(c: char) -> Seq<char> {
    if c == '"' {
        seq!['\\', '"']
    } else if c == '\\' {
        seq!['\\', '\\']
    } else if c == '\u{8}' {
        seq!['\\', 'b']
    } else if c == '\t' {
        seq!['\\', 't']
    } else if c == '\n' {
        seq!['\\', 'n']
    } else if c == '\u{c}' {
        seq!['\\', 'f']
    } else if c == '\r' {
        seq!['\\', 'r']
    } else if (c as int) < 0x20 {
        seq!['\\', 'u', '0', '0', hex_digit((c as int) / 16), hex_digit((c as int) % 16)]
    } else {
        seq![c]
    }
}

/// The characters of a text, each escaped as `serde_json` writes it.
pub open spec fn json_escaped(s: Seq<char>) -> Seq<char>
    decreases s.len(),
{
    if s.len() == 0 {
        Seq::empty()
    } else {
        json_escaped(s.drop_last()) + json_escape_char(s.last())
    }
}

/// The JSON string literal `serde_json` writes for a text: quoted, with its
/// escapes.
pub open spec fn spec_json_string(s: Seq<char>) -> Seq<char> {
    seq!['"'] + json_escaped(s) + seq!['"']
}

/// Appends one character escaped as in a JSON string literal.
fn push_json_escaped(out: &mut Vec<char>, c: char)
    ensures
        final(out)@ == old(out)@ + json_escape_char(c),
{
    let ghost start = out@;
    if c == '"' {
        out.push('\\');
        out.push('"');
    } else if c == '\\' {
        out.push('\\');
        out.push('\\');
    } else if c == '\u{8}' {
        out.push('\\');
        out.push('b');
    } else if c == '\t' {
        out.push('\\');
        out.push('t');
    } else if c == '\n' {
        out.push('\\');
        out.push('n');
    } else if c == '\u{c}' {
        out.push('\\');
        out.push('f');
    } else if c == '\r' {
        out.push('\\');
        out.push('r');
    } else if (c as u32) < 0x20 {
        let n = c as u32;
        out.push('\\');
        out.push('u');
        out.push('0');
        out.push('0');
        out.push(hex_digit_char(n / 16));
        out.push(hex_digit_char(n % 16));
    } else {
        out.push(c);
    }
    assert(out@ =~= start + json_escape_char(c));
}

/// Writes a text as a JSON string literal, as `serde_json` renders a
/// `Value::String`.
fn json_string(s: &str) -> (r: String)
    ensures
        r@ == spec_json_string(s@),
{
    let cs = chars_of(s);
    let mut out: Vec<char> = Vec::new();
    out.push('"');
    let mut i: usize = 0;
    while i < cs.len()
        invariant
            0 <= i <= cs.len(),
            cs@ == s@,
            out@ == seq!['"'] + json_escaped(cs@.take(i as int)),
        decreases cs.len() - i,
    {
        let ghost before = out@;
        push_json_escaped(&mut out, cs[i]);
        proof {
            let t = cs@.take(i + 1);
            assert(t.drop_last() =~= cs@.take(i as int));
            assert(t.last() == cs@[i as int]);
            assert(out@ =~= seq!['"'] + json_escaped(t));
        }
        i = i + 1;
    }
    out.push('"');
    assert(cs@.take(cs.len() as int) =~= cs@);
    let r = string_of(&out);
    assert(r@ =~= spec_json_string(s@));
    r
}

/// The inline `--mcp-config` JSON that registers the permission gate as a stdio
/// MCP server named `gate`, run by `node` on the script, with the loopback URL
/// and the per-run token in its environment. Keys stand in sorted order, as
/// `serde_json` writes an object.
pub open spec fn gate_mcp_config_spec(script: Seq<char>, url: Seq<char>, token: Seq<char>) -> Seq<char> {
    "{\"mcpServers\":{\"gate\":{\"args\":["@ + spec_json_string(script)
        + "],\"command\":\"node\",\"env\":{\"CONSTRUCT_GATE_TOKEN\":"@ + spec_json_string(token)
        + ",\"CONSTRUCT_GATE_URL\":"@ + spec_json_string(url) + "}}}}"@
}

/// Builds the `--mcp-config` JSON of the permission gate for a script path, URL and token.
pub fn gate_mcp_config(gate_script_path: &str, gate_url: &str, gate_token: &str) -> (r: String)
    ensures
        r@ == gate_mcp_config_spec(gate_script_path@, gate_url@, gate_token@),
{
    let mut v: Vec<char> = Vec::new();
    append_str(&mut v, "{\"mcpServers\":{\"gate\":{\"args\":[");
    let q = json_string(gate_script_path);
    append_str(&mut v, q.as_str());
    append_str(&mut v, "],\"command\":\"node\",\"env\":{\"CONSTRUCT_GATE_TOKEN\":");
    let q = json_string(gate_token);
    append_str(&mut v, q.as_str());
    append_str(&mut v, ",\"CONSTRUCT_GATE_URL\":");
    let q = json_string(gate_url);
    append_str(&mut v, q.as_str());
    append_str(&mut v, "}}}}");
    let r = string_of(&v);
    assert(r@ =~= gate_mcp_config_spec(gate_script_path@, gate_url@, gate_token@));
    r
}

/// How one installed CLI is invoked: the program, its faction (which fixes the
/// argv shape), the working directory, the permission gate (architect only) and the agent's
/// standing instructions.
#[derive(Debug, Clone, PartialEq, Eq)]
pub struct CliEngineRunner {
    pub program: String,
    pub faction: Faction,
    pub cwd: String,
    pub gate: Option<GateConfig>,
    pub role_prompt: Option<String>,
}

/// The architect CLI's permission mode for a role: read-only planning for plan and judge;
/// for execution, `default` when gated (so tool use reaches the permission gate), else
/// `acceptEdits`.
pub open spec fn architect_mode(role: Role, gated: bool) -> Seq<char> {
    match role {
        Role::Plan | Role::Judge => "plan"@,
        Role::Execute => if gated {
            "default"@
        } else {
            "acceptEdits"@
        },
    }
}

/// Codex's sandbox for a role.
pub open spec fn codex_sandbox(role: Role) -> Seq<char> {
    match role {
        Role::Plan | Role::Judge => "read-only"@,
        Role::Execute => "workspace-write"@,
    }
}

/// The argv for a role.
pub open spec fn args_spec(
    faction: Faction,
    cwd: Seq<char>,
    gate: Option<GateConfig>,
    role: Role,
    prompt: Seq<char>,
) -> Seq<Seq<char>> {
    match faction {
        Faction::Architects => {
            let gated = role == Role::Execute && gate is Some;
            let base = seq![
                "-p"@,
                prompt,
                "--output-format"@,
                "stream-json"@,
                "--verbose"@,
                "--permission-mode"@,
                architect_mode(role, gated),
                "--add-dir"@,
                cwd,
            ];
            if gated {
                base + seq![
                    "--permission-prompt-tool"@,
                    gate->0.prompt_tool@,
                    "--mcp-config"@,
                    gate->0.mcp_config_json@,
                    "--strict-mcp-config"@,
                ]
            } else {
                base
            }
        },
        Faction::Forgers => seq![
            "exec"@,
            "--json"@,
            "--cd"@,
            cwd,
            "--sandbox"@,
            codex_sandbox(role),
            "--skip-git-repo-check"@,
            prompt,
        ],
    }
}

/// The prompt handed to the CLI: the role prompt, a blank line and the task
/// prompt when the role prompt is not blank; else the task prompt alone.
pub open spec fn full_prompt_spec(role_prompt: Option<String>, prompt: Seq<char>) -> Seq<char> {
    match role_prompt {
        Some(rp) => if trim_seq(rp@).len() > 0 {
            rp@ + "\n\n"@ + prompt
        } else {
            prompt
        },
        None => prompt,
    }
}

impl CliEngineRunner {
    /// The Architects' runner: the architect CLI (its configured program) over
    /// stream-json.
    pub fn architect(program: &str, cwd: &str) -> (r: Self)
        ensures
            r.program@ == program@,
            r.faction == Faction::Architects,
            r.cwd@ == cwd@,
            r.gate is None,
            r.role_prompt is None,
    {
        CliEngineRunner {
            program: program.to_owned(),
            faction: Faction::Architects,
            cwd: cwd.to_owned(),
            gate: None,
            role_prompt: None,
        }
    }

    /// The Forgers' runner: Codex `exec --json`.
    pub fn codex(cwd: &str) -> (r: Self)
        ensures
            r.program@ == CODEX_PROGRAM@,
            r.faction == Faction::Forgers,
            r.cwd@ == cwd@,
            r.gate is None,
            r.role_prompt is None,
    {
        CliEngineRunner {
            program: CODEX_PROGRAM.to_owned(),
            faction: Faction::Forgers,
            cwd: cwd.to_owned(),
            gate: None,
            role_prompt: None,
        }
    }

    /// Attaches the agent's standing instructions.
    pub fn with_role_prompt(self, prompt: &str) -> (r: Self)
        ensures
            r == (CliEngineRunner { role_prompt: r.role_prompt, ..self }),
            r.role_prompt matches Some(p) && p@ == prompt@,
    {
        CliEngineRunner { role_prompt: Some(prompt.to_owned()), ..self }
    }

    /// Attaches the permission gate.
    pub fn with_gate(self, gate: GateConfig) -> (r: Self)
        ensures
            r == (CliEngineRunner { gate: Some(gate), ..self }),
    {
        CliEngineRunner { gate: Some(gate), ..self }
    }

    pub fn faction(&self) -> (f: Faction)
        ensures
            f == self.faction,
    {
        self.faction
    }

    /// Composes the role prompt with a task prompt (see `full_prompt_spec`).
    pub fn full_prompt(&self, prompt: &str) -> (r: String)
        ensures
            r@ == full_prompt_spec(self.role_prompt, prompt@),
    {
        match &self.role_prompt {
            Some(rp) => {
                let t = trim(&chars_of(rp.as_str()));
                if t.len() > 0 {
                    let mut v = chars_of(rp.as_str());
                    append_str(&mut v, "\n\n");
                    append_str(&mut v, prompt);
                    string_of(&v)
                } else {
                    prompt.to_owned()
                }
            },
            None => prompt.to_owned(),
        }
    }

    /// The argv for a role (see `args_spec`). It never carries an API-key flag.
    pub fn args(&self, role: Role, prompt: &str) -> (r: Vec<String>)
        ensures
            r@.map_values(|a: String| a@) == args_spec(self.faction, self.cwd@, self.gate, role, prompt@),
    {
        match self.faction {
            Faction::Architects => {
                let gated_exec = role == Role::Execute && self.gate.is_some();
                let mode = match role {
                    Role::Plan | Role::Judge => "plan",
                    Role::Execute => if gated_exec {
                        "default"
                    } else {
                        "acceptEdits"
                    },
                };
                let mut v: Vec<String> = Vec::new();
                v.push("-p".to_owned());
                v.push(prompt.to_owned());
                v.push("--output-format".to_owned());
                v.push("stream-json".to_owned());
                v.push("--verbose".to_owned());
                v.push("--permission-mode".to_owned());
                v.push(mode.to_owned());
                v.push("--add-dir".to_owned());
                v.push(self.cwd.clone());
                let ghost base = v@.map_values(|a: String| a@);
                if gated_exec {
                    match &self.gate {
                        Some(g) => {
                            v.push("--permission-prompt-tool".to_owned());
                            v.push(g.prompt_tool.clone());
                            v.push("--mcp-config".to_owned());
                            v.push(g.mcp_config_json.clone());
                            v.push("--strict-mcp-config".to_owned());
                        },
                        None => {},
                    }
                }
                proof {
                    assert(v@.map_values(|a: String| a@) =~= args_spec(
                        self.faction,
                        self.cwd@,
                        self.gate,
                        role,
                        prompt@,
                    ));
                }
                v
            },
            Faction::Forgers => {
                let sandbox = match role {
                    Role::Plan | Role::Judge => "read-only",
                    Role::Execute => "workspace-write",
                };
                let mut v: Vec<String> = Vec::new();
                v.push("exec".to_owned());
                v.push("--json".to_owned());
                v.push("--cd".to_owned());
                v.push(self.cwd.clone());
                v.push("--sandbox".to_owned());
                v.push(sandbox.to_owned());
                v.push("--skip-git-repo-check".to_owned());
                v.push(prompt.to_owned());
                proof {
                    assert(v@.map_values(|a: String| a@) =~= args_spec(
                        self.faction,
                        self.cwd@,
                        self.gate,
                        role,
                        prompt@,
                    ));
                }
                v
            },
        }
    }
}

} // verus!

use wagner_host::cli::{
    chat_request, detect, endpoint_url, gate_bypass_warning, is_http_url, is_metadata_endpoint,
    gate_mcp_config, normalize_base, ping_refusal, run_refusal, ArchitectSettings, CliEngineRunner,
    GateConfig, GATE_PROMPT_TOOL,
};
use wagner_host::engine::Role;
use wagner_host::events::Faction;

#[test]
fn non_http_schemes_are_rejected() {
    assert!(is_http_url("http://localhost:8000/v1"));
    assert!(is_http_url("https://host/v1"));
    assert!(!is_http_url("file:///etc/passwd"));
    assert!(!is_http_url("ftp://host"));
    assert!(!is_http_url("localhost:8000"));
}

#[test]
fn metadata_endpoints_are_blocked_but_local_hosts_are_not() {
    assert!(is_metadata_endpoint("http://169.254.169.254/latest/meta-data"));
    assert!(is_metadata_endpoint("http://[::ffff:169.254.169.254]/"));
    assert!(is_metadata_endpoint("http://[fd00:ec2::254]/latest"));
    assert!(is_metadata_endpoint("http://metadata.google.internal/x"));
    assert!(is_metadata_endpoint("http://100.100.100.200/latest"));
    assert!(is_metadata_endpoint("http://0.0.0.0:80/v1"));
    assert!(!is_metadata_endpoint("http://localhost:11434/v1"));
    assert!(!is_metadata_endpoint("http://192.168.1.50:8000/v1"));
    assert!(!is_metadata_endpoint("http://127.0.0.1:8080/v1"));
}

#[test]
fn metadata_hosts_match_regardless_of_case() {
    assert!(is_metadata_endpoint("HTTP://METADATA.GOOGLE.INTERNAL/x"));
}

#[test]
fn base_url_trailing_slash_is_normalized() {
    assert_eq!(
        endpoint_url("http://localhost:11434/v1/", "/chat/completions"),
        "http://localhost:11434/v1/chat/completions"
    );
    assert_eq!(normalize_base("  http://h/v1// "), "http://h/v1");
}

#[test]
fn request_body_carries_model_and_user_prompt() {
    let body = chat_request("llama3", None, "do the thing");
    assert_eq!(body.model, "llama3");
    assert_eq!(body.messages[0].role, "user");
    assert_eq!(body.messages[0].content, "do the thing");
    assert!(!body.stream);
}

#[test]
fn role_prompt_becomes_a_leading_system_message() {
    let body = chat_request("m", Some("you are precise"), "task");
    assert_eq!(body.messages[0].role, "system");
    assert_eq!(body.messages[0].content, "you are precise");
    assert_eq!(body.messages[1].role, "user");
}

#[test]
fn blank_role_prompt_is_omitted() {
    let body = chat_request("m", Some("   "), "task");
    assert_eq!(body.messages.len(), 1);
    assert_eq!(body.messages[0].role, "user");
}

#[test]
fn run_rejects_a_non_http_base_url_without_calling_out() {
    let msg = run_refusal("file:///etc/passwd").expect("refused");
    assert!(msg.contains("http(s)"));
}

#[test]
fn run_refuses_a_cloud_metadata_endpoint() {
    let msg = run_refusal("http://169.254.169.254/v1").expect("refused");
    assert!(msg.contains("metadata"));
    assert_eq!(run_refusal("http://localhost:11434/v1"), None);
}

#[test]
fn ping_refusals_are_unreachable_with_a_reason() {
    let st = ping_refusal("ftp://x").expect("refused");
    assert!(!st.reachable);
    assert!(st.models.is_empty());
    assert_eq!(st.error.as_deref(), Some("base_url must start with http:// or https://"));
    assert!(ping_refusal("http://127.0.0.1:8080/v1").is_none());
}

#[test]
fn ready_when_both_present_and_no_keys() {
    let status = detect(
        "architect-cli",
        |n: &str| match n {
            "architect-cli" => Some("/usr/bin/architect-cli".into()),
            "codex" => Some("/usr/bin/codex".into()),
            _ => None,
        },
        |_: &str| None,
    );
    assert!(status.ready());
    assert!(status.blocking_reason().is_none());
    assert!(status.api_keys_in_env.is_empty());
}

#[test]
fn not_ready_when_codex_missing() {
    let status = detect("architect-cli", |n: &str| (n == "architect-cli").then(|| "/usr/bin/architect-cli".into()), |_: &str| None);
    assert!(!status.ready());
    assert_eq!(status.blocking_reason().unwrap(), "`codex` not found on PATH");
}

#[test]
fn flags_api_key_in_env() {
    let status = detect(
        "architect-cli",
        |_: &str| Some("/usr/bin/x".into()),
        |k: &str| (k == "ANTHROPIC_API_KEY").then(|| "sk-xxx".to_string()),
    );
    assert_eq!(status.api_keys_in_env, vec!["ANTHROPIC_API_KEY"]);
}

#[test]
fn empty_api_key_is_not_flagged() {
    let status = detect("architect-cli", |_: &str| Some("/x".into()), |_: &str| Some(String::new()));
    assert!(status.api_keys_in_env.is_empty());
}

#[test]
fn neither_cli_present_blocks_with_both_named() {
    let status = detect("architect-cli", |_: &str| None, |_: &str| Some("k".into()));
    assert_eq!(status.blocking_reason().unwrap(), "neither `architect-cli` nor `codex` found on PATH");
    assert_eq!(status.api_keys_in_env, vec!["ANTHROPIC_API_KEY", "OPENAI_API_KEY"]);
}

fn settings(allow: &[&str], mode: Option<&str>) -> ArchitectSettings {
    ArchitectSettings { allow: allow.iter().map(|s| s.to_string()).collect(), default_mode: mode.map(String::from) }
}

#[test]
fn permissive_allow_rules_bypass_the_gate() {
    let w = gate_bypass_warning(&settings(&["Bash", "Edit", "Read"], None)).expect("Bash/Edit allow must warn");
    assert!(w.contains("Bash"));
    assert!(w.contains("Edit"));
    assert!(!w.contains("Read"));
}

#[test]
fn permissive_default_mode_bypasses_the_gate() {
    for mode in ["auto", "bypassPermissions", "dontAsk", "acceptEdits"] {
        assert!(gate_bypass_warning(&settings(&[], Some(mode))).is_some(), "{mode} should warn about gate bypass");
    }
}

#[test]
fn clean_settings_do_not_warn() {
    assert!(gate_bypass_warning(&settings(&["Read"], Some("default"))).is_none());
}

#[test]
fn bypass_warning_names_every_reason() {
    let w = gate_bypass_warning(&settings(&["Write", "Bash"], Some("dontAsk"))).unwrap();
    assert_eq!(
        w,
        "Architect CLI settings bypass the permission gate (allow rules pre-approve Bash, Write; defaultMode `dontAsk` auto-approves tool use); US2 transmissions will not fire for those tools. Remove them from permissions.allow / set defaultMode to `default` to surface permission prompts."
    );
}

fn gate() -> GateConfig {
    GateConfig {
        mcp_config_json: gate_mcp_config("/tmp/gate.mjs", "http://127.0.0.1:5599/permission", "test-token"),
        prompt_tool: GATE_PROMPT_TOOL.to_string(),
    }
}

fn mode_after(v: &[String]) -> String {
    let i = v.iter().position(|a| a == "--permission-mode").unwrap();
    v[i + 1].clone()
}

#[test]
fn architect_args_use_stream_json_and_no_api_key() {
    let r = CliEngineRunner::architect("architect-cli", "/repo");
    let args = r.args(Role::Plan, "decompose this");
    assert!(args.contains(&"stream-json".to_string()));
    assert!(args.contains(&"--add-dir".to_string()));
    assert!(args.contains(&"/repo".to_string()));
    assert!(!args.iter().any(|a| a.contains("api-key") || a.contains("api_key")));
}

#[test]
fn architect_plan_is_read_only_execute_can_edit() {
    let r = CliEngineRunner::architect("architect-cli", "/repo");
    assert_eq!(mode_after(&r.args(Role::Plan, "x")), "plan");
    assert_eq!(mode_after(&r.args(Role::Execute, "x")), "acceptEdits");
}

#[test]
fn codex_args_use_exec_json_and_sandbox() {
    let r = CliEngineRunner::codex("/repo");
    let plan = r.args(Role::Plan, "judge this");
    assert_eq!(plan[0], "exec");
    assert!(plan.contains(&"--json".to_string()));
    assert!(plan.contains(&"read-only".to_string()));
    let exec = r.args(Role::Execute, "do this");
    assert!(exec.contains(&"workspace-write".to_string()));
}

#[test]
fn factions_are_tagged() {
    assert_eq!(CliEngineRunner::architect("architect-cli", ".").faction(), Faction::Architects);
    assert_eq!(CliEngineRunner::codex(".").faction(), Faction::Forgers);
}

#[test]
fn role_prompt_is_prepended_to_the_task_prompt() {
    let r = CliEngineRunner::architect("architect-cli", "/repo").with_role_prompt("You are Cipher, the test author.");
    let full = r.full_prompt("write a test for slugify");
    assert!(full.starts_with("You are Cipher, the test author."));
    assert!(full.contains("write a test for slugify"));
    let args = r.args(Role::Execute, &full);
    assert!(args.iter().any(|a| a.contains("You are Cipher")));
    let plain = CliEngineRunner::codex("/repo");
    assert_eq!(plain.full_prompt("do x"), "do x");
}

#[test]
fn gated_execute_routes_tool_use_through_the_permission_prompt_tool() {
    let r = CliEngineRunner::architect("architect-cli", "/repo").with_gate(gate());
    let exec = r.args(Role::Execute, "do the work");
    assert_eq!(mode_after(&exec), "default");
    assert!(exec.contains(&"--permission-prompt-tool".to_string()));
    assert!(exec.contains(&"mcp__gate__approve".to_string()));
    assert!(exec.contains(&"--mcp-config".to_string()));
    assert!(exec.contains(&"--strict-mcp-config".to_string()));
    assert!(exec.iter().any(|a| a.contains("127.0.0.1:5599")));
    assert!(!exec.iter().any(|a| a.contains("api-key") || a.contains("api_key")));
}

#[test]
fn gated_plan_stays_read_only_and_ungated() {
    let r = CliEngineRunner::architect("architect-cli", "/repo").with_gate(gate());
    let plan = r.args(Role::Plan, "decompose");
    assert_eq!(mode_after(&plan), "plan");
    assert!(!plan.contains(&"--permission-prompt-tool".to_string()));
}

#[test]
fn no_engine_role_injects_an_api_key_flag() {
    let runners = [
        CliEngineRunner::architect("architect-cli", "/repo"),
        CliEngineRunner::architect("architect-cli", "/repo").with_gate(gate()),
        CliEngineRunner::codex("/repo"),
    ];
    for r in &runners {
        for role in [Role::Plan, Role::Judge, Role::Execute] {
            for a in &r.args(role, "do work") {
                let lower = a.to_lowercase();
                assert!(!lower.contains("api-key") && !lower.contains("api_key"), "argv leaked an API key for {role:?}: {a}");
            }
        }
    }
}

#[test]
fn gate_mcp_config_is_valid_and_carries_the_url() {
    let json = gate_mcp_config("/tmp/gate.mjs", "http://127.0.0.1:5599/permission", "test-token");
    let v: serde_json::Value = serde_json::from_str(&json).unwrap();
    assert_eq!(v["mcpServers"]["gate"]["command"], "node");
    assert_eq!(v["mcpServers"]["gate"]["args"][0], "/tmp/gate.mjs");
    assert_eq!(v["mcpServers"]["gate"]["env"]["CONSTRUCT_GATE_URL"], "http://127.0.0.1:5599/permission");
}

#[test]
fn gate_env_carries_only_url_and_token_no_api_key() {
    let json = gate_mcp_config("/tmp/gate.mjs", "http://127.0.0.1:5599/permission", "test-token");
    let v: serde_json::Value = serde_json::from_str(&json).unwrap();
    let env = v["mcpServers"]["gate"]["env"].as_object().unwrap();
    let mut keys: Vec<&str> = env.keys().map(|k| k.as_str()).collect();
    keys.sort_unstable();
    assert_eq!(keys, vec!["CONSTRUCT_GATE_TOKEN", "CONSTRUCT_GATE_URL"]);
    assert_eq!(env["CONSTRUCT_GATE_TOKEN"], "test-token");
    for k in env.keys() {
        let lower = k.to_lowercase();
        assert!(!lower.contains("api-key") && !lower.contains("api_key"));
    }
}

#[test]
fn gate_mcp_config_is_exact_and_escapes_its_values() {
    assert_eq!(
        gate_mcp_config("/tmp/gate.mjs", "http://127.0.0.1:5599/permission", "test-token"),
        "{\"mcpServers\":{\"gate\":{\"args\":[\"/tmp/gate.mjs\"],\"command\":\"node\",\"env\":{\"CONSTRUCT_GATE_TOKEN\":\"test-token\",\"CONSTRUCT_GATE_URL\":\"http://127.0.0.1:5599/permission\"}}}}"
    );
    let json = gate_mcp_config("C:\\gate \"x\".mjs", "u", "t");
    let v: serde_json::Value = serde_json::from_str(&json).unwrap();
    assert_eq!(v["mcpServers"]["gate"]["args"][0], "C:\\gate \"x\".mjs");
}

#[test]
fn gate_mcp_config_escapes_exactly_as_serde_json_writes_strings() {
    for token in ["a\u{1}b\tc\n\u{8}\u{c}\r\u{1f}\u{7f}é\"\\/", "plain", ""] {
        let json = gate_mcp_config("s", "u", token);
        let expected_literal = serde_json::Value::String(token.to_string()).to_string();
        assert!(json.contains(&format!("\"CONSTRUCT_GATE_TOKEN\":{expected_literal},")), "{json}");
        let v: serde_json::Value = serde_json::from_str(&json).unwrap();
        assert_eq!(v["mcpServers"]["gate"]["env"]["CONSTRUCT_GATE_TOKEN"], token);
    }
    assert!(gate_mcp_config("s", "u", "\u{1}").contains("\\u0001"));
}

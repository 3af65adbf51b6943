use wagner_host::events::{Activity, District, EventContext, Faction, OperativeState};
use wagner_host::signals::{
    final_text, map_architect, map_architect_text, map_codex, map_codex_text, read_architect_text, read_codex_text, preview, signal_to_event, usage_total_tokens, ArchitectLine, CodexItem,
    CodexLine, ContentBlock, SignalKind, Usage,
};

fn s(t: &str) -> Option<String> {
    Some(t.to_string())
}

fn line(kind: &str) -> ArchitectLine {
    ArchitectLine { kind: s(kind), subtype: None, blocks: None, result: None }
}

fn tool_block(name: &str, command: Option<&str>) -> ContentBlock {
    ContentBlock { kind: s("tool_use"), name: s(name), command: command.map(String::from), text: None }
}

fn text_block(text: &str) -> ContentBlock {
    ContentBlock { kind: s("text"), name: None, command: None, text: s(text) }
}

fn assistant(blocks: Vec<ContentBlock>) -> ArchitectLine {
    ArchitectLine { blocks: Some(blocks), ..line("assistant") }
}

#[test]
fn architect_init_spawns_and_hooks_are_ignored() {
    assert_eq!(map_architect(&ArchitectLine { subtype: s("init"), ..line("system") }), SignalKind::Spawned);
    assert_eq!(map_architect(&ArchitectLine { subtype: s("hook_started"), ..line("system") }), SignalKind::Ignored);
    assert_eq!(map_architect(&line("rate_limit")), SignalKind::Ignored);
    assert_eq!(map_architect(&ArchitectLine { kind: None, ..line("x") }), SignalKind::Ignored);
}

#[test]
fn architect_tool_use_maps_to_its_activity() {
    let edit = map_architect(&assistant(vec![tool_block("Edit", None)]));
    assert_eq!(edit, SignalKind::Activity { activity: Activity::Edit, message: s("Edit") });
    let test = map_architect(&assistant(vec![tool_block("Bash", Some("cargo test --lib"))]));
    assert_eq!(test, SignalKind::Activity { activity: Activity::Test, message: s("Bash: cargo test --lib") });
}

#[test]
fn architect_tool_use_wins_over_text_and_text_thinks() {
    let both = map_architect(&assistant(vec![text_block("let me look"), tool_block("Read", None)]));
    assert_eq!(both, SignalKind::Activity { activity: Activity::Read, message: s("Read") });
    let text = map_architect(&assistant(vec![text_block("ok")]));
    assert_eq!(text, SignalKind::Activity { activity: Activity::Think, message: s("ok") });
    assert_eq!(map_architect(&assistant(vec![])), SignalKind::Ignored);
    assert_eq!(map_architect(&line("assistant")), SignalKind::Ignored);
}

#[test]
fn architect_messages_are_previewed() {
    let long_cmd = "x".repeat(100);
    let sig = map_architect(&assistant(vec![tool_block("Bash", Some(&long_cmd))]));
    match sig {
        SignalKind::Activity { message: Some(m), .. } => assert_eq!(m, format!("Bash: {}", "x".repeat(60))),
        other => panic!("expected an activity, got {other:?}"),
    }
    let long_text = "y".repeat(300);
    match map_architect(&assistant(vec![text_block(&long_text)])) {
        SignalKind::Activity { message: Some(m), .. } => assert_eq!(m.chars().count(), 120),
        other => panic!("expected an activity, got {other:?}"),
    }
    assert_eq!(preview("héllo", 2), "hé");
    assert_eq!(preview("hi", 5), "hi");
}

#[test]
fn architect_result_completes_with_its_text() {
    let done = map_architect(&ArchitectLine { result: s("ok"), ..line("result") });
    assert_eq!(done, SignalKind::Completed { tokens: None, result: "ok".into() });
    let empty = map_architect(&line("result"));
    assert_eq!(empty, SignalKind::Completed { tokens: None, result: String::new() });
}

fn codex(kind: &str) -> CodexLine {
    CodexLine { kind: s(kind), item: None, usage: None }
}

#[test]
fn command_execution_is_shell() {
    let l = CodexLine {
        item: Some(CodexItem { kind: s("command_execution"), text: None, command: s("cargo test") }),
        ..codex("item.completed")
    };
    assert_eq!(map_codex(&l), SignalKind::Activity { activity: Activity::Shell, message: s("cargo test") });
}

#[test]
fn file_change_is_edit() {
    let l = CodexLine {
        item: Some(CodexItem { kind: s("file_change"), text: s("  src/x.rs "), command: None }),
        ..codex("item.completed")
    };
    assert_eq!(map_codex(&l), SignalKind::Activity { activity: Activity::Edit, message: s("src/x.rs") });
}

#[test]
fn codex_thread_turn_and_completion() {
    assert_eq!(map_codex(&codex("thread.started")), SignalKind::Spawned);
    assert_eq!(map_codex(&codex("turn.started")), SignalKind::Activity { activity: Activity::Think, message: None });
    let done = CodexLine { usage: Some(Usage { input_tokens: Some(24263), output_tokens: Some(52) }), ..codex("turn.completed") };
    assert_eq!(map_codex(&done), SignalKind::Completed { tokens: Some(24263 + 52), result: String::new() });
    assert_eq!(map_codex(&codex("turn.completed")), SignalKind::Completed { tokens: None, result: String::new() });
    assert_eq!(map_codex(&codex("error")), SignalKind::Ignored);
    assert_eq!(map_codex(&codex("item.completed")), SignalKind::Ignored);
}

#[test]
fn usage_total_handles_missing() {
    assert_eq!(usage_total_tokens(&Usage { input_tokens: None, output_tokens: None }), None);
    assert_eq!(usage_total_tokens(&Usage { input_tokens: Some(10), output_tokens: Some(5) }), Some(15));
    assert_eq!(usage_total_tokens(&Usage { input_tokens: Some(7), output_tokens: None }), Some(7));
}

fn ctx() -> EventContext<'static> {
    EventContext {
        run_id: "r1",
        operative_id: "cipher",
        operative_name: "Cipher",
        faction: Faction::Architects,
        event_id: "01J0000000000000000000000E".to_string(),
        ts: "2026-06-13T00:00:00Z".to_string(),
    }
}

#[test]
fn edit_activity_projects_to_stacks_working() {
    let sig = SignalKind::Activity { activity: Activity::Edit, message: s("editing x") };
    let e = signal_to_event(&sig, ctx()).unwrap();
    assert_eq!(e.district, District::Stacks);
    assert_eq!(e.state, OperativeState::Working);
    assert_eq!(e.message.as_deref(), Some("editing x"));
    assert_eq!(e.schema, "wagner-event.v1");
    assert_eq!(e.run_id, "r1");
    assert_eq!(e.operative_name, "Cipher");
}

#[test]
fn awaiting_input_projects_to_gate_blocked() {
    let e = signal_to_event(&SignalKind::AwaitingInput { prompt: "allow write?".into() }, ctx()).unwrap();
    assert_eq!(e.district, District::Gate);
    assert_eq!(e.state, OperativeState::Blocked);
}

#[test]
fn spawned_projects_to_oracle_idle() {
    let e = signal_to_event(&SignalKind::Spawned, ctx()).unwrap();
    assert_eq!(e.district, District::Oracle);
    assert_eq!(e.state, OperativeState::Idle);
}

#[test]
fn completed_projects_to_mirror() {
    let e = signal_to_event(&SignalKind::Completed { tokens: None, result: "done".into() }, ctx()).unwrap();
    assert_eq!(e.district, District::Mirror);
    assert_eq!(e.message.as_deref(), Some("done"));
    let quiet = signal_to_event(&SignalKind::Completed { tokens: None, result: String::new() }, ctx()).unwrap();
    assert_eq!(quiet.message, None);
}

#[test]
fn ignored_yields_no_event() {
    assert!(signal_to_event(&SignalKind::Ignored, ctx()).is_none());
}

#[test]
fn final_text_is_the_last_non_empty_result() {
    let stream = vec![
        SignalKind::Spawned,
        SignalKind::Completed { tokens: None, result: "first".into() },
        SignalKind::Completed { tokens: None, result: String::new() },
        SignalKind::Activity { activity: Activity::Think, message: None },
    ];
    assert_eq!(final_text(&stream), "first");
    assert_eq!(final_text(&vec![SignalKind::Spawned]), "");
}

#[test]
fn tool_use_maps_to_district_activity() {
    let line = r#"{"type":"assistant","message":{"content":[{"type":"tool_use","name":"Edit","input":{"file_path":"src/x.rs"}}]}}"#;
    assert!(matches!(map_architect_text(line), SignalKind::Activity { activity: Activity::Edit, .. }));
}

#[test]
fn bash_test_command_is_test_activity() {
    let line = r#"{"type":"assistant","message":{"content":[{"type":"tool_use","name":"Bash","input":{"command":"cargo test --lib"}}]}}"#;
    assert_eq!(
        map_architect_text(line),
        SignalKind::Activity { activity: Activity::Test, message: s("Bash: cargo test --lib") }
    );
}

#[test]
fn hook_and_garbage_lines_are_ignored() {
    assert_eq!(map_architect_text(r#"{"type":"system","subtype":"hook_started"}"#), SignalKind::Ignored);
    assert_eq!(map_architect_text("not json at all"), SignalKind::Ignored);
}

#[test]
fn garbage_ignored() {
    assert_eq!(map_codex_text("xyz"), Some(SignalKind::Ignored));
}

#[test]
fn raw_lines_read_into_their_shapes() {
    let a = read_architect_text(r#"{"type":"assistant","message":{"content":[{"type":"text","text":"hi"},{"type":"tool_use","name":"Read","input":{"command":7}}]}}"#);
    assert_eq!(a.kind, s("assistant"));
    assert_eq!(a.blocks, Some(vec![text_block("hi"), tool_block("Read", None)]));
    assert_eq!(read_architect_text(r#"{"type":"assistant","message":{"content":"x"}}"#).blocks, None);
    assert_eq!(read_architect_text(r#"{"type":"system","subtype":"init"}"#).subtype, s("init"));
    let c = read_codex_text(r#"{"type":"turn.completed","usage":{"input_tokens":10,"output_tokens":5}}"#);
    assert_eq!(c.usage, Some(Usage { input_tokens: Some(10), output_tokens: Some(5) }));
    assert_eq!(c.item, None);
    let i = read_codex_text(r#"{"type":"item.completed","item":{"type":"file_change","text":"src/x.rs"}}"#);
    assert_eq!(i.item, Some(CodexItem { kind: s("file_change"), text: s("src/x.rs"), command: None }));
}

#[test]
fn raw_codex_lines_map_and_overflowing_usage_is_refused() {
    assert_eq!(map_codex_text(r#"{"type":"thread.started","thread_id":"t"}"#), Some(SignalKind::Spawned));
    assert_eq!(
        map_codex_text(r#"{"type":"turn.completed","usage":{"input_tokens":24263,"output_tokens":52}}"#),
        Some(SignalKind::Completed { tokens: Some(24263 + 52), result: String::new() })
    );
    assert_eq!(
        map_codex_text(r#"{"type":"item.completed","item":{"type":"command_execution","command":"cargo test"}}"#),
        Some(SignalKind::Activity { activity: Activity::Shell, message: s("cargo test") })
    );
    let over = format!(r#"{{"type":"turn.completed","usage":{{"input_tokens":{},"output_tokens":1}}}}"#, u64::MAX);
    assert_eq!(map_codex_text(&over), None);
    let other = format!(r#"{{"type":"turn.started","usage":{{"input_tokens":{},"output_tokens":1}}}}"#, u64::MAX);
    assert_eq!(map_codex_text(&other), Some(SignalKind::Activity { activity: Activity::Think, message: None }));
    assert_eq!(map_architect_text(r#"{"type":"result","result":"ok","total_cost_usd":0.1}"#), SignalKind::Completed { tokens: None, result: "ok".into() });
}

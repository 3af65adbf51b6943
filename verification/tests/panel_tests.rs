use wagner_host::participants::{extract_panel, parse_panel};

#[test]
fn extracts_a_fenced_ui_spec_block() {
    let text = "Here is my work.\n\n```ui-spec\n{\"title\":\"T\",\"blocks\":[{\"kind\":\"text\",\"text\":\"done\"}]}\n```\nthanks";
    let v = extract_panel(text).expect("panel");
    assert_eq!(v["title"], "T");
    assert_eq!(v["blocks"][0]["kind"], "text");
}

#[test]
fn extracts_a_bare_object_with_blocks() {
    let text = "prose then {\"blocks\":[{\"kind\":\"badge\",\"label\":\"ok\"}]} trailing";
    let v = extract_panel(text).expect("panel");
    assert_eq!(v["blocks"][0]["label"], "ok");
}

#[test]
fn no_panel_when_absent_or_empty() {
    assert!(extract_panel("just a normal summary, no json").is_none());
    assert!(extract_panel("{\"blocks\":[]}").is_none(), "empty blocks");
    assert!(extract_panel("{\"notblocks\":1}").is_none());
}

#[test]
fn rejects_blocks_with_only_unknown_kinds() {
    assert!(extract_panel("{\"blocks\":[{\"kind\":\"script\",\"src\":\"x\"}]}").is_none());
}

#[test]
fn ignores_braces_inside_strings() {
    let text = "note: use {curly} braces. {\"blocks\":[{\"kind\":\"text\",\"text\":\"x\"}]}";
    let v = extract_panel(text).expect("panel");
    assert_eq!(v["blocks"][0]["text"], "x");
}

#[test]
fn a_known_block_later_in_the_list_still_makes_a_panel() {
    let v = parse_panel("  {\"blocks\":[{\"kind\":\"script\"},7,{\"kind\":\"kv\"}]}\n").expect("panel");
    assert_eq!(v["blocks"][2]["kind"], "kv");
    assert!(parse_panel("[{\"kind\":\"text\"}]").is_none());
    assert!(parse_panel("{\"blocks\":{\"kind\":\"text\"}}").is_none());
}

#[test]
fn a_fenced_block_that_is_no_panel_falls_back_to_a_bare_object() {
    let text = "```ui-spec\n{\"blocks\":[]}\n```\nthen {\"blocks\":[{\"kind\":\"list\"}]}";
    let v = extract_panel(text).expect("panel");
    assert_eq!(v["blocks"][0]["kind"], "list");
    let big = format!("{}{{\"blocks\":[{{\"kind\":\"text\"}}]}}", " ".repeat(262_144));
    assert!(extract_panel(&big).is_none());
}

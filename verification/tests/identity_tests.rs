use wagner_host::identity::{
    add_identity, add_skill, agent_source, catalog_or_default, default_catalog, is_meta_file,
    parse_identity, parse_skill, source_prefix, title_case,
};

const CODE_AUDITOR: &str = "---\nname: code-auditor\ndescription: Code quality auditor that checks SOLID principles\n---\n\n# Code Auditor Agent\n\n<role>You are the auditor.</role>\n\n## Identity\n\nYou are the **Code Quality Auditor** — you read code the way the next developer will.\n\n**Mandate:** Own code-level quality — SOLID, naming, function size — on the changed diff only.\n\n**Voice:** Blunt.\n\n## Context\n\nMore stuff.\n";

#[test]
fn parses_name_role_display_and_mandate() {
    let id = parse_identity(CODE_AUDITOR, "agents/code-auditor.md").unwrap();
    assert_eq!(id.id, "code-auditor");
    assert_eq!(id.name, "Code Quality Auditor");
    assert_eq!(id.role, "Code quality auditor that checks SOLID principles");
    assert!(id.mandate.starts_with("Own code-level quality"));
    assert!(!id.mandate.contains("Voice"), "mandate stops at its paragraph");
    assert_eq!(id.source, "agents/code-auditor.md");
}

#[test]
fn falls_back_to_title_cased_id_when_no_bold_token() {
    let md = "---\nname: test-automator\ndescription: Finds coverage gaps\n---\n\n## Identity\n\nNo bold here, just prose.\n";
    let id = parse_identity(md, "agents/test-automator.md").unwrap();
    assert_eq!(id.name, "Test Automator");
    assert_eq!(id.mandate, "No bold here, just prose.");
}

#[test]
fn rejects_files_without_name_frontmatter() {
    assert!(parse_identity("# Just a doc\n\nNo frontmatter.", "agents/ARCHITECT.md").is_none());
    assert!(parse_identity("---\ndescription: x\n---\nbody", "x.md").is_none());
}

#[test]
fn mandate_falls_back_to_description_without_identity_block() {
    let md = "---\nname: lonely\ndescription: A solo role\n---\n\n# Lonely\n\nNo identity section.\n";
    let id = parse_identity(md, "agents/lonely.md").unwrap();
    assert_eq!(id.mandate, "A solo role");
}

#[test]
fn quoted_values_and_crlf_frontmatter_parse() {
    let md = "---\r\nname: \"quoted-id\"\r\ndescription: 'A role'\r\n---\r\nbody";
    let id = parse_identity(md, "s").unwrap();
    assert_eq!(id.id, "quoted-id");
    assert_eq!(id.role, "A role");
    assert_eq!(id.name, "Quoted Id");
}

#[test]
fn title_case_splits_on_dashes_and_underscores() {
    assert_eq!(title_case("code-auditor"), "Code Auditor");
    assert_eq!(title_case("a__b-c"), "A B C");
    assert_eq!(title_case(""), "");
}

#[test]
fn skill_ref_has_correct_command_and_no_codename() {
    let text = "---\nname: check-rust\ndescription: Scan Rust for non-idiomatic patterns.\n---\n# body\n";
    let skill = parse_skill(text, "skills/check-rust/SKILL.md", "repo").unwrap();
    assert_eq!(skill.command, "/check-rust");
    assert_eq!(skill.name, "Check Rust");
    assert_eq!(skill.description, "Scan Rust for non-idiomatic patterns.");
    assert_eq!(skill.origin, "repo");
    assert!(parse_skill("---\nname:\n---\n", "s", "repo").is_none());
}

#[test]
fn first_identity_of_an_id_wins_and_meta_docs_are_skipped() {
    let mut out = Vec::new();
    add_identity(&mut out, parse_identity(CODE_AUDITOR, "one").unwrap());
    add_identity(&mut out, parse_identity(CODE_AUDITOR, "two").unwrap());
    assert_eq!(out.len(), 1);
    assert_eq!(out[0].source, "one");
    assert!(is_meta_file("ARCHITECT.md", "ARCHITECT.md"));
    assert!(!is_meta_file("debugger.md", "ARCHITECT.md"));
    assert_eq!(agent_source(&source_prefix("repo", "agents"), "a.md"), "agents/a.md");
    assert_eq!(source_prefix("global", "agents"), "global:agents");
}

#[test]
fn empty_catalog_falls_back_to_builtin() {
    let cat = catalog_or_default(vec![]);
    assert_eq!(cat, default_catalog());
    assert_eq!(cat.len(), 2);
    assert!(cat.iter().any(|i| i.id == "cipher"));
    assert!(cat.iter().any(|i| i.id == "vex"));
}

#[test]
fn first_skill_root_wins() {
    let mut out = Vec::new();
    add_skill(&mut out, parse_skill("---\nname: tdd\ndescription: From repo.\n---\n", "a", "repo").unwrap());
    add_skill(&mut out, parse_skill("---\nname: tdd\ndescription: From global.\n---\n", "b", "global").unwrap());
    assert_eq!(out.len(), 1);
    assert_eq!(out[0].origin, "repo");
}

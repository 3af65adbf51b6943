use wagner_host::memory::{
    append_related, derive_title, memory_markdown, note_title, recall_block, records_in_order, slug,
    template_record, tiered_matches, MemoryRecord, RelationWalk, TieredResult,
};

#[test]
fn slug_is_kebab_and_trimmed() {
    assert_eq!(slug("  Full Pipeline! "), "full-pipeline");
    assert_eq!(slug("Standard"), "standard");
    assert_eq!(slug("a__b  c"), "a-b-c");
}

#[test]
fn markdown_projection_has_frontmatter_and_body() {
    let rec = MemoryRecord {
        uid: "01ULID".into(),
        user_id: "me".into(),
        project_id: "proj".into(),
        text: "prefer struct params".into(),
        tags: vec!["style".into(), "rust".into()],
        created_at: "2026-06-13T00:00:00Z".into(),
        curation_state: "auto".into(),
        source_type: String::new(),
        source_ref: String::new(),
        ..Default::default()
    };
    let md = memory_markdown(&rec);
    assert!(md.starts_with("---\n"));
    assert!(md.contains("tags: [\"style\", \"rust\"]"));
    assert!(md.contains("project: \"proj\""));
    assert!(md.trim_end().ends_with("prefer struct params"));
}

#[test]
fn markdown_emits_vault_fields_when_set_and_omits_when_empty() {
    let mut rec = MemoryRecord {
        uid: "u".into(),
        user_id: "me".into(),
        project_id: "proj".into(),
        text: "body".into(),
        created_at: "2026-06-17T00:00:00Z".into(),
        curation_state: "captured".into(),
        ..Default::default()
    };
    let bare = memory_markdown(&rec);
    assert!(!bare.contains("summary:"));
    assert!(!bare.contains("tier:"));

    rec.summary = "prefers struct params over many args".into();
    rec.tier = "core".into();
    rec.lifecycle = "reviewed".into();
    rec.provenance = "extracted".into();
    let md = memory_markdown(&rec);
    assert!(md.contains("summary: \"prefers struct params over many args\""));
    assert!(md.contains("tier: \"core\""));
    assert!(md.contains("lifecycle: \"reviewed\""));
    assert!(md.contains("provenance: \"extracted\""));
    assert_eq!(md.matches("\n---\n").count(), 1);
}

#[test]
fn markdown_frontmatter_is_injection_safe() {
    let rec = MemoryRecord {
        uid: "u".into(),
        user_id: "me".into(),
        project_id: "/tmp/p: evil\n---\ninjected: true".into(),
        text: "body".into(),
        tags: vec!["a\nb".into()],
        created_at: "2026-06-13T00:00:00Z".into(),
        curation_state: "auto".into(),
        source_type: String::new(),
        source_ref: String::new(),
        ..Default::default()
    };
    let md = memory_markdown(&rec);
    assert_eq!(md.matches("\n---\n").count(), 1);
    assert!(!md.contains("\ninjected:"));
    assert!(md.contains("project: \"/tmp/p: evil --- injected: true\""));
}

#[test]
fn markdown_projection_exact_layout() {
    let rec = MemoryRecord {
        uid: "u1".into(),
        project_id: "p".into(),
        text: "say \"hi\"".into(),
        created_at: "t".into(),
        curation_state: "auto".into(),
        tier: "core".into(),
        ..Default::default()
    };
    assert_eq!(
        memory_markdown(&rec),
        "---\nuid: \"u1\"\nproject: \"p\"\ntags: []\ncreated: \"t\"\ncuration: \"auto\"\ntier: \"core\"\n---\n\nsay \"hi\"\n"
    );
}

#[test]
fn titles_come_from_the_first_non_blank_line() {
    assert_eq!(derive_title("\n  \n## Prefer struct params \nmore"), "Prefer struct params");
    assert_eq!(derive_title("   "), "");
    let long = "x".repeat(100);
    assert_eq!(derive_title(&long).chars().count(), 80);
    assert_eq!(note_title("  Given  ", "body"), "Given");
    assert_eq!(note_title("  ", "# From body\n"), "From body");
}

#[test]
fn unusable_template_names_are_rejected() {
    assert!(template_record("!!!", "d", "{}".into(), vec![], "me".into(), None, "now").is_err());
    let t = template_record("Full Pipeline", "d", "{}".into(), vec![], "me".into(), Some("then".into()), "now").unwrap();
    assert_eq!(t.uid, "full-pipeline");
    assert_eq!(t.created_at, "then");
    assert_eq!(t.updated_at, "now");
}

fn note(uid: &str, summary: &str, text: &str) -> MemoryRecord {
    MemoryRecord { uid: uid.into(), summary: summary.into(), text: text.into(), ..Default::default() }
}

#[test]
fn tiered_matches_order_summary_then_section_then_full_and_dedup() {
    let long_tail = format!("{}needle", "x".repeat(400));
    let notes = vec![
        note("full", "", &long_tail),
        note("section", "", "the NEEDLE is near the start"),
        note("summary", "a needle summary", "needle also in body"),
    ];
    let hits = tiered_matches(&notes, "Needle", 10);
    let tags: Vec<(&str, &str)> = hits
        .iter()
        .map(|h| match h {
            TieredResult::Summary(r) => ("summary", r.uid.as_str()),
            TieredResult::Section(r) => ("section", r.uid.as_str()),
            TieredResult::Full(r) => ("full", r.uid.as_str()),
            TieredResult::Related(r) => ("related", r.uid.as_str()),
        })
        .collect();
    assert_eq!(tags, vec![("summary", "summary"), ("section", "section"), ("full", "full")]);
    assert_eq!(tiered_matches(&notes, "needle", 1).len(), 1);
    assert!(tiered_matches(&notes, "", 10).is_empty());
}

#[test]
fn related_notes_append_unless_already_matched() {
    let mut out = vec![TieredResult::Summary(note("a", "", ""))];
    append_related(&mut out, &vec!["a".to_string()], vec![note("a", "", ""), note("b", "", "")]);
    assert_eq!(out.len(), 2);
    assert_eq!(out[1], TieredResult::Related(note("b", "", "")));
    assert_eq!(out[1].record().uid, "b");
}

#[test]
fn relation_walk_never_revisits_and_excludes_seeds() {
    let mut w = RelationWalk::new(&vec!["a".to_string()]);
    assert!(w.should_continue(0, 2));
    w.hop(&vec!["b".into(), "a".into(), "b".into(), "c".into()]);
    assert_eq!(w.frontier, vec!["b".to_string(), "c".to_string()]);
    w.hop(&vec!["a".into(), "c".into(), "d".into()]);
    assert_eq!(w.reached, vec!["b".to_string(), "c".to_string(), "d".to_string()]);
    assert!(!w.should_continue(2, 2));
    w.hop(&vec![]);
    assert!(!w.should_continue(0, 5));
}

#[test]
fn records_follow_the_uid_order() {
    let recs = vec![note("x", "", "1"), note("y", "", "2")];
    let out = records_in_order(&vec!["y".into(), "missing".into(), "x".into()], &recs);
    assert_eq!(out.iter().map(|r| r.uid.as_str()).collect::<Vec<_>>(), vec!["y", "x"]);
}

#[test]
fn recall_block_lists_learnings() {
    assert_eq!(recall_block(&vec![]), None);
    let b = recall_block(&vec![note("1", "", "first"), note("2", "", "second")]).unwrap();
    assert_eq!(b, "PRIOR LEARNINGS (from earlier runs):\n- first\n- second");
}

#[test]
fn slug_has_the_slug_shape_and_is_idempotent() {
    for name in ["  Full Pipeline! ", "--a--b--", "Ünïcode Name 42", "x", "!!", "", "a - - b"] {
        let s = slug(name);
        assert!(s.chars().all(|c| c.is_ascii_alphanumeric() || c == '-'), "{s}");
        assert!(!s.starts_with('-') && !s.ends_with('-') && !s.contains("--"), "{s}");
        assert_eq!(slug(&s), s);
    }
    assert_eq!(slug("--a--b--"), "a-b");
}

#[test]
fn slug_is_empty_exactly_without_letters_or_digits() {
    assert_eq!(slug("!! -- ??"), "");
    assert_eq!(slug("   "), "");
    assert_eq!(slug("?7?"), "7");
}

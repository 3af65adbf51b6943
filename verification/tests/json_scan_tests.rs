use wagner_host::json_scan::{balanced_objects, first_balanced_object};

#[test]
fn finds_object_amid_prose() {
    let s = "here is the plan:\n```json\n{\"a\": 1}\n```\nthanks";
    assert_eq!(first_balanced_object(s), Some("{\"a\": 1}"));
}

#[test]
fn braces_inside_strings_are_not_delimiters() {
    let s = r#"{"k": "a } b { c"}"#;
    assert_eq!(balanced_objects(s), vec![s]);
}

#[test]
fn returns_every_top_level_object() {
    let s = "{\"a\":1} noise {\"b\":2}";
    assert_eq!(balanced_objects(s), vec!["{\"a\":1}", "{\"b\":2}"]);
}

#[test]
fn none_when_no_object() {
    assert_eq!(first_balanced_object("no json here"), None);
}

#[test]
fn nested_objects_are_one_top_level_object() {
    let s = "x {\"a\":{\"b\":{}}} y";
    assert_eq!(balanced_objects(s), vec!["{\"a\":{\"b\":{}}}"]);
}

#[test]
fn escaped_quote_does_not_end_a_string() {
    let s = r#"{"k": "a \" } b"}"#;
    assert_eq!(balanced_objects(s), vec![s]);
}

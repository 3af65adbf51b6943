use wagner_host::schema::{validate, SchemaError};

const SCHEMA: &str = "{\"type\":\"object\",\"required\":[\"name\",\"size\"],\"properties\":{\"name\":{\"type\":\"string\"},\"size\":{\"type\":\"integer\"}}}";

fn value(text: &str) -> serde_json::Value {
    serde_json::from_str(text).unwrap()
}

#[test]
fn a_conforming_payload_passes() {
    assert!(validate(SCHEMA, &value("{\"name\":\"a\",\"size\":3}")).is_ok());
}

#[test]
fn a_schema_that_is_not_json_is_invalid() {
    match validate("{not json", &value("{}")) {
        Err(SchemaError::InvalidSchema(m)) => assert!(!m.is_empty()),
        _ => panic!("expected InvalidSchema"),
    }
}

#[test]
fn a_schema_that_does_not_compile_is_invalid() {
    match validate("{\"type\":\"no-such-type\"}", &value("{}")) {
        Err(SchemaError::InvalidSchema(_)) => {}
        _ => panic!("expected InvalidSchema"),
    }
}

#[test]
fn every_finding_is_reported_joined() {
    match validate(SCHEMA, &value("{\"size\":\"big\"}")) {
        Err(SchemaError::ValidationFailed(m)) => {
            assert!(m.contains("name"), "{m}");
            assert!(m.contains("; "), "two findings are joined: {m}");
        }
        _ => panic!("expected ValidationFailed"),
    }
}

#[test]
fn a_self_referencing_schema_is_refused_before_validation() {
    match validate("{\"$ref\":\"#\"}", &value("{}")) {
        Err(SchemaError::UnsupportedReference) => {}
        _ => panic!("expected UnsupportedReference"),
    }
}

#[test]
fn a_reference_spelled_with_an_escape_is_still_a_reference() {
    assert!(matches!(validate("{\"\\u0024ref\":\"#\"}", &value("{}")), Err(SchemaError::UnsupportedReference)));
}

#[test]
fn acyclic_references_are_followed() {
    let schema = "{\"$ref\":\"#/$defs/a\",\"$defs\":{\"a\":{\"type\":\"object\",\"required\":[\"name\"]}}}";
    assert!(validate(schema, &value("{\"name\":1}")).is_ok());
    match validate(schema, &value("{}")) {
        Err(SchemaError::ValidationFailed(m)) => assert!(m.contains("name"), "{m}"),
        _ => panic!("expected ValidationFailed"),
    }
    let chained = "{\"$id\":\"https://example.test/s.json\",\"properties\":{\"a\":{\"$ref\":\"#/definitions/b\"}},\"definitions\":{\"b\":{\"$ref\":\"#/definitions/c\"},\"c\":{\"type\":\"string\"}}}";
    assert!(validate(chained, &value("{\"a\":\"x\"}")).is_ok());
    assert!(matches!(validate(chained, &value("{\"a\":1}")), Err(SchemaError::ValidationFailed(_))));
}

#[test]
fn references_that_lead_back_are_not_accepted() {
    let two = "{\"definitions\":{\"a\":{\"$ref\":\"#/definitions/b\"},\"b\":{\"allOf\":[{\"$ref\":\"#/definitions/a\"}]}},\"$ref\":\"#/definitions/a\"}";
    assert!(matches!(validate(two, &value("{}")), Err(SchemaError::UnsupportedReference)));
    let tree = "{\"properties\":{\"children\":{\"items\":{\"$ref\":\"#\"}}}}";
    assert!(matches!(validate(tree, &value("{}")), Err(SchemaError::UnsupportedReference)));
    let remote = "{\"$ref\":\"other.json#/a\"}";
    assert!(matches!(validate(remote, &value("{}")), Err(SchemaError::UnsupportedReference)));
}

#[test]
fn a_valid_payload_gives_no_findings_and_an_invalid_one_every_finding() {
    assert!(validate(SCHEMA, &value("{\"name\":\"x\",\"size\":1}")).is_ok());
    match validate(SCHEMA, &value("{}")) {
        Err(SchemaError::ValidationFailed(m)) => assert_eq!(m.matches("; ").count(), 1, "{m}"),
        _ => panic!("expected ValidationFailed"),
    }
}

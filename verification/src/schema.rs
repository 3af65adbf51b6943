//! JSON-Schema validation of payloads: the schema text is parsed and compiled
//! with `jsonschema`, the instance checked against it, and every finding joined
//! into one message.

use vstd::prelude::*;
use crate::json_value::{parse_json, spec_json_parse_error, spec_json_value};
use crate::schema_refs::{references_safe, schema_references_safe};
use crate::text::{append_str, join, join_seq, string_of};

verus! {

/// Why a payload was refused.
pub enum SchemaError {
    /// The schema text is not JSON, or not a schema that compiles.
    InvalidSchema(String),
    /// The payload broke the schema; every finding, joined by `"; "`.
    ValidationFailed(String),
    /// The schema's references may form a cycle (see `references_safe`); such
    /// a schema is not accepted, since a reference chain that returns to itself
    /// makes the validator recurse without end.
    UnsupportedReference,
}

/// The text a refusal is reported with.
pub open spec fn schema_error_message(e: SchemaError) -> Seq<char> {
    match e {
        SchemaError::InvalidSchema(m) => "schema is not valid JSON: "@ + m@,
        SchemaError::ValidationFailed(m) => "payload failed validation: "@ + m@,
        SchemaError::UnsupportedReference => "schema references may form a cycle, which is not accepted"@,
    }
}

impl SchemaError {
    /// The text this refusal is reported with.
    pub fn message(&self) -> (r: String)
        ensures
            r@ == schema_error_message(*self),
    {
        let mut v: Vec<char> = Vec::new();
        match self {
            SchemaError::InvalidSchema(m) => {
                append_str(&mut v, "schema is not valid JSON: ");
                append_str(&mut v, m.as_str());
            },
            SchemaError::ValidationFailed(m) => {
                append_str(&mut v, "payload failed validation: ");
                append_str(&mut v, m.as_str());
            },
            SchemaError::UnsupportedReference => {
                append_str(&mut v, "schema references may form a cycle, which is not accepted");
            },
        }
        string_of(&v)
    }
}

/// The message `jsonschema::JSONSchema::compile` reports for a schema value,
/// or `None` when it compiles.
pub uninterp spec fn spec_schema_compile_error(schema: serde_json::Value) -> Option<Seq<char>>;

/// For a schema value that compiles, the messages of every error
/// `jsonschema::JSONSchema::validate` reports for `instance`, in its order
/// (empty when the instance is valid).
pub uninterp spec fn spec_instance_findings(schema: serde_json::Value, instance: serde_json::Value) -> Seq<Seq<char>>;

/// How validating against a schema text ends, in plain values.
pub enum ValidationView {
    Passed,
    Invalid(Seq<char>),
    Unsupported,
    Failed(Seq<char>),
}

/// How validating `instance` against the schema in `text` ends: a text that is
/// not JSON is invalid with the parser's message; a schema whose references
/// may form a cycle is not accepted; a schema that does not compile is invalid
/// with the compiler's message; otherwise the instance passes when there are
/// no findings, and fails with all findings joined by `"; "`.
pub open spec fn validation_view(text: Seq<char>, instance: serde_json::Value) -> ValidationView {
    match spec_json_parse_error(text) {
        Some(m) => ValidationView::Invalid(m),
        None => {
            let v = spec_json_value(text);
            if !references_safe(v) {
                ValidationView::Unsupported
            } else {
                match spec_schema_compile_error(v) {
                    Some(m) => ValidationView::Invalid(m),
                    None => {
                        let f = spec_instance_findings(v, instance);
                        if f.len() == 0 {
                            ValidationView::Passed
                        } else {
                            ValidationView::Failed(join_seq(f, "; "@))
                        }
                    },
                }
            }
        },
    }
}

/// The plain view of a validation result.
pub open spec fn result_view(r: Result<(), SchemaError>) -> ValidationView {
    match r {
        Ok(()) => ValidationView::Passed,
        Err(SchemaError::InvalidSchema(m)) => ValidationView::Invalid(m@),
        Err(SchemaError::UnsupportedReference) => ValidationView::Unsupported,
        Err(SchemaError::ValidationFailed(m)) => ValidationView::Failed(m@),
    }
}

/// Compiles a schema value with `jsonschema::JSONSchema::compile` and checks
/// `instance` with `JSONSchema::validate`, giving the messages of all its
/// errors. Claimed: a compile failure is reported with its message; otherwise
/// the findings depend on the two values alone. A `$ref` is resolved lazily
/// and without a depth limit (`keywords/ref_.rs`; also while compiling, under
/// `unevaluatedProperties`), so a schema whose references lead back to
/// themselves does not return; `requires` admits only schemas whose
/// references are plain pointers into the schema that form no cycle, with no
/// nested identifier changing where they resolve (see `references_safe`).
#[verifier::external_body]
fn schema_findings(schema: &serde_json::Value, instance: &serde_json::Value) -> (r: Result<Vec<String>, String>)
    requires
        references_safe(*schema),
    ensures
        match r {
            Ok(f) => spec_schema_compile_error(*schema) is None && f@.map_values(|s: String| s@)
                == spec_instance_findings(*schema, *instance),
            Err(m) => spec_schema_compile_error(*schema) == Some(m@),
        },
{
    let compiled = match jsonschema::JSONSchema::compile(schema) {
        Ok(c) => c,
        Err(e) => return Err(e.to_string()),
    };
    let findings: Vec<String> = match compiled.validate(instance) {
        Ok(()) => Vec::new(),
        Err(errors) => errors.map(|e| e.to_string()).collect(),
    };
    Ok(findings)
}

/// Validates `instance` against the schema in `schema_src`.
///
/// A text that is not JSON is refused as invalid with the parser's message; a
/// schema whose references may form a cycle is not accepted; a schema that
/// does not compile is refused as invalid with the compiler's message; a
/// compiled schema passes the payload when the validator reports nothing, and
/// fails it with all findings joined by `"; "`.
pub fn validate(schema_src: &str, instance: &serde_json::Value) -> (r: Result<(), SchemaError>)
    ensures
        result_view(r) == validation_view(schema_src@, *instance),
{
    let schema = match parse_json(schema_src) {
        Ok(v) => v,
        Err(m) => {
            return Err(SchemaError::InvalidSchema(m));
        },
    };
    if !schema_references_safe(&schema) {
        return Err(SchemaError::UnsupportedReference);
    }
    let errors = match schema_findings(&schema, instance) {
        Ok(f) => f,
        Err(m) => {
            return Err(SchemaError::InvalidSchema(m));
        },
    };
    if errors.len() == 0 {
        return Ok(());
    }
    let msg = join(&errors, "; ");
    Err(SchemaError::ValidationFailed(msg))
}

} // verus!

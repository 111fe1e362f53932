//! Domain JSON Schema checks (draft 2020-12), performed by `jsonschema` on the compact
//! text of the schema and of the instance.

use vstd::prelude::*;

verus! {

#[verifier::external_type_specification]
#[verifier::external_body]
pub struct ExValidator(jsonschema::Validator);

/// A domain schema compiled for validation, with the text it was compiled from.
pub struct CompiledSchema {
    source: String,
    validator: jsonschema::Validator,
}

impl CompiledSchema {
    /// The schema text this validator was compiled from.
    pub closed spec fn source(&self) -> Seq<char> {
        self.source@
    }
}

/// Why the schema text cannot be compiled into a draft 2020-12 validator, if it cannot.
pub uninterp spec fn schema_fault(schema_text: Seq<char>) -> Option<Seq<char>>;

/// The violations of the instance against the schema, each as (instance path, message),
/// in the order the validator reports them.
pub uninterp spec fn schema_violations(schema_text: Seq<char>, instance_text: Seq<char>) -> Seq<(Seq<char>, Seq<char>)>;

/// Parses the schema text and calls `jsonschema::ValidationOptions::build` with draft
/// 2020-12. The contract names the outcome as a function of the text: a compiled schema
/// remembering the text, or the message of the error.
#[verifier::external_body]
pub(crate) fn compile_schema(schema_text: &str) -> (r: Result<CompiledSchema, String>)
    ensures
        match r {
            Ok(c) => schema_fault(schema_text@) is None && c.source() == schema_text@,
            Err(m) => schema_fault(schema_text@) == Some(m@),
        },
{
    let schema: serde_json::Value = match serde_json::from_str(schema_text) {
        Ok(v) => v,
        Err(e) => return Err(e.to_string()),
    };
    match jsonschema::Validator::options().with_draft(jsonschema::Draft::Draft202012).build(&schema) {
        Ok(validator) => Ok(CompiledSchema { source: schema_text.to_string(), validator }),
        Err(e) => Err(e.to_string()),
    }
}

/// Parses the instance text and calls `jsonschema::Validator::iter_errors`, turning
/// each error into its instance path and message. The contract names the list as a
/// function of the schema text and the instance text.
#[verifier::external_body]
pub(crate) fn violations(schema: &CompiledSchema, instance_text: &str) -> (r: Vec<(String, String)>)
    ensures
        r@.map_values(|p: (String, String)| (p.0@, p.1@)) == schema_violations(schema.source(), instance_text@),
{
    let instance: serde_json::Value = match serde_json::from_str(instance_text) {
        Ok(v) => v,
        Err(e) => return vec![(String::new(), e.to_string())],
    };
    schema.validator.iter_errors(&instance).map(|e| (e.instance_path.to_string(), e.to_string())).collect()
}

} // verus!

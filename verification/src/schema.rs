//! JSON Schema validation of project records. The schema and the record are
//! handed over as JSON text; what `jsonschema` reports is named, and what the
//! library does with the report is verified.
use vstd::prelude::*;
use crate::text::{join_texts, joined_with, text_views};

verus! {

/// What `jsonschema` reports for a JSON instance against a JSON schema, with
/// the draft's own format handling: each violation as `path: message`, in the
/// validator's order; or why no validator or instance could be had.
pub uninterp spec fn schema_errors(schema: Seq<char>, instance: Seq<char>) -> Result<Seq<Seq<char>>, Seq<char>>;

/// The same report with `format` keywords always validated.
pub uninterp spec fn schema_errors_with_formats(schema: Seq<char>, instance: Seq<char>) -> Result<Seq<Seq<char>>, Seq<char>>;

pub open spec fn report_view(r: Result<Vec<String>, String>) -> Result<Seq<Seq<char>>, Seq<char>> {
    match r {
        Ok(v) => Ok(text_views(v@)),
        Err(m) => Err(m@),
    }
}

/// `jsonschema::validator_for` on the parsed schema, then `iter_errors` on
/// the parsed instance, each error written as its instance path, `: ` and its
/// message. The contract names the result: it depends on the two texts only,
/// since remote references cannot be resolved in this build.
#[verifier::external_body]
fn validate_default(schema: &str, instance: &str) -> (r: Result<Vec<String>, String>)
    ensures
        report_view(r) == schema_errors(schema@, instance@),
{
    let schema: serde_json::Value = serde_json::from_str(schema).map_err(|e| e.to_string())?;
    let instance: serde_json::Value = serde_json::from_str(instance).map_err(|e| e.to_string())?;
    let validator = jsonschema::validator_for(&schema).map_err(|e| e.to_string())?;
    Ok(validator.iter_errors(&instance).map(|e| format!("{}: {e}", e.instance_path())).collect())
}

/// `jsonschema::options().should_validate_formats(true).build` on the parsed
/// schema, then `iter_errors` as above; the contract names the result.
#[verifier::external_body]
fn validate_with_formats(schema: &str, instance: &str) -> (r: Result<Vec<String>, String>)
    ensures
        report_view(r) == schema_errors_with_formats(schema@, instance@),
{
    let schema: serde_json::Value = serde_json::from_str(schema).map_err(|e| e.to_string())?;
    let instance: serde_json::Value = serde_json::from_str(instance).map_err(|e| e.to_string())?;
    let validator = jsonschema::options().should_validate_formats(true).build(&schema).map_err(|e| e.to_string())?;
    Ok(validator.iter_errors(&instance).map(|e| format!("{}: {e}", e.instance_path())).collect())
}

/// Why a schema report refuses an instance: no validator, or every violation
/// joined by `; `; nothing when there is no violation.
pub open spec fn schema_refusal(report: Result<Seq<Seq<char>>, Seq<char>>) -> Option<Result<Seq<char>, Seq<char>>> {
    match report {
        Err(m) => Some(Err(m)),
        Ok(v) => if v.len() == 0 { None } else { Some(Ok(joined_with(v, "; "@))) },
    }
}

/// Whether a schema report refuses the instance. `Err(Err(m))`: no validator
/// or instance could be had; `Err(Ok(m))`: the violations, joined.
pub fn refusal_of(report: Result<Vec<String>, String>) -> (r: Result<(), Result<String, String>>)
    ensures
        match schema_refusal(report_view(report)) {
            None => r is Ok,
            Some(Err(m)) => r matches Err(Err(x)) && x@ == m,
            Some(Ok(m)) => r matches Err(Ok(x)) && x@ == m,
        },
{
    proof { reveal_strlit("; "); }
    match report {
        Err(m) => Err(Err(m)),
        Ok(v) => if v.len() == 0 { Ok(()) } else { Err(Ok(join_texts(&v, "; "))) },
    }
}

/// Checks an instance against a schema, formats as the schema's draft has
/// them (see `schema_refusal`).
pub fn check_schema(schema: &str, instance: &str) -> (r: Result<(), Result<String, String>>)
    ensures
        match schema_refusal(schema_errors(schema@, instance@)) {
            None => r is Ok,
            Some(Err(m)) => r matches Err(Err(x)) && x@ == m,
            Some(Ok(m)) => r matches Err(Ok(x)) && x@ == m,
        },
{
    refusal_of(validate_default(schema, instance))
}

/// Checks an instance against a schema, formats always validated.
pub fn check_schema_with_formats(schema: &str, instance: &str) -> (r: Result<(), Result<String, String>>)
    ensures
        match schema_refusal(schema_errors_with_formats(schema@, instance@)) {
            None => r is Ok,
            Some(Err(m)) => r matches Err(Err(x)) && x@ == m,
            Some(Ok(m)) => r matches Err(Ok(x)) && x@ == m,
        },
{
    refusal_of(validate_with_formats(schema, instance))
}

} // verus!

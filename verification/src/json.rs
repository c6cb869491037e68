//! Trusted probes into the delta document. A delta arrives as a parsed
//! `serde_json::Value`, opaque to verification; what the reconcilers read
//! from it is named by uninterpreted spec functions, and a thin wrapper per
//! probe carries the actual lookup.

use vstd::prelude::*;
use serde_json::Value;

verus! {

#[verifier::external_type_specification]
#[verifier::external_body]
pub struct ExValue(Value);

/// The string value a JSON-pointer path resolves to inside the document,
/// or `None` when the path is missing or does not lead to a string. A pure
/// function of the document and the path.
pub uninterp spec fn json_str_at(v: Value, path: Seq<char>) -> Option<Seq<char>>;

/// The `compound` string of the last element of the document's `stints`
/// array, or `None` when absent or not a string.
pub uninterp spec fn json_last_stint_compound(v: Value) -> Option<Seq<char>>;

/// The `totalLaps` integer of the last element of the document's `stints`
/// array, or `None` when absent or not an integer.
pub uninterp spec fn json_last_stint_laps(v: Value) -> Option<i64>;

/// `json_str_at` lifted over an optional document: an absent document has
/// no fields.
pub open spec fn probe(update: Option<&Value>, path: Seq<char>) -> Option<Seq<char>> {
    match update {
        Some(v) => json_str_at(*v, path),
        None => None,
    }
}

/// `json_last_stint_compound` lifted over an optional document.
pub open spec fn probe_stint_compound(update: Option<&Value>) -> Option<Seq<char>> {
    match update {
        Some(v) => json_last_stint_compound(*v),
        None => None,
    }
}

/// `json_last_stint_laps` lifted over an optional document.
pub open spec fn probe_stint_laps(update: Option<&Value>) -> Option<i64> {
    match update {
        Some(v) => json_last_stint_laps(*v),
        None => None,
    }
}

/// Relies on serde_json's `Value::pointer` and `Value::as_str`: resolves a
/// JSON-pointer path inside the document and yields the string found
/// there, or `None` when the path is missing or the value there is not a
/// string. Both are pure lookups on the document.
#[verifier::external_body]
pub(crate) fn str_pointer(update: Option<&Value>, pointer: &str) -> (r: Option<String>)
    ensures
        match (update, r) {
            (Some(v), Some(s)) => json_str_at(*v, pointer@) == Some(s@),
            (Some(v), None) => json_str_at(*v, pointer@) is None,
            (None, None) => true,
            (None, Some(_)) => false,
        },
{
    update.and_then(|v| v.pointer(pointer)).and_then(|v| v.as_str()).map(|s| s.to_string())
}

/// Relies on serde_json's `Value::pointer`, `Value::as_array`, `Value::get`
/// and `Value::as_str`: the `compound` string of the last element of the
/// document's `stints` array, if any. All are pure lookups on the document.
#[verifier::external_body]
pub(crate) fn last_stint_compound(update: Option<&Value>) -> (r: Option<String>)
    ensures
        match (update, r) {
            (Some(v), Some(s)) => json_last_stint_compound(*v) == Some(s@),
            (Some(v), None) => json_last_stint_compound(*v) is None,
            (None, None) => true,
            (None, Some(_)) => false,
        },
{
    update
        .and_then(|v| v.pointer("/stints"))
        .and_then(|v| v.as_array())
        .and_then(|a| a.last())
        .and_then(|s| s.get("compound"))
        .and_then(|v| v.as_str())
        .map(|s| s.to_string())
}

/// Relies on serde_json's `Value::pointer`, `Value::as_array`, `Value::get`
/// and `Value::as_i64`: the `totalLaps` integer of the last element of the
/// document's `stints` array, if any. All are pure lookups on the document.
#[verifier::external_body]
pub(crate) fn last_stint_laps(update: Option<&Value>) -> (r: Option<i64>)
    ensures
        match update {
            Some(v) => r == json_last_stint_laps(*v),
            None => r is None,
        },
{
    update
        .and_then(|v| v.pointer("/stints"))
        .and_then(|v| v.as_array())
        .and_then(|a| a.last())
        .and_then(|s| s.get("totalLaps"))
        .and_then(|v| v.as_i64())
}

} // verus!

//! JSON text, through `serde_json`.
use vstd::prelude::*;

verus! {

/// A JSON document held by `serde_json`; opaque here.
#[verifier::external_type_specification]
#[verifier::external_body]
pub struct ExJsonValue(serde_json::Value);

/// The error `serde_json` reports; opaque here.
#[verifier::external_type_specification]
#[verifier::external_body]
pub struct ExJsonError(serde_json::Error);

/// Whether `serde_json` reads `text` as one JSON document.
pub uninterp spec fn json_text_parses(text: Seq<char>) -> bool;

/// Calls `serde_json::from_str::<serde_json::Value>` and reports whether it
/// succeeded; the answer is `json_text_parses` of the text, which depends on
/// the text alone.
#[verifier::external_body]
pub(crate) fn parses_as_json(text: &String) -> (b: bool)
    ensures
        b == json_text_parses(text@),
{
    serde_json::from_str::<serde_json::Value>(text).is_ok()
}

/// The JSON text that `serde_json` writes for a value.
pub uninterp spec fn json_value_text(value: serde_json::Value) -> Seq<char>;

/// Calls `serde_json::to_string` on a JSON value. Writing a `Value` always
/// succeeds; the text is `json_value_text` of the value, which depends on the
/// value alone.
#[verifier::external_body]
pub(crate) fn value_to_json_text(value: &serde_json::Value) -> (r: Result<String, serde_json::Error>)
    ensures
        r is Ok,
        r->Ok_0@ == json_value_text(*value),
{
    serde_json::to_string(value)
}

} // verus!

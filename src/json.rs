//! The JSON documents that requests arrive in, read through serde_json.
use vstd::prelude::*;

verus! {

#[verifier::external_type_specification]
#[verifier::external_body]
pub struct ExJsonValue(serde_json::Value);

#[verifier::external_type_specification]
#[verifier::external_body]
pub struct ExJsonError(serde_json::Error);

/// The JSON document that a text holds, or `None` where the text is not one
/// well-formed JSON document.
pub uninterp spec fn json_document(b: Seq<u8>) -> Option<serde_json::Value>;

/// The error that reading a text which is not a JSON document gives.
pub uninterp spec fn json_error(b: Seq<u8>) -> serde_json::Error;

/// The description of a JSON error, with its line and column.
pub uninterp spec fn json_error_text(e: serde_json::Error) -> Seq<char>;

/// Whether a JSON value is an object.
pub uninterp spec fn json_is_object(v: serde_json::Value) -> bool;

/// The member of a JSON object under a key; `None` where the key is absent or
/// the value is not an object.
pub uninterp spec fn json_member(v: serde_json::Value, key: Seq<char>) -> Option<serde_json::Value>;

/// The characters of a JSON string; `None` where the value is not a string.
pub uninterp spec fn json_text(v: serde_json::Value) -> Option<Seq<char>>;

/// The text of the member under `key`, where it is present and a JSON string.
pub open spec fn member_text(doc: serde_json::Value, key: Seq<char>) -> Option<Seq<char>> {
    match json_member(doc, key) {
        Some(m) => json_text(m),
        None => None,
    }
}

/// Relies on serde_json::from_slice into a `serde_json::Value`: it accepts
/// exactly one well-formed JSON document, surrounded by whitespace only.
#[verifier::external_body]
pub(crate) fn parse_document(b: &[u8]) -> (r: Result<serde_json::Value, serde_json::Error>)
    ensures
        match r {
            Ok(v) => json_document(b@) == Some(v),
            Err(e) => json_document(b@) is None && e == json_error(b@),
        },
{
    serde_json::from_slice(b)
}

/// Relies on serde_json::Value::is_object.
pub assume_specification[ serde_json::Value::is_object ](v: &serde_json::Value) -> (r: bool)
    ensures
        r == json_is_object(*v),
;

/// Relies on serde_json::Value::as_str: the string's characters, or `None`
/// where the value is not a string.
pub assume_specification[ serde_json::Value::as_str ](v: &serde_json::Value) -> (r: Option<&str>)
    ensures
        match r {
            Some(s) => json_text(*v) == Some(s@),
            None => json_text(*v) is None,
        },
;

/// Relies on serde_json::Value::get with a string index: the member of an
/// object under that key, `None` where it is absent or the value is no object.
#[verifier::external_body]
pub(crate) fn member<'a>(v: &'a serde_json::Value, key: &str) -> (r: Option<&'a serde_json::Value>)
    ensures
        match r {
            Some(m) => json_member(*v, key@) == Some(*m),
            None => json_member(*v, key@) is None,
        },
{
    v.get(key)
}

/// Relies on serde_json::Error's `Display`: the error's description with its
/// line and column.
#[verifier::external_body]
pub(crate) fn error_message(e: &serde_json::Error) -> (r: String)
    ensures
        r@ == json_error_text(*e),
{
    e.to_string()
}

} // verus!

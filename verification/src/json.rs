//! What the library reads from JSON text, through `serde_json`.

use vstd::prelude::*;

verus! {

/// Whether `serde_json` accepts the text as one JSON value.
pub uninterp spec fn json_parses(raw: Seq<char>) -> bool;

/// Whether the text is a JSON object.
pub uninterp spec fn json_object(raw: Seq<char>) -> bool;

/// Whether the text is a JSON object with a member of that name.
pub uninterp spec fn json_member(raw: Seq<char>, key: Seq<char>) -> bool;

/// The member of that name, where the text is a JSON object whose member is a string.
pub uninterp spec fn json_text_member(raw: Seq<char>, key: Seq<char>) -> Option<Seq<char>>;

/// Calls `serde_json::from_str`: whether it reads the text as a JSON value.
#[verifier::external_body]
pub(crate) fn is_json(raw: &str) -> (r: bool)
    ensures
        r == json_parses(raw@),
{
    serde_json::from_str::<serde_json::Value>(raw).is_ok()
}

/// Calls `serde_json::from_str` and `Value::is_object`. Only text that parses can be
/// an object.
#[verifier::external_body]
pub(crate) fn is_json_object(raw: &str) -> (r: bool)
    ensures
        r == json_object(raw@),
        r ==> json_parses(raw@),
{
    serde_json::from_str::<serde_json::Value>(raw).is_ok_and(|value| value.is_object())
}

/// Calls `serde_json::from_str` and `Value::as_object`, then looks the name up. Only
/// an object has members.
#[verifier::external_body]
pub(crate) fn has_member(raw: &str, key: &str) -> (r: bool)
    ensures
        r == json_member(raw@, key@),
        r ==> json_object(raw@),
{
    let parsed = serde_json::from_str::<serde_json::Value>(raw).ok();
    let object = parsed.as_ref().and_then(|value| value.as_object());
    object.is_some_and(|map| map.contains_key(key))
}

/// Calls `serde_json::from_str`, `Value::get` and `Value::as_str`. Only a member that
/// is there can be a string.
#[verifier::external_body]
pub(crate) fn text_member(raw: &str, key: &str) -> (r: Option<String>)
    ensures
        match r {
            Some(v) => json_text_member(raw@, key@) == Some(v@),
            None => json_text_member(raw@, key@) is None,
        },
        r is Some ==> json_member(raw@, key@),
{
    let parsed = serde_json::from_str::<serde_json::Value>(raw).ok();
    let member = parsed.as_ref().and_then(|value| value.get(key));
    member.and_then(|value| value.as_str()).map(|text| text.to_string())
}

/// The value of the member of that name, as JSON text, where the text is a JSON object that
/// has one.
pub uninterp spec fn json_value_member(raw: Seq<char>, key: Seq<char>) -> Option<Seq<char>>;

/// The number, where the text is a JSON number that is whole, not negative and fits in 64
/// bits.
pub uninterp spec fn json_unsigned(raw: Seq<char>) -> Option<u64>;

/// Calls `serde_json::from_str` and `Value::get`, and writes what it finds as JSON text.
#[verifier::external_body]
pub(crate) fn member_value(raw: &str, key: &str) -> (r: Option<String>)
    ensures
        match r {
            Some(v) => json_value_member(raw@, key@) == Some(v@),
            None => json_value_member(raw@, key@) is None,
        },
        r is Some == json_member(raw@, key@),
{
    let value: serde_json::Value = serde_json::from_str(raw).ok()?;
    value.get(key).map(|found| found.to_string())
}

/// Calls `serde_json::from_str` and `Value::as_u64`.
#[verifier::external_body]
pub(crate) fn unsigned_value(raw: &str) -> (r: Option<u64>)
    ensures
        r == json_unsigned(raw@),
{
    let value: serde_json::Value = serde_json::from_str(raw).ok()?;
    value.as_u64()
}

} // verus!

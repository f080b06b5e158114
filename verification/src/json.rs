//! Reading a text member out of an event's JSON payload.

use vstd::prelude::*;

verus! {

/// The text of the string member `key` of the JSON object written in `data`,
/// as `serde_json` reads it: `None` where `data` is no JSON document, holds
/// no object, has no such member, or the member is not a string.
pub uninterp spec fn json_text_member(data: Seq<char>, key: Seq<char>) -> Option<Seq<char>>;

/// Parses `data` with `serde_json::from_str` into a `serde_json::Value`,
/// looks `key` up with `Value::get` and reads it with `Value::as_str`.
///
/// Trusted: the result is the named value [`json_text_member`] of the two
/// texts. A parse error gives `None`.
#[verifier::external_body]
pub(crate) fn text_member(data: &str, key: &str) -> (res: Option<String>)
    ensures
        crate::event::opt_view(res) == json_text_member(data@, key@),
{
    match serde_json::from_str::<serde_json::Value>(data) {
        Ok(value) => value.get(key).and_then(serde_json::Value::as_str).map(str::to_owned),
        Err(_) => None,
    }
}

} // verus!

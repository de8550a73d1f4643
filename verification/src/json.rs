//! Members of JSON objects, as `serde_json` reads them.

use vstd::prelude::*;

verus! {

/// The error of `serde_json`.
#[verifier::external_type_specification]
#[verifier::external_body]
pub struct ExJsonError(serde_json::Error);

/// A member of a JSON object, as far as this crate tells such values apart.
pub enum JsonValue {
    Bool(bool),
    Text(String),
    /// Any other value, and the value of a member that is not there.
    Other,
}

/// A member of a JSON object, as a mathematical value.
pub enum JsonView {
    Bool(bool),
    Text(Seq<char>),
    Other,
}

impl View for JsonValue {
    type V = JsonView;

    open spec fn view(&self) -> JsonView {
        match self {
            JsonValue::Bool(b) => JsonView::Bool(*b),
            JsonValue::Text(s) => JsonView::Text(s@),
            JsonValue::Other => JsonView::Other,
        }
    }
}

/// The member `name` of the JSON value that `body` holds, or `None` if `body` holds none.
pub uninterp spec fn json_member(body: Seq<u8>, name: Seq<char>) -> Option<JsonView>;

/// Parses `body` with `serde_json::from_slice` into a `serde_json::Value` and indexes that
/// with three names.
///
/// What comes out is a function of body and name alone, here named `json_member`; whether
/// `body` is JSON at all depends on no name.
#[verifier::external_body]
pub(crate) fn json_members(body: &[u8], first: &str, second: &str, third: &str) -> (r: Result<
    (JsonValue, JsonValue, JsonValue),
    serde_json::Error,
>)
    ensures
        match r {
            Ok(members) => json_member(body@, first@) == Some(members.0@) && json_member(
                body@,
                second@,
            ) == Some(members.1@) && json_member(body@, third@) == Some(members.2@),
            Err(_) => json_member(body@, first@) is None && json_member(body@, second@) is None
                && json_member(body@, third@) is None,
        },
{
    let data: serde_json::Value = serde_json::from_slice(body)?;
    let read = |name: &str| match &data[name] {
        serde_json::Value::Bool(b) => JsonValue::Bool(*b),
        serde_json::Value::String(s) => JsonValue::Text(s.clone()),
        _ => JsonValue::Other,
    };
    Ok((read(first), read(second), read(third)))
}

} // verus!

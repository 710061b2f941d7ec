//! JSON text.

use serde_json::Value as JsonValue;
use vstd::prelude::*;

use crate::value::{Number, Value, ValueView};

verus! {

/// `serde_json::Value`, the value that the parser gives.
#[verifier::external_type_specification]
#[verifier::external_body]
pub struct ExJsonValue(JsonValue);

/// The value that a text spells in JSON, if it spells one.
pub uninterp spec fn json_parsed(text: Seq<char>) -> Option<ValueView>;

/// What an optional value says.
pub open spec fn value_option(v: Option<Value>) -> Option<ValueView> {
    match v {
        Some(v) => Some(v@),
        None => None,
    }
}

/// `serde_json::Value` in this crate's form, variant by variant; a number
/// through its `as_u64`, `as_i64` and `as_f64`. Nothing is stated of the
/// result here: `parse_json` names it.
#[verifier::external_body]
fn value_of(json: JsonValue) -> Value {
    match json {
        JsonValue::Null => Value::Null,
        JsonValue::Bool(b) => Value::Bool(b),
        JsonValue::Number(n) => Value::Number(match (n.as_u64(), n.as_i64()) {
            (Some(n), _) => Number::PosInt(n),
            (_, Some(n)) => Number::NegInt(n),
            _ => Number::Float(n.as_f64().map_or(0, |value| value.to_bits())),
        }),
        JsonValue::String(s) => Value::Text(s),
        JsonValue::Array(items) => Value::Array(items.into_iter().map(value_of).collect()),
        JsonValue::Object(members) => {
            Value::Object(members.into_iter().map(|(k, v)| (k, value_of(v))).collect())
        }
    }
}

/// `serde_json::from_str` into a `serde_json::Value`, in this crate's form.
/// What comes back depends on the text alone; `json_parsed` names it.
#[verifier::external_body]
pub(crate) fn parse_json(text: &str) -> (r: Option<Value>)
    ensures
        value_option(r) == json_parsed(text@),
{
    match serde_json::from_str(text) {
        Ok(json) => Some(value_of(json)),
        Err(_) => None,
    }
}

} // verus!

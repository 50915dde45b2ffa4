//! JSON values as the API responses carry them, the parser that reads them
//! from text, and field lookup.

use vstd::prelude::*;

use crate::text::str_eq;

verus! {

#[verifier::external_type_specification]
#[verifier::external_body]
pub struct ExSerdeValue(serde_json::Value);

/// A JSON value. Numbers keep their kind: a non-negative integer is `UInt`,
/// a negative one `Int`, any other number `Float` with its text. An object
/// keeps its members in key order, each key once.
pub enum JsonValue {
    Null,
    Bool(bool),
    Int(i64),
    UInt(u64),
    Float(String),
    Str(String),
    Array(Vec<JsonValue>),
    Object(Vec<(String, JsonValue)>),
}

/// The JSON value that `serde_json` parses from `text`, `None` where the text
/// is not one JSON document.
pub uninterp spec fn json_parse_spec(text: Seq<char>) -> Option<JsonValue>;

/// Moves a parsed `serde_json::Value` into a `JsonValue`, variant by variant.
#[verifier::external_body]
fn from_serde(v: serde_json::Value) -> JsonValue {
    match v {
        serde_json::Value::Null => JsonValue::Null,
        serde_json::Value::Bool(b) => JsonValue::Bool(b),
        serde_json::Value::Number(n) => match (n.as_u64(), n.as_i64()) {
            (Some(u), _) => JsonValue::UInt(u),
            (None, Some(i)) => JsonValue::Int(i),
            (None, None) => JsonValue::Float(n.to_string()),
        },
        serde_json::Value::String(s) => JsonValue::Str(s),
        serde_json::Value::Array(a) => JsonValue::Array(a.into_iter().map(from_serde).collect()),
        serde_json::Value::Object(o) => JsonValue::Object(o.into_iter().map(|(k, x)| (k, from_serde(x))).collect()),
    }
}

/// Parses a JSON document.
///
/// Calls `serde_json::from_str::<serde_json::Value>`, whose result depends on
/// the text alone; the contract names that result and says nothing more of it.
#[verifier::external_body]
pub(crate) fn json_parse(text: &str) -> (r: Option<JsonValue>)
    ensures
        r == json_parse_spec(text@),
{
    serde_json::from_str::<serde_json::Value>(text).ok().map(from_serde)
}

/// The value of the first member named `key`.
pub open spec fn member(entries: Seq<(String, JsonValue)>, key: Seq<char>) -> Option<JsonValue>
    decreases entries.len(),
{
    if entries.len() == 0 {
        None
    } else if entries[0].0@ == key {
        Some(entries[0].1)
    } else {
        member(entries.drop_first(), key)
    }
}

/// The member `key` of an object; `None` for a missing member or a value
/// that is not an object.
pub open spec fn json_get_spec(v: JsonValue, key: Seq<char>) -> Option<JsonValue> {
    match v {
        JsonValue::Object(e) => member(e@, key),
        _ => None,
    }
}

impl JsonValue {
    /// The member `key` of an object.
    pub fn get(&self, key: &str) -> (r: Option<&JsonValue>)
        ensures
            match r {
                Some(x) => json_get_spec(*self, key@) == Some(*x),
                None => json_get_spec(*self, key@) is None,
            },
    {
        match self {
            JsonValue::Object(entries) => {
                let n = entries.len();
                let mut i: usize = 0;
                proof {
                    assert(entries@.subrange(0, n as int) =~= entries@);
                }
                while i < n
                    invariant
                        n == entries@.len(),
                        i <= n,
                        json_get_spec(*self, key@) == member(entries@, key@),
                        member(entries@, key@) == member(entries@.subrange(i as int, n as int), key@),
                    decreases n - i,
                {
                    let ghost rest = entries@.subrange(i as int, n as int);
                    if str_eq(entries[i].0.as_str(), key) {
                        proof {
                            assert(rest[0] == entries@[i as int]);
                            assert(rest[0].0@ == key@);
                            assert(member(rest, key@) == Some(entries@[i as int].1));
                        }
                        return Some(&entries[i].1);
                    }
                    proof {
                        assert(rest.drop_first() =~= entries@.subrange(i + 1, n as int));
                    }
                    i = i + 1;
                }
                proof {
                    assert(entries@.subrange(n as int, n as int).len() == 0);
                }
                None
            },
            _ => None,
        }
    }

    /// The items of an array.
    pub fn as_array(&self) -> (r: Option<&Vec<JsonValue>>)
        ensures
            match r {
                Some(a) => *self == JsonValue::Array(*a),
                None => !(*self is Array),
            },
    {
        match self {
            JsonValue::Array(a) => Some(a),
            _ => None,
        }
    }

    /// The value of a boolean.
    pub fn as_bool(&self) -> (r: Option<bool>)
        ensures
            match r {
                Some(b) => *self == JsonValue::Bool(b),
                None => !(*self is Bool),
            },
    {
        match self {
            JsonValue::Bool(b) => Some(*b),
            _ => None,
        }
    }
}

} // verus!

//! JSON documents as plain values, and the parser behind them.

use crate::text::same_text;
use vstd::prelude::*;

verus! {

/// `serde_json::Value`, as the parser returns it; the library reads it only
/// to copy it into `JsonValue`.
#[verifier::external_type_specification]
#[verifier::external_body]
pub struct ExValue(serde_json::Value);

/// A JSON number: the bits of the double that it is read as, and the number
/// itself where it is written as a whole number from 0 to `u64::MAX`.
#[derive(Clone, Copy, Debug, PartialEq, Eq, Structural)]
pub struct JsonNumber {
    pub bits: u64,
    pub unsigned: Option<u64>,
}

/// A JSON value. The fields of an object stand in the order in which the
/// parser hands them out, and no name occurs twice among them.
#[derive(Debug)]
pub enum JsonValue {
    Null,
    Bool(bool),
    Number(JsonNumber),
    String(String),
    Array(Vec<JsonValue>),
    Object(Vec<(String, JsonValue)>),
}

/// What `serde_json::from_str` makes of `text` as a `serde_json::Value`, in
/// this library's own type: `None` where it reports an error.
pub uninterp spec fn json_parse(text: Seq<char>) -> Option<JsonValue>;

/// Copies a `serde_json::Value` into the library's type, variant by variant.
/// A number keeps the bits of `Number::as_f64` and what `Number::as_u64`
/// returns; an object's fields are copied in the order of `Map::iter`.
#[verifier::external_body]
fn plain_value(value: &serde_json::Value) -> JsonValue {
    match value {
        serde_json::Value::Null => JsonValue::Null,
        serde_json::Value::Bool(b) => JsonValue::Bool(*b),
        serde_json::Value::Number(n) => JsonValue::Number(
            JsonNumber { bits: n.as_f64().map_or(0, |x| x.to_bits()), unsigned: n.as_u64() },
        ),
        serde_json::Value::String(s) => JsonValue::String(s.clone()),
        serde_json::Value::Array(items) => JsonValue::Array(items.iter().map(plain_value).collect()),
        serde_json::Value::Object(fields) => JsonValue::Object(
            fields.iter().map(|(name, v)| (name.clone(), plain_value(v))).collect(),
        ),
    }
}

/// `serde_json::from_str`, read as a `serde_json::Value` and copied into the
/// library's type. The result depends on the text alone.
#[verifier::external_body]
pub(crate) fn parse_json(text: &str) -> (value: Option<JsonValue>)
    ensures
        value == json_parse(text@),
{
    match serde_json::from_str::<serde_json::Value>(text) {
        Ok(value) => Some(plain_value(&value)),
        Err(_) => None,
    }
}

/// The place of the first field called `name`, or -1 where there is none.
pub open spec fn field_index(fields: Seq<(String, JsonValue)>, name: Seq<char>) -> int
    decreases fields.len(),
{
    if fields.len() == 0 {
        -1
    } else if fields[0].0@ == name {
        0
    } else {
        let rest = field_index(fields.drop_first(), name);
        if rest < 0 {
            -1
        } else {
            rest + 1
        }
    }
}

/// The place of a field is that of the first field of its name.
pub proof fn lemma_field_index(fields: Seq<(String, JsonValue)>, name: Seq<char>)
    ensures
        -1 <= field_index(fields, name) < fields.len(),
        field_index(fields, name) >= 0 ==> fields[field_index(fields, name)].0@ == name,
        forall|k: int| 0 <= k < fields.len() && fields[k].0@ == name ==> 0 <= field_index(fields, name) <= k,
    decreases fields.len(),
{
    if fields.len() > 0 && fields[0].0@ != name {
        let rest = fields.drop_first();
        lemma_field_index(rest, name);
        assert forall|k: int| 0 <= k < fields.len() && fields[k].0@ == name implies 0 <= field_index(fields, name)
            <= k by {
            assert(rest[k - 1] == fields[k]);
        }
    }
}

proof fn lemma_field_index_is(fields: Seq<(String, JsonValue)>, name: Seq<char>, at: int)
    requires
        -1 <= at < fields.len(),
        at >= 0 ==> fields[at].0@ == name,
        forall|k: int| 0 <= k < fields.len() && k < at ==> fields[k].0@ != name,
        at < 0 ==> forall|k: int| 0 <= k < fields.len() ==> fields[k].0@ != name,
    ensures
        field_index(fields, name) == at,
{
    lemma_field_index(fields, name);
}

/// The value of the first field called `name`.
pub open spec fn field_of(value: JsonValue, name: Seq<char>) -> Option<JsonValue> {
    match value {
        JsonValue::Object(fields) => if field_index(fields@, name) >= 0 {
            Some(fields@[field_index(fields@, name)].1)
        } else {
            None
        },
        _ => None,
    }
}

impl JsonValue {
    /// The value of the field `name` of an object; `None` for any other value
    /// and for an object without that field.
    #[verifier::loop_isolation(false)]
    pub fn field(&self, name: &str) -> (found: Option<&JsonValue>)
        ensures
            match found {
                Some(v) => field_of(*self, name@) == Some(*v),
                None => field_of(*self, name@) is None,
            },
    {
        match self {
            JsonValue::Object(fields) => {
                let mut i: usize = 0;
                while i < fields.len()
                    invariant
                        i <= fields.len(),
                        forall|k: int| 0 <= k < i ==> fields@[k].0@ != name@,
                    decreases fields.len() - i,
                {
                    if same_text(fields[i].0.as_str(), name) {
                        proof {
                            lemma_field_index_is(fields@, name@, i as int);
                        }
                        return Some(&fields[i].1);
                    }
                    i += 1;
                }
                proof {
                    lemma_field_index_is(fields@, name@, -1);
                }
                None
            },
            _ => None,
        }
    }
}

} // verus!

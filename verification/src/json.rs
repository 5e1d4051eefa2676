//! A plain model of a decoded JSON document, and the outside parser that
//! produces it. The schema decoder walks this model, so every structural
//! check it makes is verified.

use vstd::prelude::*;

verus! {

/// A decoded JSON document held as plain values. An object is a list of
/// (name, value) fields that the model looks up by name; a number is kept
/// only as far as the schema model needs it: the unsigned integer it
/// denotes, if it denotes one.
#[derive(Debug)]
pub enum JsonValue {
    Null,
    Bool(bool),
    Num(Option<u64>),
    Str(String),
    Arr(Vec<JsonValue>),
    Obj(Vec<(String, JsonValue)>),
}

#[verifier::external_type_specification]
#[verifier::external_body]
pub struct ExSerdeValue(serde_json::Value);

/// The document that a given text parses and decodes to, or nothing when
/// the text is not syntactically valid JSON. The result depends on the
/// text alone, so it can stand in contracts as a name.
pub uninterp spec fn spec_parsed_doc(text: Seq<char>) -> Option<JsonValue>;

/// Relies on serde_json's parser and its data model: the same text always
/// parses to the same value (and `convert_json` below maps that value over
/// deterministically, serde_json's default object map holding its fields
/// sorted by name), while syntactically invalid text is refused.
#[verifier::external_body]
pub fn parse_document(text: &str) -> (r: Option<JsonValue>)
    ensures
        r == spec_parsed_doc(text@),
{
    serde_json::from_str::<serde_json::Value>(text).ok().map(|v| convert_json(&v))
}

/// Relies on serde_json's data model: each variant of a parsed value is
/// carried over to the library's own document type, field for field; a
/// number keeps the unsigned integer it denotes, if it denotes one.
#[verifier::external_body]
fn convert_json(v: &serde_json::Value) -> JsonValue {
    match v {
        serde_json::Value::Null => JsonValue::Null,
        serde_json::Value::Bool(b) => JsonValue::Bool(*b),
        serde_json::Value::Number(n) => JsonValue::Num(n.as_u64()),
        serde_json::Value::String(s) => JsonValue::Str(s.clone()),
        serde_json::Value::Array(a) => JsonValue::Arr(a.iter().map(convert_json).collect()),
        serde_json::Value::Object(m) => JsonValue::Obj(
            m.iter().map(|(k, x)| (k.clone(), convert_json(x))).collect(),
        ),
    }
}

/// The first field of an object's entry list under `key`.
pub open spec fn spec_obj_get(entries: Seq<(String, JsonValue)>, key: Seq<char>) -> Option<
    JsonValue,
>
    decreases entries.len(),
{
    if entries.len() == 0 {
        None
    } else if entries[0].0@ == key {
        Some(entries[0].1)
    } else {
        spec_obj_get(entries.drop_first(), key)
    }
}

/// The field of a document under `key`, if the document is an object that
/// holds it.
pub open spec fn spec_get(v: JsonValue, key: Seq<char>) -> Option<JsonValue> {
    match v {
        JsonValue::Obj(entries) => spec_obj_get(entries@, key),
        _ => None,
    }
}

impl JsonValue {
    /// The field of this document under `key`, if this is an object that
    /// holds it.
    pub fn get_field<'b>(&'b self, key: &str) -> (r: Option<&'b JsonValue>)
        ensures
            match spec_get(*self, key@) {
                Some(v) => r matches Some(rv) && *rv == v,
                None => r is None,
            },
    {
        match self {
            JsonValue::Obj(entries) => {
                let mut i: usize = 0;
                proof {
                    assert(entries@.skip(0) =~= entries@);
                }
                while i < entries.len()
                    invariant
                        i <= entries@.len(),
                        spec_get(*self, key@) == spec_obj_get(entries@.skip(i as int), key@),
                    decreases entries@.len() - i,
                {
                    let ghost rest = entries@.skip(i as int);
                    let entry = &entries[i];
                    if crate::strutil::str_eq(entry.0.as_str(), key) {
                        proof {
                            assert(rest[0] == entries@[i as int]);
                            assert(*entry == entries@[i as int]);
                        }
                        return Some(&entry.1);
                    }
                    proof {
                        assert(rest.drop_first() =~= entries@.skip(i + 1));
                    }
                    i = i + 1;
                }
                None
            },
            _ => None,
        }
    }

    /// The unsigned integer this document denotes, if it is a number that
    /// denotes one.
    pub fn as_u64(&self) -> (r: Option<u64>)
        ensures
            r == match *self {
                JsonValue::Num(n) => n,
                _ => None::<u64>,
            },
    {
        match self {
            JsonValue::Num(n) => *n,
            _ => None,
        }
    }

    /// The string this document holds, if it is a string.
    pub fn as_str<'b>(&'b self) -> (r: Option<&'b String>)
        ensures
            match *self {
                JsonValue::Str(s) => r matches Some(rs) && *rs == s,
                _ => r is None,
            },
    {
        match self {
            JsonValue::Str(s) => Some(s),
            _ => None,
        }
    }

    /// The element list this document holds, if it is an array.
    pub fn as_array<'b>(&'b self) -> (r: Option<&'b Vec<JsonValue>>)
        ensures
            match *self {
                JsonValue::Arr(a) => r matches Some(ra) && *ra == a,
                _ => r is None,
            },
    {
        match self {
            JsonValue::Arr(a) => Some(a),
            _ => None,
        }
    }
}

} // verus!

use vstd::prelude::*;

use crate::error::PxoError;

verus! {

/// A JSON document as a tree of plain values.
///
/// Numbers carry the IEEE-754 bit pattern of their value as a 64-bit float
/// in `bits` (`None` only for numbers no float can represent), and, when the
/// number is an unsigned integer, that integer in `uint`. Objects are kept as
/// a key-ordered list of entries with distinct keys, as the parser hands
/// them over.
pub enum JsonValue {
    /// The JSON `null`.
    Null,
    /// A JSON boolean.
    Bool(bool),
    /// A JSON number.
    Num {
        /// The bit pattern of the number as a 64-bit IEEE-754 float.
        bits: Option<u64>,
        /// The number as an unsigned integer, when it is one.
        uint: Option<u64>,
    },
    /// A JSON string.
    Str(String),
    /// A JSON array, in document order.
    Arr(Vec<JsonValue>),
    /// A JSON object, one entry per key.
    Obj(Vec<(String, JsonValue)>),
}

#[verifier::external_type_specification]
#[verifier::external_body]
pub struct ExJsonRaw(serde_json::Value);

/// What the JSON parser makes of a text: `Some` of the document's value
/// tree when the text is well-formed JSON, `None` otherwise. A pure
/// function of the text: parsing and the tree conversion depend on
/// nothing else.
pub uninterp spec fn json_of(s: Seq<char>) -> Option<JsonValue>;

/// Relies on `serde_json::Value`'s variants and on its `Number` accessors
/// `as_f64` and `as_u64` to rebuild a parsed tree as a [`JsonValue`]:
/// one arm per variant, fields moved or converted one for one.
#[verifier::external_body]
fn json_value_tree(v: &serde_json::Value) -> JsonValue {
    match v {
        serde_json::Value::Null => JsonValue::Null,
        serde_json::Value::Bool(b) => JsonValue::Bool(*b),
        serde_json::Value::Number(n) => JsonValue::Num {
            bits: n.as_f64().map(|x| x.to_bits()),
            uint: n.as_u64(),
        },
        serde_json::Value::String(s) => JsonValue::Str(s.clone()),
        serde_json::Value::Array(a) => JsonValue::Arr(a.iter().map(json_value_tree).collect()),
        serde_json::Value::Object(m) => JsonValue::Obj(
            m.iter().map(|(k, x)| (k.clone(), json_value_tree(x))).collect(),
        ),
    }
}

/// Relies on `serde_json::from_str`: parses JSON text into a value tree,
/// failing exactly on malformed documents, then rebuilds the tree through
/// [`json_value_tree`]. Both steps are pure functions of the text, so the
/// outcome is the named `json_of`.
#[verifier::external_body]
fn parse_json_text(s: &str) -> (r: Result<JsonValue, PxoError>)
    ensures
        r is Ok <==> json_of(s@) is Some,
        r matches Ok(t) ==> t == json_of(s@).unwrap(),
        r is Err ==> r matches Err(PxoError::ReadJson),
{
    match serde_json::from_str::<serde_json::Value>(s) {
        Ok(v) => Ok(json_value_tree(&v)),
        Err(_) => Err(PxoError::ReadJson),
    }
}

/// Parses one JSON document into a [`JsonValue`] tree: succeeds exactly
/// on well-formed text and then returns the text's tree, or fails with
/// [`PxoError::ReadJson`].
pub fn parse_json(s: &str) -> (r: Result<JsonValue, PxoError>)
    ensures
        r is Ok <==> json_of(s@) is Some,
        r matches Ok(t) ==> t == json_of(s@).unwrap(),
        r is Err ==> r matches Err(PxoError::ReadJson),
{
    parse_json_text(s)
}

/// The first value stored under `key` in an object's entry list, if any.
pub open spec fn spec_obj_get(entries: Seq<(String, JsonValue)>, key: Seq<char>) -> Option<
    JsonValue,
>
    decreases entries.len(),
{
    if entries.len() == 0 {
        None
    } else if entries[0].0@ == key {
        Some(entries[0].1)
    } else {
        spec_obj_get(entries.drop_first(), key)
    }
}

/// Looks `key` up in an object's entry list.
pub fn obj_get<'a>(entries: &'a Vec<(String, JsonValue)>, key: &String) -> (r: Option<
    &'a JsonValue,
>)
    ensures
        match r {
            Some(v) => spec_obj_get(entries@, key@) == Some(*v),
            None => spec_obj_get(entries@, key@) is None,
        },
{
    let n = entries.len();
    let mut i: usize = 0;
    proof {
        assert(entries@.skip(0) =~= entries@);
    }
    while i < n
        invariant
            n == entries@.len(),
            i <= n,
            spec_obj_get(entries@, key@) == spec_obj_get(entries@.skip(i as int), key@),
        decreases n - i,
    {
        proof {
            assert(entries@.skip(i as int).len() == n - i);
            assert(entries@.skip(i as int)[0] == entries@[i as int]);
            assert(entries@.skip(i as int).drop_first() =~= entries@.skip(i as int + 1));
            assert(spec_obj_get(entries@.skip(i as int), key@) == if entries@[i as int].0@
                == key@ {
                Some(entries@[i as int].1)
            } else {
                spec_obj_get(entries@.skip(i as int + 1), key@)
            });
        }
        if entries[i].0 == *key {
            return Some(&entries[i].1);
        }
        i = i + 1;
    }
    proof {
        assert(entries@.skip(n as int) =~= Seq::<(String, JsonValue)>::empty());
    }
    None
}

} // verus!

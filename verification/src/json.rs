//! JSON values, one level at a time.

use crate::text;
use vstd::prelude::*;

verus! {

/// A JSON value, as `serde_json` holds it.
#[verifier::external_type_specification]
#[verifier::external_body]
pub struct ExJsonValue(serde_json::Value);

/// A JSON number, as `serde_json` holds it.
#[verifier::external_type_specification]
#[verifier::external_body]
pub struct ExJsonNumber(serde_json::Number);

/// A JSON value with its outermost level laid open.
#[derive(Debug)]
pub enum JsonNode {
    Null,
    Bool(bool),
    Number(serde_json::Number),
    Text(String),
    List(Vec<serde_json::Value>),
    /// The fields of an object, in the order of their keys.
    Object(Vec<(String, serde_json::Value)>),
}

/// The content of a node.
#[verifier::ext_equal]
pub enum NodeModel {
    Null,
    Bool(bool),
    Number(serde_json::Number),
    Text(Seq<char>),
    List(Seq<serde_json::Value>),
    Object(Seq<(Seq<char>, serde_json::Value)>),
}

/// The keys and values of a list of fields.
pub open spec fn fields_of(fields: Seq<(String, serde_json::Value)>) -> Seq<
    (Seq<char>, serde_json::Value),
> {
    fields.map_values(|f: (String, serde_json::Value)| (f.0@, f.1))
}

impl View for JsonNode {
    type V = NodeModel;

    open spec fn view(&self) -> NodeModel {
        match self {
            JsonNode::Null => NodeModel::Null,
            JsonNode::Bool(b) => NodeModel::Bool(*b),
            JsonNode::Number(n) => NodeModel::Number(*n),
            JsonNode::Text(s) => NodeModel::Text(s@),
            JsonNode::List(items) => NodeModel::List(items@),
            JsonNode::Object(fields) => NodeModel::Object(fields_of(fields@)),
        }
    }
}

/// The keys of fields rise strictly, by their characters.
pub open spec fn rising(fields: Seq<(Seq<char>, serde_json::Value)>) -> bool {
    forall|i: int, j: int|
        0 <= i < j < fields.len() ==> text::text_before(
            (#[trigger] fields[i]).0,
            (#[trigger] fields[j]).0,
        )
}

/// The outermost level of a value.
pub uninterp spec fn json_node(value: serde_json::Value) -> NodeModel;

/// Lays a copy of a `serde_json::Value` open: each of its variants is one of
/// the node's, with the same content. `serde_json::Map` walks an object in the
/// order of its keys, and has each key once.
#[verifier::external_body]
pub(crate) fn open_json(value: &serde_json::Value) -> (r: JsonNode)
    ensures
        r@ == json_node(*value),
        r@ matches NodeModel::Object(fields) ==> rising(fields),
{
    match value.clone() {
        serde_json::Value::Null => JsonNode::Null,
        serde_json::Value::Bool(b) => JsonNode::Bool(b),
        serde_json::Value::Number(n) => JsonNode::Number(n),
        serde_json::Value::String(s) => JsonNode::Text(s),
        serde_json::Value::Array(items) => JsonNode::List(items),
        serde_json::Value::Object(map) => JsonNode::Object(map.into_iter().collect()),
    }
}

/// The value that a node makes.
pub uninterp spec fn json_closed(node: NodeModel) -> serde_json::Value;

/// Makes a `serde_json::Value` of a node. Laying the value open gives the node
/// back, for an object where its keys rise: `serde_json::Map` orders its keys
/// and keeps the last of several fields with one key.
#[verifier::external_body]
pub(crate) fn close_json(node: JsonNode) -> (r: serde_json::Value)
    ensures
        r == json_closed(node@),
        (node@ matches NodeModel::Object(fields) ==> rising(fields)) ==> json_node(r) == node@,
{
    match node {
        JsonNode::Null => serde_json::Value::Null,
        JsonNode::Bool(b) => serde_json::Value::Bool(b),
        JsonNode::Number(n) => serde_json::Value::Number(n),
        JsonNode::Text(s) => serde_json::Value::String(s),
        JsonNode::List(items) => serde_json::Value::Array(items),
        JsonNode::Object(fields) => serde_json::Value::Object(fields.into_iter().collect()),
    }
}

/// What a text says in JSON: a value, or what is wrong with it.
pub uninterp spec fn json_parsed(content: Seq<char>) -> Result<serde_json::Value, Seq<char>>;

/// Reads a text as JSON with `serde_json::from_str`. An error is given in its
/// words.
#[verifier::external_body]
pub(crate) fn parse_json(content: &str) -> (r: Result<serde_json::Value, String>)
    ensures
        match r {
            Ok(v) => json_parsed(content@) == Ok::<serde_json::Value, Seq<char>>(v),
            Err(e) => json_parsed(content@) == Err::<serde_json::Value, Seq<char>>(e@),
        },
{
    serde_json::from_str(content).map_err(|e| e.to_string())
}

/// A value in compact JSON.
pub uninterp spec fn json_printed(value: serde_json::Value) -> Seq<char>;

/// Writes a value as compact JSON, by the `Display` of `serde_json::Value`.
#[verifier::external_body]
pub(crate) fn print_json(value: &serde_json::Value) -> (r: String)
    ensures
        r@ == json_printed(*value),
{
    value.to_string()
}

/// A value in indented JSON.
pub uninterp spec fn json_indented(value: serde_json::Value) -> Seq<char>;

/// Writes a value as indented JSON with `serde_json::to_string_pretty`, which
/// does not fail on a `serde_json::Value`: its keys are texts, and it is written
/// to memory.
#[verifier::external_body]
pub(crate) fn indent_json(value: &serde_json::Value) -> (r: String)
    ensures
        r@ == json_indented(*value),
{
    serde_json::to_string_pretty(value).unwrap()
}

/// An integer as a JSON number.
pub uninterp spec fn json_integer(n: u64) -> serde_json::Number;

/// Makes a JSON number of an integer with `serde_json::Number::from`.
#[verifier::external_body]
pub(crate) fn integer_json(n: u64) -> (r: serde_json::Number)
    ensures
        r == json_integer(n),
{
    serde_json::Number::from(n)
}

/// The value of the first of `fields` with this key, from index `k` on.
pub open spec fn field_from(
    fields: Seq<(Seq<char>, serde_json::Value)>,
    key: Seq<char>,
    k: int,
) -> Option<int>
    decreases fields.len() - k,
{
    if k < 0 || k >= fields.len() {
        None
    } else if fields[k].0 == key {
        Some(k)
    } else {
        field_from(fields, key, k + 1)
    }
}

/// A field is found by its key alone.
pub proof fn lemma_field_by_key(
    a: Seq<(Seq<char>, serde_json::Value)>,
    b: Seq<(Seq<char>, serde_json::Value)>,
    key: Seq<char>,
    k: int,
)
    requires
        a.len() == b.len(),
        forall|i: int| 0 <= i < a.len() ==> (#[trigger] a[i]).0 == b[i].0,
    ensures
        field_from(a, key, k) == field_from(b, key, k),
        field_from(a, key, k) matches Some(i) ==> 0 <= i < a.len() && a[i].0 == key,
    decreases a.len() - k,
{
    if 0 <= k < a.len() {
        lemma_field_by_key(a, b, key, k + 1);
    }
}

/// The value of a field of an object.
pub open spec fn field_of(value: serde_json::Value, key: Seq<char>) -> Option<serde_json::Value> {
    match json_node(value) {
        NodeModel::Object(fields) => match field_from(fields, key, 0) {
            Some(k) => Some(fields[k].1),
            None => None,
        },
        _ => None,
    }
}

/// The index of the first of `fields` with this key.
pub fn find_field(fields: &Vec<(String, serde_json::Value)>, key: &str) -> (r: Option<usize>)
    ensures
        match r {
            Some(i) => i < fields.len() && field_from(fields_of(fields@), key@, 0) == Some(
                i as int,
            ),
            None => field_from(fields_of(fields@), key@, 0) is None,
        },
{
    let mut i: usize = 0;
    while i < fields.len()
        invariant
            i <= fields.len(),
            field_from(fields_of(fields@), key@, 0) == field_from(
                fields_of(fields@),
                key@,
                i as int,
            ),
        decreases fields.len() - i,
    {
        proof {
            assert(fields_of(fields@)[i as int] == (fields@[i as int].0@, fields@[i as int].1));
        }
        if text::same(fields[i].0.as_str(), key) {
            return Some(i);
        }
        i = i + 1;
    }
    None
}

/// The text of a field of an object, where it is one.
pub open spec fn text_field_of(value: serde_json::Value, key: Seq<char>) -> Option<Seq<char>> {
    match field_of(value, key) {
        Some(v) => match json_node(v) {
            NodeModel::Text(t) => Some(t),
            _ => None,
        },
        None => None,
    }
}

/// The text of a field of an object, where it is one.
pub fn text_field(value: &serde_json::Value, key: &str) -> (r: Option<String>)
    ensures
        text::opt_text(r) == text_field_of(*value, key@),
{
    match open_json(value) {
        JsonNode::Object(fields) => match find_field(&fields, key) {
            Some(i) => {
                proof {
                    assert(fields_of(fields@)[i as int].1 == fields@[i as int].1);
                }
                match open_json(&fields[i].1) {
                    JsonNode::Text(t) => Some(t),
                    _ => None,
                }
            },
            None => None,
        },
        _ => None,
    }
}

/// The elements of a field of an object, where it is a list.
pub open spec fn list_field_of(value: serde_json::Value, key: Seq<char>) -> Option<
    Seq<serde_json::Value>,
> {
    match field_of(value, key) {
        Some(v) => match json_node(v) {
            NodeModel::List(items) => Some(items),
            _ => None,
        },
        None => None,
    }
}

/// The elements of a field of an object, where it is a list.
pub fn list_field(value: &serde_json::Value, key: &str) -> (r: Option<Vec<serde_json::Value>>)
    ensures
        match r {
            Some(items) => list_field_of(*value, key@) == Some(items@),
            None => list_field_of(*value, key@) is None,
        },
{
    match open_json(value) {
        JsonNode::Object(fields) => match find_field(&fields, key) {
            Some(i) => {
                proof {
                    assert(fields_of(fields@)[i as int].1 == fields@[i as int].1);
                }
                match open_json(&fields[i].1) {
                    JsonNode::List(items) => Some(items),
                    _ => None,
                }
            },
            None => None,
        },
        _ => None,
    }
}

} // verus!

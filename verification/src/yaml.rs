//! YAML values, as far as settings files are read.

use crate::text;
use vstd::prelude::*;

verus! {

/// A YAML value, as `serde_yaml` holds it.
#[verifier::external_type_specification]
#[verifier::external_body]
pub struct ExYamlValue(serde_yaml::Value);

/// What a text says in YAML; none where it is not YAML.
pub uninterp spec fn yaml_parsed(content: Seq<char>) -> Option<serde_yaml::Value>;

/// Reads a text as YAML with `serde_yaml::from_str`. What is wrong with a text
/// that is not YAML is not kept.
#[verifier::external_body]
pub(crate) fn parse_yaml(content: &str) -> (r: Option<serde_yaml::Value>)
    ensures
        r == yaml_parsed(content@),
{
    serde_yaml::from_str(content).ok()
}

/// The text that a value is, if it is one.
pub uninterp spec fn yaml_text(value: serde_yaml::Value) -> Option<Seq<char>>;

/// Asks a value for its text with `serde_yaml::Value::as_str`, and copies it.
#[verifier::external_body]
pub(crate) fn text_of(value: &serde_yaml::Value) -> (r: Option<String>)
    ensures
        text::opt_text(r) == yaml_text(*value),
{
    value.as_str().map(|s| s.to_string())
}

/// The entries of the sequence that a value is, if it is one.
pub uninterp spec fn yaml_list(value: serde_yaml::Value) -> Option<Seq<serde_yaml::Value>>;

/// The content of a list that may be missing.
pub open spec fn opt_list(v: Option<Vec<serde_yaml::Value>>) -> Option<Seq<serde_yaml::Value>> {
    match v {
        Some(list) => Some(list@),
        None => None,
    }
}

/// Asks a value for its entries with `serde_yaml::Value::as_sequence`, and
/// copies them.
#[verifier::external_body]
pub(crate) fn list_of(value: &serde_yaml::Value) -> (r: Option<Vec<serde_yaml::Value>>)
    ensures
        opt_list(r) == yaml_list(*value),
{
    value.as_sequence().cloned()
}

/// The keys and values of the mapping that a value is, if it is one.
pub uninterp spec fn yaml_pairs(value: serde_yaml::Value) -> Option<
    Seq<(serde_yaml::Value, serde_yaml::Value)>,
>;

/// The content of a list of pairs that may be missing.
pub open spec fn opt_pairs(
    v: Option<Vec<(serde_yaml::Value, serde_yaml::Value)>>,
) -> Option<Seq<(serde_yaml::Value, serde_yaml::Value)>> {
    match v {
        Some(list) => Some(list@),
        None => None,
    }
}

/// Asks a value for its keys and values with `serde_yaml::Value::as_mapping`,
/// and copies them in their order, which is that of the text.
#[verifier::external_body]
pub(crate) fn pairs_of(value: &serde_yaml::Value) -> (r: Option<
    Vec<(serde_yaml::Value, serde_yaml::Value)>,
>)
    ensures
        opt_pairs(r) == yaml_pairs(*value),
{
    value.as_mapping().map(|m| m.clone().into_iter().collect())
}

/// What a value holds under a key, if it is a mapping that has the key.
pub uninterp spec fn yaml_field(value: serde_yaml::Value, key: Seq<char>) -> Option<
    serde_yaml::Value,
>;

/// Looks a key up with `serde_yaml::Value::get`, and copies what it finds.
#[verifier::external_body]
pub(crate) fn field_of(value: &serde_yaml::Value, key: &str) -> (r: Option<serde_yaml::Value>)
    ensures
        r == yaml_field(*value, key@),
{
    value.get(key).cloned()
}

/// A value that is written in one word or line, in its own form.
#[derive(Debug)]
pub enum Scalar {
    Text(String),
    /// A number, as it is printed.
    Number(String),
    Flag(bool),
    /// Anything else.
    Other,
}

/// The content of a scalar.
#[verifier::ext_equal]
pub enum ScalarModel {
    Text(Seq<char>),
    Number(Seq<char>),
    Flag(bool),
    Other,
}

impl View for Scalar {
    type V = ScalarModel;

    open spec fn view(&self) -> ScalarModel {
        match self {
            Scalar::Text(s) => ScalarModel::Text(s@),
            Scalar::Number(s) => ScalarModel::Number(s@),
            Scalar::Flag(b) => ScalarModel::Flag(*b),
            Scalar::Other => ScalarModel::Other,
        }
    }
}

/// The scalar that a value is.
pub uninterp spec fn yaml_scalar(value: serde_yaml::Value) -> ScalarModel;

/// Tells the variants of `serde_yaml::Value` apart: its strings, its numbers by
/// their `Display`, its booleans, and the rest.
#[verifier::external_body]
pub(crate) fn scalar_of(value: &serde_yaml::Value) -> (r: Scalar)
    ensures
        r@ == yaml_scalar(*value),
{
    match value {
        serde_yaml::Value::String(s) => Scalar::Text(s.clone()),
        serde_yaml::Value::Number(n) => Scalar::Number(n.to_string()),
        serde_yaml::Value::Bool(b) => Scalar::Flag(*b),
        _ => Scalar::Other,
    }
}

} // verus!

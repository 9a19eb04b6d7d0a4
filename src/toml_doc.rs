//! The calls into the `toml` and `toml_edit` crates: reading a document
//! into a tree, and setting one string key of a document in place.

use vstd::prelude::*;
use crate::tree::Node;
use toml::Value as TomlValue;

verus! {

#[verifier::external_type_specification]
#[verifier::external_body]
pub struct ExTomlValue(TomlValue);

/// The tree that the `toml` crate reads from a document, or none where the
/// text is not TOML.
pub uninterp spec fn toml_tree(text: Seq<char>) -> Option<Node>;

/// The text that `toml_edit` prints after setting `key` to the string
/// `value` in the document `text`, the rest kept as written; none where the
/// text is not TOML.
pub uninterp spec fn toml_with_string(text: Seq<char>, key: Seq<char>, value: Seq<char>) -> Option<Seq<char>>;

/// Relies on `<toml::Value as FromStr>::from_str` (that is `toml::from_str`):
/// the document's tree, or the parser's message where it is not TOML.
#[verifier::external_body]
pub(crate) fn read_toml(text: &str) -> (r: Result<Node, String>)
    ensures
        match r {
            Ok(n) => toml_tree(text@) == Some(n),
            Err(_) => toml_tree(text@) is None,
        },
{
    match text.parse::<TomlValue>() {
        Ok(v) => Ok(node_of_toml(v)),
        Err(e) => Err(e.to_string()),
    }
}

/// The conversion part of `read_toml`, apart only because it recurses:
/// each variant of `toml::Value` to the `Node` variant of that name, the
/// contents moved over.
#[verifier::external_body]
fn node_of_toml(v: TomlValue) -> Node {
    match v {
        TomlValue::String(s) => Node::String(s),
        TomlValue::Integer(i) => Node::Integer(i),
        TomlValue::Float(_) => Node::Float,
        TomlValue::Boolean(b) => Node::Boolean(b),
        TomlValue::Datetime(_) => Node::Datetime,
        TomlValue::Array(a) => Node::Array(a.into_iter().map(node_of_toml).collect()),
        TomlValue::Table(t) => Node::Table(t.into_iter().map(|(k, v)| (k, node_of_toml(v))).collect()),
    }
}

/// Relies on `toml_edit::DocumentMut`: parses `text`, sets `key` at the top
/// level to the string `value` (its `IndexMut` adds a missing key to the
/// root table), and prints the document; or gives the parser's message.
#[verifier::external_body]
pub(crate) fn set_toml_string(text: &str, key: &str, value: &str) -> (r: Result<String, String>)
    ensures
        match r {
            Ok(t) => toml_with_string(text@, key@, value@) == Some(t@),
            Err(_) => toml_with_string(text@, key@, value@) is None,
        },
{
    match text.parse::<toml_edit::DocumentMut>() {
        Ok(mut doc) => {
            doc[key] = toml_edit::value(value);
            Ok(doc.to_string())
        },
        Err(e) => Err(e.to_string()),
    }
}

} // verus!

//! The generic document tree that a configuration is read from, and how a
//! profile's nested tables flatten into dotted keys.

use vstd::prelude::*;
use crate::error::ConfigError;
use crate::value::{ColorModel, ValueModel};

verus! {

/// A node of a structured configuration document: nested tables, arrays
/// and scalars, as a TOML parser gives them.
#[derive(Debug)]
pub enum Node {
    Table(Vec<(String, Node)>),
    Array(Vec<Node>),
    Boolean(bool),
    Integer(i64),
    String(String),
    Float,
    Datetime,
}

/// The color that an array element stands for: a keyword for a string, the
/// number (cut to 32 bits) for an integer.
pub open spec fn color_of(n: Node) -> Option<ColorModel> {
    match n {
        Node::String(s) => Some(ColorModel::Text(s@)),
        Node::Integer(i) => Some(ColorModel::Number(i as u32)),
        _ => None,
    }
}

/// The colors of an array, if every element is a string or an integer.
pub open spec fn colors_of(items: Seq<Node>) -> Option<Seq<ColorModel>>
    decreases items.len(),
{
    if items.len() == 0 {
        Some(Seq::empty())
    } else {
        match colors_of(items.drop_last()) {
            Some(cs) => match color_of(items.last()) {
                Some(c) => Some(cs.push(c)),
                None => None,
            },
            None => None,
        }
    }
}

/// The value that a node other than a table stands for.
pub open spec fn leaf_value(n: Node) -> Result<ValueModel, ConfigError> {
    match n {
        Node::Array(items) => match colors_of(items@) {
            Some(cs) => Ok(ValueModel::Colors(cs)),
            None => Err(ConfigError::NonColorArray),
        },
        Node::Boolean(b) => Ok(ValueModel::Boolean(b)),
        Node::Integer(i) => Ok(ValueModel::Integer(i)),
        Node::String(s) => Ok(ValueModel::Text(s@)),
        _ => Err(ConfigError::UnsupportedScalar),
    }
}

/// The full key of a child: its own key below the top, else the parent's
/// key, a dot and its own key.
pub open spec fn child_key(prefix: Option<Seq<char>>, k: Seq<char>) -> Seq<char> {
    match prefix {
        None => k,
        Some(p) => p + seq!['.'] + k,
    }
}

/// The dotted keys and values that a table's entries flatten to, in order,
/// or the first error met in that order.
pub open spec fn flat_entries(prefix: Option<Seq<char>>, entries: Seq<(String, Node)>) -> Result<
    Seq<(Seq<char>, ValueModel)>,
    ConfigError,
>
    decreases entries,
{
    if entries.len() == 0 {
        Ok(Seq::empty())
    } else {
        let last = entries.last();
        let key = child_key(prefix, last.0@);
        match flat_entries(prefix, entries.drop_last()) {
            Err(e) => Err(e),
            Ok(front) => match last.1 {
                Node::Table(t) => match flat_entries(Some(key), t@) {
                    Err(e) => Err(e),
                    Ok(back) => Ok(front + back),
                },
                other => match leaf_value(other) {
                    Err(e) => Err(e),
                    Ok(v) => Ok(front.push((key, v))),
                },
            },
        }
    }
}

} // verus!

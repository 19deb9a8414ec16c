//! Reading KDL text into the document model, with the `kdl` crate's parser.
use vstd::prelude::*;
use crate::error::Error;
use crate::model::{Doc, Entry, Node, Value};

verus! {

/// Declares the `kdl` crate's document type, which the parser returns.
#[verifier::external_type_specification]
#[verifier::external_body]
pub struct ExKdlDocument(kdl::KdlDocument);

/// Declares the `kdl` crate's value type, which the parser's nodes hold.
#[verifier::external_type_specification]
#[verifier::external_body]
pub struct ExKdlValue(kdl::KdlValue);

/// The document that the `kdl` crate's parser reads from `text`, in this
/// library's model; `None` when the text is not a KDL document.
pub uninterp spec fn kdl_document(text: Seq<char>) -> Option<Doc>;

/// Parses `text` with the `kdl` crate (`str::parse` into `kdl::KdlDocument`,
/// KDL v2) and carries the result over into the document model.
///
/// Trusted: the result is the named `kdl_document(text)` (a function of the
/// text alone), and an error comes exactly when the parser refuses the text.
/// What the parser accepts, and the parse error's content, are not stated.
#[verifier::external_body]
fn parse_kdl(text: &str) -> (r: Result<Doc, kdl::KdlError>)
    ensures
        match r {
            Ok(d) => kdl_document(text@) == Some(d),
            Err(_) => kdl_document(text@) is None,
        },
{
    match text.parse::<kdl::KdlDocument>() {
        Ok(doc) => Ok(doc_from_kdl(&doc)),
        Err(e) => Err(e),
    }
}

/// Carries a `kdl::KdlDocument` over into the document model, node for node
/// (`nodes`, `name().value()`, `entries`, `name()`, `value()`, `children`),
/// in source order. Used by `parse_kdl` only, whose contract covers it.
#[verifier::external_body]
fn doc_from_kdl(doc: &kdl::KdlDocument) -> Doc {
    let node_of = |n: &kdl::KdlNode| Node {
        name: n.name().value().to_string(),
        entries: n.entries().iter().map(
            |e| Entry { name: e.name().map(|i| i.value().to_string()), value: value_from_kdl(e.value()) },
        ).collect(),
        children: n.children().map(doc_from_kdl),
    };
    Doc { nodes: doc.nodes().iter().map(node_of).collect() }
}

/// Carries a `kdl::KdlValue` over into the model, variant for variant; a
/// float by its bit pattern (`f64::to_bits`). Used by `doc_from_kdl` only.
#[verifier::external_body]
fn value_from_kdl(value: &kdl::KdlValue) -> Value {
    match value {
        kdl::KdlValue::String(s) => Value::String(s.clone()),
        kdl::KdlValue::Integer(i) => Value::Integer(*i),
        kdl::KdlValue::Float(f) => Value::Float(f.to_bits()),
        kdl::KdlValue::Bool(b) => Value::Bool(*b),
        kdl::KdlValue::Null => Value::Null,
    }
}

/// Parses KDL text into the document model; a text that is not KDL is a
/// `Parse` error.
pub fn parse_document(text: &str) -> (r: Result<Doc, Error>)
    ensures
        match r {
            Ok(d) => kdl_document(text@) == Some(d),
            Err(e) => kdl_document(text@) is None && e is Parse,
        },
{
    match parse_kdl(text) {
        Ok(doc) => Ok(doc),
        Err(e) => Err(Error::Parse(e)),
    }
}

} // verus!

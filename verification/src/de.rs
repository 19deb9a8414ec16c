//! Deserialization decisions: what each request of a serde visitor is
//! answered with, for a document, a field (the nodes that share a name), a
//! single node, or a single value.
pub mod any;
pub mod document;
pub mod field;
pub mod node;
pub mod value;

use vstd::prelude::*;
use crate::content::Content;
use crate::de::any::{doc_any, doc_content, result_model};
use crate::error::Error;
use crate::model::Doc;
use crate::parse::{kdl_document, parse_document};

verus! {

/// Deserializes a document into the serde data model: a map from each
/// distinct node name, in order of first appearance, to what the nodes of
/// that name give.
pub fn from_doc(doc: &Doc) -> (r: Result<Content, Error>)
    ensures
        result_model(r) == doc_content(*doc),
{
    doc_any(doc)
}

/// Parses KDL text and deserializes the document into the serde data model.
pub fn from_str(text: &str) -> (r: Result<Content, Error>)
    ensures
        match kdl_document(text@) {
            Some(doc) => result_model(r) == doc_content(doc),
            None => r matches Err(Error::Parse(_)),
        },
{
    let doc = parse_document(text)?;
    from_doc(&doc)
}

} // verus!

//! Booleans whose bare node stands for `true` or for `false`.
use vstd::prelude::*;
use crate::content::{Content, ContentModel};
use crate::de::any::field_content;
use crate::model::Doc;

verus! {

/// What a boolean with a bare default reads from what a visitor that
/// accepts anything was handed: a boolean is itself, unit (a bare node) is
/// the default, anything else is refused (`None`).
pub open spec fn bool_with_bare_default(found: ContentModel, default_value: bool) -> Option<bool> {
    match found {
        ContentModel::Bool(b) => Some(b),
        ContentModel::Unit => Some(default_value),
        _ => None,
    }
}

/// Reads a boolean where a bare node stands for `default_value`.
fn deserialize_bool_with_bare_default(found: &Content, default_value: bool) -> (r: Option<bool>)
    ensures
        r == bool_with_bare_default(found.model(), default_value),
{
    match found {
        Content::Bool(b) => Some(*b),
        Content::Unit => Some(default_value),
        _ => None,
    }
}

/// Reads a boolean field where a bare node stands for `true`: `enabled` is
/// `true`, `enabled #false` is `false`.
pub fn bare_true(found: &Content) -> (r: Option<bool>)
    ensures
        r == bool_with_bare_default(found.model(), true),
{
    deserialize_bool_with_bare_default(found, true)
}

/// Reads a boolean field where a bare node stands for `false`: `debug` is
/// `false`, `debug #true` is `true`.
pub fn bare_false(found: &Content) -> (r: Option<bool>)
    ensures
        r == bool_with_bare_default(found.model(), false),
{
    deserialize_bool_with_bare_default(found, false)
}

/// A bare node (no entries, no children) read as a boolean with a bare
/// default gives the default; a node whose only entry is a boolean argument
/// gives that boolean, whatever the default.
pub proof fn law_bare_node_gives_default(doc: Doc, picks: Seq<int>, default_value: bool)
    requires
        picks.len() > 0,
        0 <= picks[0] < doc.nodes@.len(),
        doc.nodes@[picks[0]].children is None,
        doc.nodes@[picks[0]].props().len() == 0,
    ensures
        doc.nodes@[picks[0]].args().len() == 0 ==> (field_content(doc, picks) matches Ok(c)
            && bool_with_bare_default(c, default_value) == Some(default_value)),
        (doc.nodes@[picks[0]].args().len() == 1 && doc.nodes@[picks[0]].args()[0] is Bool) ==> (
        field_content(doc, picks) matches Ok(c) && bool_with_bare_default(c, default_value)
            == Some(doc.nodes@[picks[0]].args()[0]->Bool_0)),
{
}

} // verus!

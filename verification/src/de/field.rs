//! Decisions on a field: the nodes of one document that share a name.
//!
//! A field is given by its document and the positions of its nodes there.
use vstd::prelude::*;
use crate::de::node::{
    any_plan_for, enum_plan_for, first_arg_of, holds_none, map_plan_for, node_any_plan,
    node_enum_plan, node_holds_none, node_map_plan, node_seq_plan, node_struct_plan, seq_plan_for,
    struct_plan_for, AnyPlan, EnumPlan, MapPlan, SeqPlan, StructPlan,
};
use crate::error::{Error, Found};
use crate::model::{Doc, Node, Value};

verus! {

/// Whether every position in `picks` is a node of `doc`.
pub open spec fn valid_picks(doc: Doc, picks: Seq<usize>) -> bool {
    forall|k: int| 0 <= k < picks.len() ==> picks[k] < doc.nodes@.len()
}

/// The first node of a field.
pub fn first_node<'a>(doc: &'a Doc, picks: &Vec<usize>) -> (r: Result<&'a Node, Error>)
    requires
        valid_picks(*doc, picks@),
    ensures
        match r {
            Ok(n) => picks@.len() > 0 && *n == doc.nodes@[picks@[0] as int],
            Err(e) => picks@.len() == 0 && e == Error::NoNode,
        },
{
    if picks.len() == 0 {
        Err(Error::NoNode)
    } else {
        Ok(&doc.nodes[picks[0]])
    }
}

/// The single node of a field: more than one is an error, naming the nodes
/// and their count.
pub fn only_node<'a>(doc: &'a Doc, picks: &Vec<usize>) -> (r: Result<&'a Node, Error>)
    requires
        valid_picks(*doc, picks@),
    ensures
        match r {
            Ok(n) => picks@.len() == 1 && *n == doc.nodes@[picks@[0] as int],
            Err(e) => picks@.len() != 1 && e == (if picks@.len() == 0 {
                Error::NoNode
            } else {
                Error::DuplicateNode {
                    name: doc.nodes@[picks@[0] as int].name,
                    count: picks@.len() as usize,
                }
            }),
        },
{
    if picks.len() > 1 {
        return Err(
            Error::DuplicateNode { name: doc.nodes[picks[0]].name.clone(), count: picks.len() },
        );
    }
    first_node(doc, picks)
}

/// The first argument of the single node of a field, as a scalar field is
/// read.
pub fn first_arg<'a>(doc: &'a Doc, picks: &Vec<usize>) -> (r: Result<&'a Value, Error>)
    requires
        valid_picks(*doc, picks@),
    ensures
        match r {
            Ok(v) => picks@.len() == 1 && doc.nodes@[picks@[0] as int].args().len() > 0 && *v
                == doc.nodes@[picks@[0] as int].args()[0],
            Err(e) => if picks@.len() == 0 {
                e == Error::NoNode
            } else if picks@.len() > 1 {
                e == (Error::DuplicateNode {
                    name: doc.nodes@[picks@[0] as int].name,
                    count: picks@.len() as usize,
                })
            } else {
                doc.nodes@[picks@[0] as int].args().len() == 0 && e == (Error::TypeMismatch {
                    expected: "a value argument",
                    got: Found::NodeWithoutArgs(doc.nodes@[picks@[0] as int].name),
                })
            },
        },
{
    let node = only_node(doc, picks)?;
    first_arg_of(node)
}

/// The answer of a field to a visitor that accepts anything, read from its
/// first node.
pub fn field_any_plan<'a>(doc: &'a Doc, picks: &Vec<usize>) -> (r: Result<AnyPlan<'a>, Error>)
    requires
        valid_picks(*doc, picks@),
    ensures
        match r {
            Ok(plan) => picks@.len() > 0 && any_plan_for(doc.nodes@[picks@[0] as int], plan),
            Err(e) => picks@.len() == 0 && e == Error::NoNode,
        },
{
    let node = first_node(doc, picks)?;
    Ok(node_any_plan(node))
}

/// Reads a field as an option: `true` when it stands for `None`, decided by
/// its first node.
pub fn field_holds_none(doc: &Doc, picks: &Vec<usize>) -> (r: Result<bool, Error>)
    requires
        valid_picks(*doc, picks@),
    ensures
        match r {
            Ok(b) => picks@.len() > 0 && b == holds_none(doc.nodes@[picks@[0] as int]),
            Err(e) => picks@.len() == 0 && e == Error::NoNode,
        },
{
    let node = first_node(doc, picks)?;
    Ok(node_holds_none(node))
}

/// The error of a field that is not given by exactly one node.
pub open spec fn not_single_error(doc: Doc, picks: Seq<usize>) -> Error {
    if picks.len() == 0 {
        Error::NoNode
    } else {
        Error::DuplicateNode { name: doc.nodes@[picks[0] as int].name, count: picks.len() as usize }
    }
}

/// Where the elements of a field read as a sequence come from: each of its
/// nodes when there are several, else what its single node gives.
pub fn field_seq_plan<'a>(doc: &'a Doc, picks: &Vec<usize>) -> (r: Result<SeqPlan<'a>, Error>)
    requires
        valid_picks(*doc, picks@),
    ensures
        picks@.len() > 1 ==> (r matches Ok(SeqPlan::Nodes { doc: d, picks: p }) && (*d == *doc
            && p@ == picks@)),
        picks@.len() == 0 ==> r == Err::<SeqPlan, Error>(Error::NoNode),
        picks@.len() == 1 ==> (r matches Ok(plan) && seq_plan_for(
            doc.nodes@[picks@[0] as int],
            plan,
        )),
{
    if picks.len() > 1 {
        let all = picks.clone();
        return Ok(SeqPlan::Nodes { doc, picks: all });
    }
    let node = first_node(doc, picks)?;
    Ok(node_seq_plan(node))
}

/// The entries of a field read as a map, from its single node.
pub fn field_map_plan<'a>(doc: &'a Doc, picks: &Vec<usize>) -> (r: Result<MapPlan<'a>, Error>)
    requires
        valid_picks(*doc, picks@),
    ensures
        match r {
            Ok(plan) => picks@.len() == 1 && map_plan_for(doc.nodes@[picks@[0] as int], plan),
            Err(e) => picks@.len() != 1 && e == not_single_error(*doc, picks@),
        },
{
    let node = only_node(doc, picks)?;
    Ok(node_map_plan(node))
}

/// The fields of a field read as a struct with `fields`, from its single
/// node.
pub fn field_struct_plan<'a>(doc: &'a Doc, picks: &Vec<usize>, fields: &[&'static str]) -> (r:
    Result<StructPlan<'a>, Error>)
    requires
        valid_picks(*doc, picks@),
    ensures
        match r {
            Ok(plan) => picks@.len() == 1 && struct_plan_for(
                doc.nodes@[picks@[0] as int],
                fields@,
                plan,
            ),
            Err(e) => picks@.len() != 1 && e == not_single_error(*doc, picks@),
        },
{
    let node = only_node(doc, picks)?;
    Ok(node_struct_plan(node, fields))
}

/// The variant a field holds, from its single node.
pub fn field_enum_plan<'a>(doc: &'a Doc, picks: &Vec<usize>) -> (r: Result<EnumPlan<'a>, Error>)
    requires
        valid_picks(*doc, picks@),
    ensures
        picks@.len() != 1 ==> r == Err::<EnumPlan, Error>(not_single_error(*doc, picks@)),
        picks@.len() == 1 ==> enum_plan_for(doc.nodes@[picks@[0] as int], r),
{
    let node = only_node(doc, picks)?;
    node_enum_plan(node)
}

} // verus!

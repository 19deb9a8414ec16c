//! The library's error type.
use vstd::prelude::*;
use crate::model::Value;

verus! {

/// Declares the parse error of the `kdl` crate, which `Error::Parse` carries.
#[verifier::external_type_specification]
#[verifier::external_body]
pub struct ExKdlError(kdl::KdlError);

/// What was found where a value of another kind was expected.
#[derive(Debug)]
pub enum Found {
    /// The value itself.
    Value(Value),
    /// A node, named here, that has no argument.
    NodeWithoutArgs(String),
    /// A scalar value where a sequence, map or struct was asked for.
    ScalarValue(Value),
}

/// Errors of deserialization.
#[derive(Debug)]
pub enum Error {
    /// The text is not a KDL document.
    Parse(kdl::KdlError),
    /// A free-form message.
    Message(String),
    /// The top-level type must be a struct or map.
    TopLevelNotStruct,
    /// Expected a value of one kind, found something else.
    TypeMismatch { expected: &'static str, got: Found },
    /// A required field was missing.
    MissingField(String),
    /// An integer does not fit the target type.
    IntegerOutOfRange(i128),
    /// Enum variant not found or ambiguous.
    UnknownVariant(String),
    /// Unsupported operation.
    Unsupported(String),
    /// A field was asked for, but no node carries it.
    NoNode,
    /// A scalar, map, struct or enum field is given by more than one node:
    /// the name of the nodes and how many there are.
    DuplicateNode { name: String, count: usize },
    /// The named node holds no enum variant: neither a variant name as
    /// first argument nor a single child node.
    NotAnEnum { node: String },
    /// A newtype variant named by an argument has no value after the name.
    MissingVariantValue,
}

} // verus!

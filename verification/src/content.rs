//! The serde data-model value that a self-describing deserialization yields.
use vstd::prelude::*;

verus! {

/// What a deserializer hands to a visitor that accepts anything.
///
/// A float is held by its IEEE-754 bit pattern.
#[derive(Debug)]
pub enum Content {
    Bool(bool),
    Int(i128),
    Float(u64),
    Str(String),
    Null,
    Unit,
    Sequence(Vec<Content>),
    Mapping(Vec<(String, Content)>),
}

/// The mathematical form of `Content`, with sequences in place of vectors.
pub enum ContentModel {
    Bool(bool),
    Int(i128),
    Float(u64),
    Str(String),
    Null,
    Unit,
    Sequence(Seq<ContentModel>),
    Mapping(Seq<(String, ContentModel)>),
}

impl Content {
    /// The model of this content.
    pub open spec fn model(self) -> ContentModel
        decreases self,
    {
        match self {
            Content::Bool(b) => ContentModel::Bool(b),
            Content::Int(i) => ContentModel::Int(i),
            Content::Float(f) => ContentModel::Float(f),
            Content::Str(s) => ContentModel::Str(s),
            Content::Null => ContentModel::Null,
            Content::Unit => ContentModel::Unit,
            Content::Sequence(v) => ContentModel::Sequence(seq_model(v@)),
            Content::Mapping(v) => ContentModel::Mapping(map_model(v@)),
        }
    }
}

/// The models of a sequence of contents.
pub open spec fn seq_model(s: Seq<Content>) -> Seq<ContentModel>
    decreases s,
{
    if s.len() == 0 {
        Seq::empty()
    } else {
        seq_model(s.drop_last()).push(s.last().model())
    }
}

/// The models of the entries of a map.
pub open spec fn map_model(s: Seq<(String, Content)>) -> Seq<(String, ContentModel)>
    decreases s,
{
    if s.len() == 0 {
        Seq::empty()
    } else {
        map_model(s.drop_last()).push((s.last().0, s.last().1.model()))
    }
}

} // verus!

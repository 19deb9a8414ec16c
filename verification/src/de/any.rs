//! A document read by a visitor that accepts anything: the self-describing
//! reading, which gives every node name, argument, property and children
//! block its place in the serde data model.
use vstd::prelude::*;
use crate::content::{map_model, seq_model, Content, ContentModel};
use crate::de::document::map_keys;
use crate::de::field::{field_any_plan, field_map_plan, field_seq_plan, valid_picks};
use crate::de::node::{
    node_any_plan, node_map_plan, node_seq_plan, nodes_named, reads_as_map, AnyPlan, MapPlan,
    SeqPlan,
};
use crate::de::value::{value_any, value_content};
use crate::error::Error;
use crate::model::{
    args_of, as_ints, deref_props, deref_values, first_occurrences, positions_named, props_of, Doc,
    Entry, Node, Value,
};

verus! {

broadcast use vstd::std_specs::vec::group_vec_axioms, vstd::seq::group_seq_axioms;

/// A children block is smaller than the document that holds its node.
pub proof fn lemma_children_smaller(doc: Doc, i: int)
    requires
        0 <= i < doc.nodes@.len(),
        doc.nodes@[i].children is Some,
    ensures
        decreases_to!(doc => doc.nodes@[i].children->Some_0),
{
    let node = doc.nodes@[i];
    assert(decreases_to!(doc => doc.nodes));
    assert(decreases_to!(doc.nodes => doc.nodes@));
    assert(decreases_to!(doc.nodes@ => node));
    assert(decreases_to!(node => node.children));
    assert(decreases_to!(node.children => node.children->Some_0));
}

/// The result of a reading, with the content taken by its model.
pub open spec fn result_model(r: Result<Content, Error>) -> Result<ContentModel, Error> {
    match r {
        Ok(c) => Ok(c.model()),
        Err(e) => Err(e),
    }
}

/// Values read one by one by a visitor that accepts anything.
pub open spec fn values_content(values: Seq<Value>) -> Seq<ContentModel> {
    values.map_values(|v: Value| value_content(v))
}

/// Properties read as map entries, each value read by a visitor that
/// accepts anything.
pub open spec fn props_content(props: Seq<(String, Value)>) -> Seq<(String, ContentModel)> {
    props.map_values(|p: (String, Value)| (p.0, value_content(p.1)))
}

/// A document read as a map: for each distinct node name, in order of first
/// appearance, the name and what the nodes of that name give; the first
/// error met, if any.
pub open spec fn doc_content(doc: Doc) -> Result<ContentModel, Error>
    decreases doc, 5int, 0int,
{
    match keys_content(doc, first_occurrences(doc.nodes@)) {
        Ok(entries) => Ok(ContentModel::Mapping(entries)),
        Err(e) => Err(e),
    }
}

/// The map entries of `doc` for the keys given by the first nodes at
/// `keys`, in order; the first error met, if any.
pub open spec fn keys_content(doc: Doc, keys: Seq<int>) -> Result<
    Seq<(String, ContentModel)>,
    Error,
>
    decreases doc, 4int, keys.len(),
{
    if keys.len() == 0 {
        Ok(Seq::empty())
    } else {
        match keys_content(doc, keys.drop_last()) {
            Err(e) => Err(e),
            Ok(prefix) => {
                let k = keys.last();
                if 0 <= k < doc.nodes@.len() {
                    let name = doc.nodes@[k].name;
                    match field_content(doc, positions_named(doc.nodes@, name@)) {
                        Err(e) => Err(e),
                        Ok(c) => Ok(prefix.push((name, c))),
                    }
                } else {
                    Ok(prefix)
                }
            },
        }
    }
}

/// The nodes of `doc` at `picks` (one field) read by a visitor that accepts
/// anything, decided by the first of them: a map (a single node only) when it
/// has children or properties, else its single argument, else a sequence
/// (each node when there are several, else its arguments), else unit.
pub open spec fn field_content(doc: Doc, picks: Seq<int>) -> Result<ContentModel, Error>
    decreases doc, 3int, 0int,
{
    if picks.len() == 0 || !(0 <= picks[0] < doc.nodes@.len()) {
        Err(Error::NoNode)
    } else {
        let node = doc.nodes@[picks[0]];
        if reads_as_map(node) {
            if picks.len() > 1 {
                Err(Error::DuplicateNode { name: node.name, count: picks.len() as usize })
            } else {
                map_content(doc, picks[0])
            }
        } else if node.args().len() == 1 {
            Ok(value_content(node.args()[0]))
        } else if node.args().len() > 1 {
            if picks.len() > 1 {
                match nodes_content(doc, picks) {
                    Ok(items) => Ok(ContentModel::Sequence(items)),
                    Err(e) => Err(e),
                }
            } else {
                Ok(ContentModel::Sequence(values_content(node.args())))
            }
        } else {
            Ok(ContentModel::Unit)
        }
    }
}

/// The nodes of `doc` at `picks` read one by one by their content, in order;
/// the first error met, if any.
pub open spec fn nodes_content(doc: Doc, picks: Seq<int>) -> Result<Seq<ContentModel>, Error>
    decreases doc, 2int, picks.len(),
{
    if picks.len() == 0 {
        Ok(Seq::empty())
    } else {
        match nodes_content(doc, picks.drop_last()) {
            Err(e) => Err(e),
            Ok(prefix) => match node_content(doc, picks.last()) {
                Err(e) => Err(e),
                Ok(c) => Ok(prefix.push(c)),
            },
        }
    }
}

/// The node of `doc` at `i` read by its content: a map when it has children
/// or properties, else its single argument, else the sequence of its
/// arguments, else unit.
pub open spec fn node_content(doc: Doc, i: int) -> Result<ContentModel, Error>
    decreases doc, 1int, 0int,
{
    if !(0 <= i < doc.nodes@.len()) {
        Err(Error::NoNode)
    } else {
        let node = doc.nodes@[i];
        if reads_as_map(node) {
            map_content(doc, i)
        } else if node.args().len() == 1 {
            Ok(value_content(node.args()[0]))
        } else if node.args().len() > 1 {
            Ok(ContentModel::Sequence(values_content(node.args())))
        } else {
            Ok(ContentModel::Unit)
        }
    }
}

/// The node of `doc` at `i` read as a map: its children block read as a
/// document when it has one, else its properties.
pub open spec fn map_content(doc: Doc, i: int) -> Result<ContentModel, Error>
    decreases doc, 0int, 0int,
{
    if !(0 <= i < doc.nodes@.len()) {
        Err(Error::NoNode)
    } else {
        let node = doc.nodes@[i];
        match node.children {
            Some(children) => {
                proof {
                    lemma_children_smaller(doc, i);
                }
                doc_content(children)
            },
            None => Ok(ContentModel::Mapping(props_content(node.props()))),
        }
    }
}

/// Every first occurrence is a position of the node list.
pub proof fn lemma_first_occurrences_in_range(nodes: Seq<Node>)
    ensures
        forall|j: int|
            0 <= j < first_occurrences(nodes).len() ==> 0 <= #[trigger] first_occurrences(
                nodes,
            )[j] < nodes.len(),
    decreases nodes.len(),
{
    if nodes.len() > 0 {
        let rest = first_occurrences(nodes.drop_last());
        lemma_first_occurrences_in_range(nodes.drop_last());
        assert forall|j: int| 0 <= j < first_occurrences(nodes).len() implies 0
            <= #[trigger] first_occurrences(nodes)[j] < nodes.len() by {
            if j < rest.len() {
                assert(first_occurrences(nodes)[j] == rest[j]);
            }
        }
    }
}

/// Every position of a node of a given name is a position of the node list.
pub proof fn lemma_positions_in_range(nodes: Seq<Node>, name: Seq<char>)
    ensures
        forall|j: int|
            0 <= j < positions_named(nodes, name).len() ==> 0 <= #[trigger] positions_named(
                nodes,
                name,
            )[j] < nodes.len(),
    decreases nodes.len(),
{
    if nodes.len() > 0 {
        let rest = positions_named(nodes.drop_last(), name);
        lemma_positions_in_range(nodes.drop_last(), name);
        assert forall|j: int| 0 <= j < positions_named(nodes, name).len() implies 0
            <= #[trigger] positions_named(nodes, name)[j] < nodes.len() by {
            if j < rest.len() {
                assert(positions_named(nodes, name)[j] == rest[j]);
            }
        }
    }
}

/// An error met on a prefix of the keys is the error of all the keys.
pub proof fn lemma_keys_error_persists(doc: Doc, keys: Seq<int>, k: int)
    requires
        0 <= k <= keys.len(),
        keys_content(doc, keys.take(k)) is Err,
    ensures
        keys_content(doc, keys) == keys_content(doc, keys.take(k)),
    decreases keys.len() - k,
{
    if k < keys.len() {
        assert(keys.take(k + 1).drop_last() == keys.take(k));
        lemma_keys_error_persists(doc, keys, k + 1);
    } else {
        assert(keys.take(k) == keys);
    }
}

/// An error met on a prefix of the nodes is the error of all the nodes.
pub proof fn lemma_nodes_error_persists(doc: Doc, picks: Seq<int>, k: int)
    requires
        0 <= k <= picks.len(),
        nodes_content(doc, picks.take(k)) is Err,
    ensures
        nodes_content(doc, picks) == nodes_content(doc, picks.take(k)),
    decreases picks.len() - k,
{
    if k < picks.len() {
        assert(picks.take(k + 1).drop_last() == picks.take(k));
        lemma_nodes_error_persists(doc, picks, k + 1);
    } else {
        assert(picks.take(k) == picks);
    }
}

/// Values read one by one by a visitor that accepts anything.
pub fn values_any(values: &Vec<&Value>) -> (r: Vec<Content>)
    ensures
        seq_model(r@) == values_content(deref_values(values@)),
{
    let mut r: Vec<Content> = Vec::new();
    let mut k: usize = 0;
    while k < values.len()
        invariant
            k <= values.len(),
            seq_model(r@) == values_content(deref_values(values@).take(k as int)),
        decreases values.len() - k,
    {
        let c = value_any(values[k]);
        let ghost before = r@;
        r.push(c);
        assert(r@.drop_last() == before);
        assert(deref_values(values@).take(k + 1) == deref_values(values@).take(k as int).push(
            *values@[k as int],
        ));
        assert(values_content(deref_values(values@).take(k + 1)) == values_content(
            deref_values(values@).take(k as int),
        ).push(value_content(*values@[k as int])));
        k = k + 1;
    }
    assert(deref_values(values@).take(values.len() as int) == deref_values(values@));
    r
}

/// Properties read as map entries by a visitor that accepts anything.
pub fn props_any(props: &Vec<(&String, &Value)>) -> (r: Vec<(String, Content)>)
    ensures
        map_model(r@) == props_content(deref_props(props@)),
{
    let mut r: Vec<(String, Content)> = Vec::new();
    let mut k: usize = 0;
    while k < props.len()
        invariant
            k <= props.len(),
            map_model(r@) == props_content(deref_props(props@).take(k as int)),
        decreases props.len() - k,
    {
        let (name, value) = props[k];
        let c = value_any(value);
        let ghost before = r@;
        r.push((name.clone(), c));
        assert(r@.drop_last() == before);
        assert(deref_props(props@).take(k + 1) == deref_props(props@).take(k as int).push(
            (*name, *value),
        ));
        assert(props_content(deref_props(props@).take(k + 1)) == props_content(
            deref_props(props@).take(k as int),
        ).push((*name, value_content(*value))));
        k = k + 1;
    }
    assert(deref_props(props@).take(props.len() as int) == deref_props(props@));
    r
}

/// A document read by a visitor that accepts anything: a map from each
/// distinct node name, in order of first appearance, to what its nodes give.
pub fn doc_any(doc: &Doc) -> (r: Result<Content, Error>)
    ensures
        result_model(r) == doc_content(*doc),
    decreases doc, 5int, 0int,
{
    let keys = map_keys(doc);
    let ghost all = first_occurrences(doc.nodes@);
    proof {
        lemma_first_occurrences_in_range(doc.nodes@);
    }
    let mut entries: Vec<(String, Content)> = Vec::new();
    let mut k: usize = 0;
    while k < keys.len()
        invariant
            k <= keys.len(),
            as_ints(keys@) == all,
            all == first_occurrences(doc.nodes@),
            forall|j: int| 0 <= j < all.len() ==> 0 <= #[trigger] all[j] < doc.nodes@.len(),
            keys_content(*doc, all.take(k as int)) == Ok::<Seq<(String, ContentModel)>, Error>(
                map_model(entries@),
            ),
        decreases keys.len() - k,
    {
        assert(all[k as int] == keys@[k as int] as int);
        let idx = keys[k];
        let name = &doc.nodes[idx].name;
        let picks = nodes_named(&doc.nodes, name);
        proof {
            lemma_positions_in_range(doc.nodes@, name@);
            assert(all.take(k + 1).drop_last() == all.take(k as int));
            assert(all.take(k + 1).last() == idx as int);
            assert forall|j: int| 0 <= j < picks@.len() implies #[trigger] picks@[j]
                < doc.nodes@.len() by {
                assert(as_ints(picks@)[j] == picks@[j] as int);
            }
        }
        match field_any(doc, &picks) {
            Ok(c) => {
                let ghost before = entries@;
                entries.push((name.clone(), c));
                assert(entries@.drop_last() == before);
            },
            Err(e) => {
                proof {
                    lemma_keys_error_persists(*doc, all, k + 1);
                }
                return Err(e);
            },
        }
        k = k + 1;
    }
    assert(all.take(keys.len() as int) == all);
    Ok(Content::Mapping(entries))
}

/// A field (the nodes of `doc` at `picks`) read by a visitor that accepts
/// anything.
pub fn field_any(doc: &Doc, picks: &Vec<usize>) -> (r: Result<Content, Error>)
    requires
        valid_picks(*doc, picks@),
    ensures
        result_model(r) == field_content(*doc, as_ints(picks@)),
    decreases doc, 3int, 0int,
{
    let plan = field_any_plan(doc, picks)?;
    match plan {
        AnyPlan::Mapping => match field_map_plan(doc, picks)? {
            MapPlan::Children(_) => map_any(doc, picks[0]),
            MapPlan::Props(props) => Ok(Content::Mapping(props_any(&props))),
        },
        AnyPlan::Value(v) => Ok(value_any(v)),
        AnyPlan::Sequence => match field_seq_plan(doc, picks)? {
            SeqPlan::Nodes { doc: d, picks: p } => {
                let items = nodes_any(d, &p)?;
                Ok(Content::Sequence(items))
            },
            SeqPlan::Children(_) | SeqPlan::Itself(_) => {
                proof {
                    assert(false);
                }
                Err(Error::NoNode)
            },
            SeqPlan::Args(args) => Ok(Content::Sequence(values_any(&args))),
        },
        AnyPlan::Unit => Ok(Content::Unit),
    }
}

/// The nodes of `doc` at `picks` read one by one by their content.
pub fn nodes_any(doc: &Doc, picks: &Vec<usize>) -> (r: Result<Vec<Content>, Error>)
    requires
        valid_picks(*doc, picks@),
    ensures
        match r {
            Ok(items) => nodes_content(*doc, as_ints(picks@)) == Ok::<
                Seq<ContentModel>,
                Error,
            >(seq_model(items@)),
            Err(e) => nodes_content(*doc, as_ints(picks@)) == Err::<Seq<ContentModel>, Error>(e),
        },
    decreases doc, 2int, 0int,
{
    let ghost all = as_ints(picks@);
    let mut items: Vec<Content> = Vec::new();
    let mut k: usize = 0;
    while k < picks.len()
        invariant
            k <= picks.len(),
            all == as_ints(picks@),
            valid_picks(*doc, picks@),
            nodes_content(*doc, all.take(k as int)) == Ok::<Seq<ContentModel>, Error>(
                seq_model(items@),
            ),
        decreases picks.len() - k,
    {
        proof {
            assert(all.take(k + 1).drop_last() == all.take(k as int));
            assert(all.take(k + 1).last() == picks@[k as int] as int);
        }
        match node_any(doc, picks[k]) {
            Ok(c) => {
                let ghost before = items@;
                items.push(c);
                assert(items@.drop_last() == before);
            },
            Err(e) => {
                proof {
                    lemma_nodes_error_persists(*doc, all, k + 1);
                }
                return Err(e);
            },
        }
        k = k + 1;
    }
    assert(all.take(picks.len() as int) == all);
    Ok(items)
}

/// The node of `doc` at `i` read by its content by a visitor that accepts
/// anything.
pub fn node_any(doc: &Doc, i: usize) -> (r: Result<Content, Error>)
    requires
        i < doc.nodes@.len(),
    ensures
        result_model(r) == node_content(*doc, i as int),
    decreases doc, 1int, 0int,
{
    let node = &doc.nodes[i];
    match node_any_plan(node) {
        AnyPlan::Mapping => map_any(doc, i),
        AnyPlan::Value(v) => Ok(value_any(v)),
        AnyPlan::Sequence => match node_seq_plan(node) {
            SeqPlan::Args(args) => Ok(Content::Sequence(values_any(&args))),
            _ => {
                proof {
                    assert(false);
                }
                Err(Error::NoNode)
            },
        },
        AnyPlan::Unit => Ok(Content::Unit),
    }
}

/// The node of `doc` at `i` read as a map by a visitor that accepts
/// anything.
pub fn map_any(doc: &Doc, i: usize) -> (r: Result<Content, Error>)
    requires
        i < doc.nodes@.len(),
    ensures
        result_model(r) == map_content(*doc, i as int),
    decreases doc, 0int, 0int,
{
    match node_map_plan(&doc.nodes[i]) {
        MapPlan::Children(children) => {
            proof {
                lemma_children_smaller(*doc, i as int);
            }
            doc_any(children)
        },
        MapPlan::Props(props) => Ok(Content::Mapping(props_any(&props))),
    }
}

/// The entries for keys at `keys`: one per key, named after the key's node,
/// holding what the nodes of that name give.
proof fn lemma_keys_content_entries(doc: Doc, keys: Seq<int>)
    requires
        forall|j: int| 0 <= j < keys.len() ==> 0 <= #[trigger] keys[j] < doc.nodes@.len(),
    ensures
        keys_content(doc, keys) matches Ok(entries) ==> {
            &&& entries.len() == keys.len()
            &&& forall|j: int|
                0 <= j < keys.len() ==> {
                    let name = doc.nodes@[keys[j]].name;
                    &&& (#[trigger] entries[j]).0 == name
                    &&& field_content(doc, positions_named(doc.nodes@, name@)) == Ok::<
                        ContentModel,
                        Error,
                    >(entries[j].1)
                }
        },
    decreases keys.len(),
{
    if keys.len() > 0 {
        lemma_keys_content_entries(doc, keys.drop_last());
    }
}

/// A document read by a visitor that accepts anything is, when it reads at
/// all, a map with one entry per key (first appearance of each node name, in
/// order): the entry is named after the key and holds what every node of
/// that name gives.
pub proof fn law_document_reads_as_map_of_its_names(doc: Doc)
    ensures
        doc_content(doc) is Ok ==> (doc_content(doc) matches Ok(ContentModel::Mapping(entries))
            && entries.len() == first_occurrences(doc.nodes@).len() && forall|j: int|
            0 <= j < entries.len() ==> {
                let name = doc.nodes@[first_occurrences(doc.nodes@)[j]].name;
                &&& (#[trigger] entries[j]).0 == name
                &&& field_content(doc, positions_named(doc.nodes@, name@)) == Ok::<
                    ContentModel,
                    Error,
                >(entries[j].1)
            }),
{
    lemma_first_occurrences_in_range(doc.nodes@);
    lemma_keys_content_entries(doc, first_occurrences(doc.nodes@));
}

/// A field whose first node has no children block and a single entry, an
/// argument, reads as that argument handed over unchanged: an integer `i`
/// gives `Int(i)`, a string `s` gives `Str(s)`, a float the same bits, a
/// bool `b` gives `Bool(b)`, `#null` gives `Null`.
pub proof fn law_single_argument_field_reads_as_its_value(doc: Doc, picks: Seq<int>)
    requires
        picks.len() > 0,
        0 <= picks[0] < doc.nodes@.len(),
        doc.nodes@[picks[0]].children is None,
        doc.nodes@[picks[0]].entries@.len() == 1,
        doc.nodes@[picks[0]].entries@[0].name is None,
    ensures
        field_content(doc, picks) == Ok::<ContentModel, Error>(
            match doc.nodes@[picks[0]].entries@[0].value {
                Value::String(s) => ContentModel::Str(s),
                Value::Integer(i) => ContentModel::Int(i),
                Value::Float(f) => ContentModel::Float(f),
                Value::Bool(b) => ContentModel::Bool(b),
                Value::Null => ContentModel::Null,
            },
        ),
{
    let node = doc.nodes@[picks[0]];
    let entries = node.entries@;
    assert(entries.drop_last() =~= Seq::<Entry>::empty());
    assert(props_of(entries.drop_last()) =~= Seq::<(String, Value)>::empty());
    assert(node.props().len() == 0);
    assert(args_of(entries.drop_last()) =~= Seq::<Value>::empty());
    assert(node.args() =~= seq![entries[0].value]);
}

/// A document of one node that has no children block and a single entry,
/// an argument, reads as a map of one entry: the node's name and that
/// argument handed over unchanged (`offset -5` gives `offset` and `Int(-5)`).
pub proof fn law_single_value_document(doc: Doc)
    requires
        doc.nodes@.len() == 1,
        doc.nodes@[0].children is None,
        doc.nodes@[0].entries@.len() == 1,
        doc.nodes@[0].entries@[0].name is None,
    ensures
        doc_content(doc) == Ok::<ContentModel, Error>(
            ContentModel::Mapping(
                seq![(doc.nodes@[0].name, match doc.nodes@[0].entries@[0].value {
                    Value::String(s) => ContentModel::Str(s),
                    Value::Integer(i) => ContentModel::Int(i),
                    Value::Float(f) => ContentModel::Float(f),
                    Value::Bool(b) => ContentModel::Bool(b),
                    Value::Null => ContentModel::Null,
                })],
            ),
        ),
{
    let nodes = doc.nodes@;
    let name = nodes[0].name;
    assert(nodes.drop_last() =~= Seq::<Node>::empty());
    assert(first_occurrences(nodes.drop_last()) =~= Seq::<int>::empty());
    assert(first_occurrences(nodes) =~= seq![0int]);
    assert(positions_named(nodes.drop_last(), name@) =~= Seq::<int>::empty());
    assert(positions_named(nodes, name@) =~= seq![0int]);
    let picks = seq![0int];
    law_single_argument_field_reads_as_its_value(doc, picks);
    assert(seq![0int].drop_last() =~= Seq::<int>::empty());
    assert(keys_content(doc, Seq::<int>::empty()) == Ok::<Seq<(String, ContentModel)>, Error>(
        Seq::empty(),
    ));
}

} // verus!

//! Decisions on a single node: its arguments, properties, children, and what
//! it holds when read as an option, a sequence, a map, a struct or an enum.
use vstd::prelude::*;
use vstd::string::*;
use crate::error::{Error, Found};
use crate::model::{
    args_of, as_ints, dash_positions, deref_props, deref_values, lemma_first_arg_is_first_unnamed,
    lemma_sole_arg_has_sole_unnamed, lemma_sole_unnamed_is_sole_arg, positions_named, props_of,
    Doc, Node, Value,
};

verus! {

/// The positional arguments of `node` (entries without a name), in order.
pub fn node_args<'a>(node: &'a Node) -> (r: Vec<&'a Value>)
    ensures
        deref_values(r@) == node.args(),
{
    let mut r: Vec<&'a Value> = Vec::new();
    let mut i: usize = 0;
    while i < node.entries.len()
        invariant
            i <= node.entries.len(),
            deref_values(r@) == args_of(node.entries@.take(i as int)),
        decreases node.entries.len() - i,
    {
        let e = &node.entries[i];
        proof {
            assert(node.entries@.take(i + 1).drop_last() == node.entries@.take(i as int));
        }
        if e.name.is_none() {
            let ghost before = r@;
            r.push(&e.value);
            assert(deref_values(r@) == deref_values(before).push(e.value));
        }
        i = i + 1;
    }
    assert(node.entries@.take(node.entries.len() as int) == node.entries@);
    r
}

/// The properties of `node` (named entries), in order, repeated names kept.
pub fn node_props<'a>(node: &'a Node) -> (r: Vec<(&'a String, &'a Value)>)
    ensures
        deref_props(r@) == node.props(),
{
    let mut r: Vec<(&'a String, &'a Value)> = Vec::new();
    let mut i: usize = 0;
    while i < node.entries.len()
        invariant
            i <= node.entries.len(),
            deref_props(r@) == props_of(node.entries@.take(i as int)),
        decreases node.entries.len() - i,
    {
        let e = &node.entries[i];
        proof {
            assert(node.entries@.take(i + 1).drop_last() == node.entries@.take(i as int));
        }
        match &e.name {
            Some(n) => {
                let ghost before = r@;
                r.push((n, &e.value));
                assert(deref_props(r@) == deref_props(before).push((*n, e.value)));
            },
            None => {},
        }
        i = i + 1;
    }
    assert(node.entries@.take(node.entries.len() as int) == node.entries@);
    r
}

/// The first positional argument of `node`, or the error that names a node
/// without arguments.
pub fn first_arg_of<'a>(node: &'a Node) -> (r: Result<&'a Value, Error>)
    ensures
        match r {
            Ok(v) => node.args().len() > 0 && *v == node.args()[0],
            Err(e) => node.args().len() == 0 && e == (Error::TypeMismatch {
                expected: "a value argument",
                got: Found::NodeWithoutArgs(node.name),
            }),
        },
{
    let args = node_args(node);
    if args.len() > 0 {
        Ok(args[0])
    } else {
        Err(Error::TypeMismatch { expected: "a value argument", got: Found::NodeWithoutArgs(node.name.clone()) })
    }
}

/// Whether `name` is `-`, the name of a sequence element.
pub fn is_dash_name(name: &String) -> (r: bool)
    ensures
        r == (name@ == seq!['-']),
{
    let s = name.as_str();
    if s.unicode_len() == 1 {
        let c = s.get_char(0);
        if c == '-' {
            assert(name@ =~= seq!['-']);
            true
        } else {
            false
        }
    } else {
        false
    }
}

/// The positions of the nodes of `nodes` named `name`, ascending.
pub fn nodes_named(nodes: &Vec<Node>, name: &String) -> (r: Vec<usize>)
    ensures
        as_ints(r@) == positions_named(nodes@, name@),
{
    let mut r: Vec<usize> = Vec::new();
    let mut i: usize = 0;
    while i < nodes.len()
        invariant
            i <= nodes.len(),
            as_ints(r@) == positions_named(nodes@.take(i as int), name@),
        decreases nodes.len() - i,
    {
        proof {
            assert(nodes@.take(i + 1).drop_last() == nodes@.take(i as int));
        }
        if nodes[i].name == *name {
            let ghost before = r@;
            r.push(i);
            assert(as_ints(r@) == as_ints(before).push(i as int));
        }
        i = i + 1;
    }
    assert(nodes@.take(nodes.len() as int) == nodes@);
    r
}

/// The positions of the dash nodes of `nodes`, ascending.
pub fn dash_nodes(nodes: &Vec<Node>) -> (r: Vec<usize>)
    ensures
        as_ints(r@) == dash_positions(nodes@),
{
    let mut r: Vec<usize> = Vec::new();
    let mut i: usize = 0;
    while i < nodes.len()
        invariant
            i <= nodes.len(),
            as_ints(r@) == positions_named(nodes@.take(i as int), seq!['-']),
        decreases nodes.len() - i,
    {
        proof {
            assert(nodes@.take(i + 1).drop_last() == nodes@.take(i as int));
        }
        if is_dash_name(&nodes[i].name) {
            let ghost before = r@;
            r.push(i);
            assert(as_ints(r@) == as_ints(before).push(i as int));
        }
        i = i + 1;
    }
    assert(nodes@.take(nodes.len() as int) == nodes@);
    r
}

/// Whether `node` stands for `None` when read as an option: a single `#null`
/// argument and no children block.
pub open spec fn holds_none(node: Node) -> bool {
    &&& node.args().len() == 1
    &&& node.args()[0] is Null
    &&& node.children is None
}

/// Reads `node` as an option: `true` when it stands for `None`.
pub fn node_holds_none(node: &Node) -> (r: bool)
    ensures
        r == holds_none(*node),
{
    let args = node_args(node);
    args.len() == 1 && args[0].is_null() && node.children.is_none()
}

/// What a node is read as when the visitor accepts anything.
pub enum AnyPlan<'a> {
    /// A map, from the children block or from the properties.
    Mapping,
    /// The single argument.
    Value(&'a Value),
    /// A sequence.
    Sequence,
    /// Unit: a bare node.
    Unit,
}

/// Whether a node reads as a map when the visitor accepts anything.
pub open spec fn reads_as_map(node: Node) -> bool {
    node.children is Some || node.props().len() > 0
}

/// `plan` is how `node` answers a visitor that accepts anything.
pub open spec fn any_plan_for(node: Node, plan: AnyPlan) -> bool {
    match plan {
        AnyPlan::Mapping => reads_as_map(node),
        AnyPlan::Value(v) => !reads_as_map(node) && node.args().len() == 1 && *v == node.args()[0],
        AnyPlan::Sequence => !reads_as_map(node) && node.args().len() > 1,
        AnyPlan::Unit => !reads_as_map(node) && node.args().len() == 0,
    }
}

/// The answer for a single node to a visitor that accepts anything: a map
/// when it has children or properties, else its single argument, else a
/// sequence of its arguments, else unit.
pub fn node_any_plan<'a>(node: &'a Node) -> (r: AnyPlan<'a>)
    ensures
        any_plan_for(*node, r),
{
    let args = node_args(node);
    let props = node_props(node);
    if node.children.is_some() || props.len() > 0 {
        AnyPlan::Mapping
    } else if args.len() == 1 {
        AnyPlan::Value(args[0])
    } else if args.len() > 1 {
        AnyPlan::Sequence
    } else {
        AnyPlan::Unit
    }
}

/// Where the elements of a sequence come from.
pub enum SeqPlan<'a> {
    /// The nodes of `doc` at `picks`, each read by its content.
    Nodes { doc: &'a Doc, picks: Vec<usize> },
    /// Every node of a children block whose nodes all share one name, each
    /// read by its content.
    Children(&'a Doc),
    /// The node itself, read by its content, as the only element: its
    /// children are the fields of one element, not elements.
    Itself(&'a Node),
    /// Values: the positional arguments.
    Args(Vec<&'a Value>),
}

/// Whether all of `nodes` have one name.
pub open spec fn share_one_name(nodes: Seq<Node>) -> bool {
    forall|i: int| 0 <= i < nodes.len() ==> (#[trigger] nodes[i]).name@ == nodes[0].name@
}

/// Whether all of `nodes` have one name.
pub fn nodes_share_one_name(nodes: &Vec<Node>) -> (r: bool)
    ensures
        r == share_one_name(nodes@),
{
    let mut i: usize = 0;
    while i < nodes.len()
        invariant
            i <= nodes.len(),
            forall|j: int| 0 <= j < i ==> (#[trigger] nodes@[j]).name@ == nodes@[0].name@,
        decreases nodes.len() - i,
    {
        if !(nodes[i].name == nodes[0].name) {
            return false;
        }
        i = i + 1;
    }
    true
}

/// `plan` is where the elements of `node` read as a sequence come from.
pub open spec fn seq_plan_for(node: Node, plan: SeqPlan) -> bool {
    match plan {
        SeqPlan::Nodes { doc, picks } => node.children is Some && *doc == node.children->Some_0
            && dash_positions(doc.nodes@).len() > 0 && as_ints(picks@) == dash_positions(doc.nodes@),
        SeqPlan::Children(doc) => node.children is Some && *doc == node.children->Some_0
            && dash_positions(doc.nodes@).len() == 0 && doc.nodes@.len() > 0 && share_one_name(
            doc.nodes@,
        ),
        SeqPlan::Itself(n) => node.children is Some && dash_positions(
            node.children->Some_0.nodes@,
        ).len() == 0 && !share_one_name(node.children->Some_0.nodes@) && *n == node,
        SeqPlan::Args(args) => (node.children is Some ==> node.children->Some_0.nodes@.len() == 0)
            && deref_values(args@) == node.args(),
    }
}

/// Where the elements of a single node read as a sequence come from: its
/// dash children when it has any; else its children when they all share one
/// name (repeated element nodes); else, when it has children of several
/// names, the node itself as the one element (a one-element sequence of
/// structs); else its arguments.
pub fn node_seq_plan<'a>(node: &'a Node) -> (r: SeqPlan<'a>)
    ensures
        seq_plan_for(*node, r),
{
    match &node.children {
        Some(children) => {
            let dashes = dash_nodes(&children.nodes);
            if dashes.len() > 0 {
                return SeqPlan::Nodes { doc: children, picks: dashes };
            }
            if children.nodes.len() > 0 {
                if nodes_share_one_name(&children.nodes) {
                    return SeqPlan::Children(children);
                }
                return SeqPlan::Itself(node);
            }
        },
        None => {},
    }
    SeqPlan::Args(node_args(node))
}

/// Where the entries of a map come from.
pub enum MapPlan<'a> {
    /// The nodes of a children block, grouped by name.
    Children(&'a Doc),
    /// The properties (possibly none).
    Props(Vec<(&'a String, &'a Value)>),
}

/// `plan` is where the entries of `node` read as a map come from.
pub open spec fn map_plan_for(node: Node, plan: MapPlan) -> bool {
    match plan {
        MapPlan::Children(doc) => node.children is Some && *doc == node.children->Some_0,
        MapPlan::Props(props) => node.children is None && deref_props(props@) == node.props(),
    }
}

/// The entries of a single node read as a map: its children block when it
/// has one, else its properties.
pub fn node_map_plan<'a>(node: &'a Node) -> (r: MapPlan<'a>)
    ensures
        map_plan_for(*node, r),
{
    match &node.children {
        Some(children) => MapPlan::Children(children),
        None => MapPlan::Props(node_props(node)),
    }
}

/// Where the fields of a struct come from.
pub enum StructPlan<'a> {
    /// The nodes of a children block, grouped by name.
    Children(&'a Doc),
    /// The properties, at least one.
    Props(Vec<(&'a String, &'a Value)>),
    /// The sole field of the struct, given by the node's sole argument.
    SingleArg { field: &'static str, value: &'a Value },
    /// No field at all.
    Empty,
}

/// `plan` is where the fields of `node` read as a struct with `fields` come
/// from.
pub open spec fn struct_plan_for(node: Node, fields: Seq<&'static str>, plan: StructPlan) -> bool {
    match plan {
        StructPlan::Children(doc) => node.children is Some && *doc == node.children->Some_0,
        StructPlan::Props(props) => node.children is None && node.props().len() > 0
            && deref_props(props@) == node.props(),
        StructPlan::SingleArg { field, value } => node.children is None && node.props().len() == 0
            && fields.len() == 1 && node.args().len() == 1 && field == fields[0] && *value
            == node.args()[0],
        StructPlan::Empty => node.children is None && node.props().len() == 0 && !(fields.len()
            == 1 && node.args().len() == 1),
    }
}

/// The fields of a single node read as a struct with `fields`: its children
/// block, else its properties, else (one field, one argument) that argument
/// as that field, else nothing.
pub fn node_struct_plan<'a>(node: &'a Node, fields: &[&'static str]) -> (r: StructPlan<'a>)
    ensures
        struct_plan_for(*node, fields@, r),
{
    match &node.children {
        Some(children) => StructPlan::Children(children),
        None => {
            let props = node_props(node);
            if props.len() > 0 {
                return StructPlan::Props(props);
            }
            let args = node_args(node);
            if fields.len() == 1 && args.len() == 1 {
                StructPlan::SingleArg { field: fields[0], value: args[0] }
            } else {
                StructPlan::Empty
            }
        },
    }
}

/// How an enum variant is given by a node.
pub enum EnumPlan<'a> {
    /// By name in the first argument of `node`; the arguments after it hold
    /// the variant's content.
    Unit { variant: &'a String, node: &'a Node },
    /// By the name of the sole child `node`, whose content is the variant's.
    Complex { variant: &'a String, node: &'a Node },
}

/// Whether `node` names a variant by a string first argument.
pub open spec fn names_variant_by_arg(node: Node) -> bool {
    &&& node.args().len() > 0
    &&& node.children is None
    &&& node.args()[0] is String
}

/// Whether `node` names a variant by a sole child node.
pub open spec fn names_variant_by_child(node: Node) -> bool {
    &&& node.children is Some
    &&& node.children->Some_0.nodes@.len() == 1
}

/// `r` is the variant `node` holds, or the error for a node that holds none.
pub open spec fn enum_plan_for(node: Node, r: Result<EnumPlan, Error>) -> bool {
    match r {
        Ok(EnumPlan::Unit { variant, node: n }) => names_variant_by_arg(node) && *variant
            == node.args()[0]->String_0 && *n == node,
        Ok(EnumPlan::Complex { variant, node: n }) => !names_variant_by_arg(node)
            && names_variant_by_child(node) && *n == node.children->Some_0.nodes@[0] && *variant
            == n.name,
        Err(e) => !names_variant_by_arg(node) && !names_variant_by_child(node) && e
            == Error::NotAnEnum { node: node.name },
    }
}

/// The variant a single node holds: named by its first argument when that
/// is a string and there is no children block, else by its sole child.
pub fn node_enum_plan<'a>(node: &'a Node) -> (r: Result<EnumPlan<'a>, Error>)
    ensures
        enum_plan_for(*node, r),
{
    let args = node_args(node);
    if args.len() > 0 && node.children.is_none() {
        match args[0] {
            Value::String(s) => {
                return Ok(EnumPlan::Unit { variant: s, node });
            },
            _ => {},
        }
    }
    match &node.children {
        Some(children) => {
            if children.nodes.len() == 1 {
                let child = &children.nodes[0];
                return Ok(EnumPlan::Complex { variant: &child.name, node: child });
            }
        },
        None => {},
    }
    Err(Error::NotAnEnum { node: node.name.clone() })
}

/// A node without a children block whose first entry without a name holds a
/// string names the variant by exactly that string, whatever the entries
/// after it hold.
pub proof fn law_variant_named_by_first_argument(node: Node, r: Result<EnumPlan, Error>, k: int)
    requires
        enum_plan_for(node, r),
        node.children is None,
        0 <= k < node.entries@.len(),
        node.entries@[k].name is None,
        node.entries@[k].value is String,
        forall|j: int| 0 <= j < k ==> (#[trigger] node.entries@[j]).name is Some,
    ensures
        match r {
            Ok(EnumPlan::Unit { variant, node: n }) => *variant == node.entries@[k].value->String_0
                && *n == node,
            _ => false,
        },
{
    lemma_first_arg_is_first_unnamed(node.entries@, k);
}

/// A node stands for `None` exactly when it has no children block and
/// exactly one entry without a name, holding `#null`; any other single
/// argument (`#false`, `0`, `""`) stands for `Some`.
pub proof fn law_none_exactly_for_single_null(node: Node)
    ensures
        holds_none(node) <==> (node.children is None && exists|k: int|
            0 <= k < node.entries@.len() && (#[trigger] node.entries@[k]).name is None
                && node.entries@[k].value is Null && forall|j: int|
                0 <= j < node.entries@.len() && j != k ==> (#[trigger] node.entries@[j]).name is Some),
{
    if holds_none(node) {
        let k = lemma_sole_arg_has_sole_unnamed(node.entries@);
        assert(node.entries@[k].name is None);
    }
    if node.children is None && exists|k: int|
        0 <= k < node.entries@.len() && (#[trigger] node.entries@[k]).name is None
            && node.entries@[k].value is Null && forall|j: int|
            0 <= j < node.entries@.len() && j != k ==> (#[trigger] node.entries@[j]).name is Some {
        let k = choose|k: int|
            0 <= k < node.entries@.len() && (#[trigger] node.entries@[k]).name is None
                && node.entries@[k].value is Null && forall|j: int|
                0 <= j < node.entries@.len() && j != k ==> (#[trigger] node.entries@[j]).name is Some;
        lemma_sole_unnamed_is_sole_arg(node.entries@, k);
    }
}

/// The value of a newtype variant named by an argument: the argument at
/// `offset`, if there is one.
pub fn variant_value<'a>(node: &'a Node, offset: usize) -> (r: Result<&'a Value, Error>)
    ensures
        match r {
            Ok(v) => offset < node.args().len() && *v == node.args()[offset as int],
            Err(e) => offset >= node.args().len() && e == Error::MissingVariantValue,
        },
{
    let args = node_args(node);
    if offset < args.len() {
        Ok(args[offset])
    } else {
        Err(Error::MissingVariantValue)
    }
}

/// The elements of a tuple variant named by an argument: the arguments from
/// `offset` on.
pub fn variant_args<'a>(node: &'a Node, offset: usize) -> (r: Vec<&'a Value>)
    requires
        offset <= node.args().len(),
    ensures
        deref_values(r@) == node.args().skip(offset as int),
{
    let args = node_args(node);
    let mut r: Vec<&'a Value> = Vec::new();
    let mut i: usize = offset;
    while i < args.len()
        invariant
            offset <= i <= args.len(),
            deref_values(args@) == node.args(),
            deref_values(r@) == node.args().subrange(offset as int, i as int),
        decreases args.len() - i,
    {
        let ghost before = r@;
        r.push(args[i]);
        assert(deref_values(r@) == deref_values(before).push(*args@[i as int]));
        assert(node.args().subrange(offset as int, i + 1) == node.args().subrange(
            offset as int,
            i as int,
        ).push(node.args()[i as int]));
        i = i + 1;
    }
    r
}

/// Each position of a field is a node of that name.
proof fn lemma_positions_named_sound(nodes: Seq<Node>, name: Seq<char>)
    ensures
        forall|k: int|
            0 <= k < positions_named(nodes, name).len() ==> 0 <= #[trigger] positions_named(
                nodes,
                name,
            )[k] < nodes.len() && nodes[positions_named(nodes, name)[k]].name@ == name,
    decreases nodes.len(),
{
    if nodes.len() > 0 {
        let pre = nodes.drop_last();
        let rest = positions_named(pre, name);
        let all = positions_named(nodes, name);
        lemma_positions_named_sound(pre, name);
        assert forall|k: int| 0 <= k < all.len() implies 0 <= #[trigger] all[k] < nodes.len()
            && nodes[all[k]].name@ == name by {
            if k < rest.len() {
                assert(all[k] == rest[k]);
                assert(pre[rest[k]] == nodes[rest[k]]);
            }
        }
    }
}

/// The positions of a field ascend.
proof fn lemma_positions_named_ascend(nodes: Seq<Node>, name: Seq<char>)
    ensures
        forall|a: int, b: int|
            0 <= a < b < positions_named(nodes, name).len() ==> #[trigger] positions_named(
                nodes,
                name,
            )[a] < #[trigger] positions_named(nodes, name)[b],
    decreases nodes.len(),
{
    if nodes.len() > 0 {
        let pre = nodes.drop_last();
        let rest = positions_named(pre, name);
        let all = positions_named(nodes, name);
        lemma_positions_named_ascend(pre, name);
        lemma_positions_named_sound(pre, name);
        assert forall|a: int, b: int| 0 <= a < b < all.len() implies #[trigger] all[a]
            < #[trigger] all[b] by {
            assert(all[a] == rest[a]);
            if b < rest.len() {
                assert(all[b] == rest[b]);
            }
        }
    }
}

/// A node of the given name is among the positions of that field.
proof fn lemma_positions_named_complete(nodes: Seq<Node>, name: Seq<char>, i: int) -> (k: int)
    requires
        0 <= i < nodes.len(),
        nodes[i].name@ == name,
    ensures
        0 <= k < positions_named(nodes, name).len(),
        positions_named(nodes, name)[k] == i,
    decreases nodes.len(),
{
    let pre = nodes.drop_last();
    let rest = positions_named(pre, name);
    let all = positions_named(nodes, name);
    if i < nodes.len() - 1 {
        assert(pre[i] == nodes[i]);
        let k = lemma_positions_named_complete(pre, name, i);
        assert(all[k] == rest[k]);
        k
    } else {
        assert(all[all.len() - 1] == i);
        (all.len() - 1) as int
    }
}

/// The nodes of a field are exactly the nodes of its name, in source order:
/// every position holds a node of that name, the positions ascend, and every
/// node of that name is among them.
pub proof fn law_field_is_every_node_of_its_name(nodes: Seq<Node>, name: Seq<char>)
    ensures
        forall|k: int|
            0 <= k < positions_named(nodes, name).len() ==> 0 <= #[trigger] positions_named(
                nodes,
                name,
            )[k] < nodes.len() && nodes[positions_named(nodes, name)[k]].name@ == name,
        forall|a: int, b: int|
            0 <= a < b < positions_named(nodes, name).len() ==> #[trigger] positions_named(
                nodes,
                name,
            )[a] < #[trigger] positions_named(nodes, name)[b],
        forall|i: int|
            0 <= i < nodes.len() && (#[trigger] nodes[i]).name@ == name ==> positions_named(
                nodes,
                name,
            ).contains(i),
{
    lemma_positions_named_sound(nodes, name);
    lemma_positions_named_ascend(nodes, name);
    assert forall|i: int| 0 <= i < nodes.len() && (#[trigger] nodes[i]).name@
        == name implies positions_named(nodes, name).contains(i) by {
        let k = lemma_positions_named_complete(nodes, name, i);
    }
}

} // verus!

//! The document model the deserializer reads: a KDL document held as plain
//! values (names, entries, values and nested children blocks).
use vstd::prelude::*;

verus! {

/// A KDL value.
///
/// A floating-point number is held by its IEEE-754 bit pattern: nothing in
/// this library computes with it, it is only carried to the caller.
#[derive(Debug)]
pub enum Value {
    String(String),
    Integer(i128),
    Float(u64),
    Bool(bool),
    Null,
}

/// One entry of a node: an argument (no name) or a property (`name=value`).
#[derive(Debug)]
pub struct Entry {
    pub name: Option<String>,
    pub value: Value,
}

/// A node: its name, its entries in source order, and its children block.
#[derive(Debug)]
pub struct Node {
    pub name: String,
    pub entries: Vec<Entry>,
    pub children: Option<Doc>,
}

/// A document (or a children block): its nodes in source order.
#[derive(Debug)]
pub struct Doc {
    pub nodes: Vec<Node>,
}

impl Value {
    pub open spec fn is_null_spec(&self) -> bool {
        self is Null
    }

    /// Whether this value is `#null`.
    #[verifier::when_used_as_spec(is_null_spec)]
    pub fn is_null(&self) -> (r: bool)
        ensures
            r == self.is_null_spec(),
    {
        match self {
            Value::Null => true,
            _ => false,
        }
    }
}

/// The positional arguments among `entries`: the values of the entries that
/// have no name, in order.
pub open spec fn args_of(entries: Seq<Entry>) -> Seq<Value>
    decreases entries.len(),
{
    if entries.len() == 0 {
        Seq::empty()
    } else {
        let rest = args_of(entries.drop_last());
        if entries.last().name is None {
            rest.push(entries.last().value)
        } else {
            rest
        }
    }
}

/// The properties among `entries`: (name, value) of the named entries, in
/// order, repeated names included.
pub open spec fn props_of(entries: Seq<Entry>) -> Seq<(String, Value)>
    decreases entries.len(),
{
    if entries.len() == 0 {
        Seq::empty()
    } else {
        let rest = props_of(entries.drop_last());
        match entries.last().name {
            Some(n) => rest.push((n, entries.last().value)),
            None => rest,
        }
    }
}

/// With every entry named, there are no positional arguments, and the other
/// way round.
pub proof fn lemma_no_args_iff_all_named(entries: Seq<Entry>)
    ensures
        args_of(entries).len() == 0 <==> forall|j: int|
            0 <= j < entries.len() ==> (#[trigger] entries[j]).name is Some,
    decreases entries.len(),
{
    if entries.len() > 0 {
        let pre = entries.drop_last();
        lemma_no_args_iff_all_named(pre);
        if args_of(entries).len() == 0 {
            assert forall|j: int| 0 <= j < entries.len() implies (#[trigger] entries[j]).name is Some by {
                if j < entries.len() - 1 {
                    assert(entries[j] == pre[j]);
                }
            }
        } else if forall|j: int| 0 <= j < entries.len() ==> (#[trigger] entries[j]).name is Some {
            assert forall|j: int| 0 <= j < pre.len() implies (#[trigger] pre[j]).name is Some by {
                assert(pre[j] == entries[j]);
            }
            assert(entries[entries.len() - 1].name is Some);
        }
    }
}

/// The first positional argument is the value of the first entry without a
/// name.
pub proof fn lemma_first_arg_is_first_unnamed(entries: Seq<Entry>, k: int)
    requires
        0 <= k < entries.len(),
        entries[k].name is None,
        forall|j: int| 0 <= j < k ==> (#[trigger] entries[j]).name is Some,
    ensures
        args_of(entries).len() > 0,
        args_of(entries)[0] == entries[k].value,
    decreases entries.len(),
{
    let pre = entries.drop_last();
    if k == entries.len() - 1 {
        assert forall|j: int| 0 <= j < pre.len() implies (#[trigger] pre[j]).name is Some by {
            assert(pre[j] == entries[j]);
        }
        lemma_no_args_iff_all_named(pre);
    } else {
        assert(pre[k] == entries[k]);
        assert forall|j: int| 0 <= j < k implies (#[trigger] pre[j]).name is Some by {
            assert(pre[j] == entries[j]);
        }
        lemma_first_arg_is_first_unnamed(pre, k);
    }
}

/// With exactly one entry without a name, that entry's value is the only
/// positional argument.
pub proof fn lemma_sole_unnamed_is_sole_arg(entries: Seq<Entry>, k: int)
    requires
        0 <= k < entries.len(),
        entries[k].name is None,
        forall|j: int| 0 <= j < entries.len() && j != k ==> (#[trigger] entries[j]).name is Some,
    ensures
        args_of(entries) == seq![entries[k].value],
    decreases entries.len(),
{
    let pre = entries.drop_last();
    if k == entries.len() - 1 {
        assert forall|j: int| 0 <= j < pre.len() implies (#[trigger] pre[j]).name is Some by {
            assert(pre[j] == entries[j]);
        }
        lemma_no_args_iff_all_named(pre);
        assert(args_of(pre) =~= Seq::<Value>::empty());
        assert(args_of(entries) =~= seq![entries[k].value]);
    } else {
        assert(pre[k] == entries[k]);
        assert forall|j: int| 0 <= j < pre.len() && j != k implies (#[trigger] pre[j]).name is Some by {
            assert(pre[j] == entries[j]);
        }
        assert(entries[entries.len() - 1].name is Some);
        lemma_sole_unnamed_is_sole_arg(pre, k);
    }
}

/// A single positional argument comes from exactly one entry without a name,
/// which holds it.
pub proof fn lemma_sole_arg_has_sole_unnamed(entries: Seq<Entry>) -> (k: int)
    requires
        args_of(entries).len() == 1,
    ensures
        0 <= k < entries.len(),
        entries[k].name is None,
        entries[k].value == args_of(entries)[0],
        forall|j: int| 0 <= j < entries.len() && j != k ==> (#[trigger] entries[j]).name is Some,
    decreases entries.len(),
{
    let pre = entries.drop_last();
    let last = entries.len() - 1;
    if entries[last].name is None {
        assert(args_of(pre).len() == 0);
        lemma_no_args_iff_all_named(pre);
        assert forall|j: int| 0 <= j < entries.len() && j != last implies (#[trigger] entries[j]).name is Some by {
            assert(entries[j] == pre[j]);
        }
        last
    } else {
        let k = lemma_sole_arg_has_sole_unnamed(pre);
        assert(pre[k] == entries[k]);
        assert forall|j: int| 0 <= j < entries.len() && j != k implies (#[trigger] entries[j]).name is Some by {
            if j < last {
                assert(entries[j] == pre[j]);
            }
        }
        k
    }
}

impl Node {
    /// The node's positional arguments.
    pub open spec fn args(self) -> Seq<Value> {
        args_of(self.entries@)
    }

    /// The node's properties.
    pub open spec fn props(self) -> Seq<(String, Value)> {
        props_of(self.entries@)
    }
}

/// Whether no node before position `i` has the name of node `i`.
pub open spec fn first_of_name(nodes: Seq<Node>, i: int) -> bool {
    forall|j: int| 0 <= j < i ==> nodes[j].name@ != nodes[i].name@
}

/// The positions of the first node of each distinct name, ascending.
pub open spec fn first_occurrences(nodes: Seq<Node>) -> Seq<int>
    decreases nodes.len(),
{
    if nodes.len() == 0 {
        Seq::empty()
    } else {
        let rest = first_occurrences(nodes.drop_last());
        if first_of_name(nodes, nodes.len() - 1) {
            rest.push(nodes.len() - 1)
        } else {
            rest
        }
    }
}

/// The positions of the nodes named `name`, ascending.
pub open spec fn positions_named(nodes: Seq<Node>, name: Seq<char>) -> Seq<int>
    decreases nodes.len(),
{
    if nodes.len() == 0 {
        Seq::empty()
    } else {
        let rest = positions_named(nodes.drop_last(), name);
        if nodes.last().name@ == name {
            rest.push(nodes.len() - 1)
        } else {
            rest
        }
    }
}

/// The positions of the dash nodes, ascending.
pub open spec fn dash_positions(nodes: Seq<Node>) -> Seq<int> {
    positions_named(nodes, seq!['-'])
}

/// A sequence of references read as the values they point to.
pub open spec fn deref_values(s: Seq<&Value>) -> Seq<Value> {
    s.map_values(|v: &Value| *v)
}

/// A sequence of referenced properties read as the values they point to.
pub open spec fn deref_props(s: Seq<(&String, &Value)>) -> Seq<(String, Value)> {
    s.map_values(|p: (&String, &Value)| (*p.0, *p.1))
}

/// A sequence of `usize` positions read as integers.
pub open spec fn as_ints(s: Seq<usize>) -> Seq<int> {
    s.map_values(|i: usize| i as int)
}

impl Value {
    /// A copy of this value.
    pub fn duplicate(&self) -> (r: Value)
        ensures
            r == *self,
    {
        match self {
            Value::String(s) => Value::String(s.clone()),
            Value::Integer(i) => Value::Integer(*i),
            Value::Float(f) => Value::Float(*f),
            Value::Bool(b) => Value::Bool(*b),
            Value::Null => Value::Null,
        }
    }
}

} // verus!

//! A document read as a map: one key per distinct node name, in order of
//! first appearance, whose value is every node of that name.
use vstd::prelude::*;
use crate::de::node::law_field_is_every_node_of_its_name;
use crate::model::{as_ints, first_of_name, first_occurrences, positions_named, Doc, Node};

verus! {

/// The keys of a document read as a map: the position of the first node of
/// each distinct name, ascending.
pub fn map_keys(doc: &Doc) -> (r: Vec<usize>)
    ensures
        as_ints(r@) == first_occurrences(doc.nodes@),
{
    let nodes = &doc.nodes;
    let mut r: Vec<usize> = Vec::new();
    let mut i: usize = 0;
    while i < nodes.len()
        invariant
            i <= nodes.len(),
            as_ints(r@) == first_occurrences(nodes@.take(i as int)),
        decreases nodes.len() - i,
    {
        let mut seen = false;
        let mut j: usize = 0;
        while j < i
            invariant_except_break
                !seen,
                forall|k: int| 0 <= k < j ==> nodes@[k].name@ != nodes@[i as int].name@,
            invariant
                j <= i < nodes.len(),
            ensures
                seen ==> !first_of_name(nodes@, i as int),
                !seen ==> first_of_name(nodes@, i as int),
            decreases i - j,
        {
            if nodes[j].name == nodes[i].name {
                seen = true;
                break;
            }
            j = j + 1;
        }
        proof {
            let pre = nodes@.take(i + 1);
            assert(pre.drop_last() == nodes@.take(i as int));
            assert(pre[i as int] == nodes@[i as int]);
            if first_of_name(nodes@, i as int) {
                assert forall|k: int| 0 <= k < i implies pre[k].name@ != pre[i as int].name@ by {
                    assert(pre[k] == nodes@[k]);
                }
            }
            if first_of_name(pre, i as int) {
                assert forall|k: int| 0 <= k < i implies nodes@[k].name@
                    != nodes@[i as int].name@ by {
                    assert(pre[k] == nodes@[k]);
                }
            }
        }
        if !seen {
            let ghost before = r@;
            r.push(i);
            assert(as_ints(r@) == as_ints(before).push(i as int));
        }
        i = i + 1;
    }
    assert(nodes@.take(nodes.len() as int) == nodes@);
    r
}

/// Each key is a node position, and the first node of its name.
proof fn lemma_keys_in_range_and_first(nodes: Seq<Node>)
    ensures
        forall|a: int|
            0 <= a < first_occurrences(nodes).len() ==> 0 <= #[trigger] first_occurrences(
                nodes,
            )[a] < nodes.len() && first_of_name(nodes, first_occurrences(nodes)[a]),
    decreases nodes.len(),
{
    if nodes.len() > 0 {
        let pre = nodes.drop_last();
        let rest = first_occurrences(pre);
        let all = first_occurrences(nodes);
        lemma_keys_in_range_and_first(pre);
        assert forall|a: int| 0 <= a < all.len() implies 0 <= #[trigger] all[a] < nodes.len()
            && first_of_name(nodes, all[a]) by {
            if a < rest.len() {
                let r = rest[a];
                assert(all[a] == r);
                assert(first_of_name(pre, r));
                assert forall|j: int| 0 <= j < r implies nodes[j].name@ != nodes[r].name@ by {
                    assert(pre[j] == nodes[j]);
                    assert(pre[r] == nodes[r]);
                    assert(pre[j].name@ != pre[r].name@);
                }
            }
        }
    }
}

/// The keys ascend.
proof fn lemma_keys_ascend(nodes: Seq<Node>)
    ensures
        forall|a: int, b: int|
            0 <= a < b < first_occurrences(nodes).len() ==> #[trigger] first_occurrences(
                nodes,
            )[a] < #[trigger] first_occurrences(nodes)[b],
    decreases nodes.len(),
{
    if nodes.len() > 0 {
        let pre = nodes.drop_last();
        let rest = first_occurrences(pre);
        let all = first_occurrences(nodes);
        lemma_keys_ascend(pre);
        lemma_keys_in_range_and_first(pre);
        assert forall|a: int, b: int| 0 <= a < b < all.len() implies #[trigger] all[a]
            < #[trigger] all[b] by {
            assert(all[a] == rest[a]);
            if b < rest.len() {
                assert(all[b] == rest[b]);
            }
        }
    }
}

/// A key at or before node `i` that has its name.
proof fn lemma_key_for(nodes: Seq<Node>, i: int) -> (a: int)
    requires
        0 <= i < nodes.len(),
    ensures
        0 <= a < first_occurrences(nodes).len(),
        first_occurrences(nodes)[a] <= i,
        nodes[first_occurrences(nodes)[a]].name@ == nodes[i].name@,
    decreases nodes.len(),
{
    let pre = nodes.drop_last();
    let rest = first_occurrences(pre);
    let all = first_occurrences(nodes);
    let last = nodes.len() - 1;
    lemma_keys_in_range_and_first(pre);
    if i < last {
        let a = lemma_key_for(pre, i);
        assert(all[a] == rest[a]);
        assert(pre[rest[a]] == nodes[rest[a]]);
        assert(pre[i] == nodes[i]);
        a
    } else if first_of_name(nodes, last) {
        assert(all[all.len() - 1] == last);
        (all.len() - 1) as int
    } else {
        let j = choose|j: int| 0 <= j < last && nodes[j].name@ == nodes[last].name@;
        let a = lemma_key_for(pre, j);
        assert(all[a] == rest[a]);
        assert(pre[rest[a]] == nodes[rest[a]]);
        assert(pre[j] == nodes[j]);
        a
    }
}

/// The keys of a document read as a map are the first appearances of its
/// node names: their positions ascend, no two share a name, each is the
/// first node of its name, and every node's name is the name of a key at or
/// before it.
pub proof fn law_keys_are_first_appearances(nodes: Seq<Node>)
    ensures
        forall|a: int, b: int|
            0 <= a < b < first_occurrences(nodes).len() ==> #[trigger] first_occurrences(
                nodes,
            )[a] < #[trigger] first_occurrences(nodes)[b],
        forall|a: int, b: int|
            0 <= a < b < first_occurrences(nodes).len() ==> nodes[#[trigger] first_occurrences(
                nodes,
            )[a]].name@ != nodes[#[trigger] first_occurrences(nodes)[b]].name@,
        forall|a: int|
            0 <= a < first_occurrences(nodes).len() ==> 0 <= #[trigger] first_occurrences(
                nodes,
            )[a] < nodes.len() && first_of_name(nodes, first_occurrences(nodes)[a]),
        forall|i: int|
            0 <= i < nodes.len() ==> exists|a: int|
                0 <= a < first_occurrences(nodes).len() && #[trigger] first_occurrences(
                    nodes,
                )[a] <= i && nodes[first_occurrences(nodes)[a]].name@ == (#[trigger] nodes[i]).name@,
{
    lemma_keys_in_range_and_first(nodes);
    lemma_keys_ascend(nodes);
    let all = first_occurrences(nodes);
    assert forall|i: int| 0 <= i < nodes.len() implies exists|a: int|
        0 <= a < all.len() && #[trigger] all[a] <= i && nodes[all[a]].name@
            == (#[trigger] nodes[i]).name@ by {
        let a = lemma_key_for(nodes, i);
    }
    assert forall|a: int, b: int| 0 <= a < b < all.len() implies nodes[#[trigger] all[a]].name@
        != nodes[#[trigger] all[b]].name@ by {
        assert(first_of_name(nodes, all[b]));
    }
}

/// Reading a document as a map loses no node and reads none twice: every
/// node lies in the field of the key of its name, and in no other key's.
#[verifier::spinoff_prover]
pub proof fn law_every_node_in_one_field(nodes: Seq<Node>)
    ensures
        forall|i: int|
            #![trigger nodes[i]]
            0 <= i < nodes.len() ==> exists|a: int|
                0 <= a < first_occurrences(nodes).len() && nodes[#[trigger] first_occurrences(
                    nodes,
                )[a]].name@ == nodes[i].name@ && positions_named(
                    nodes,
                    nodes[first_occurrences(nodes)[a]].name@,
                ).contains(i),
        forall|i: int, a: int, b: int|
            0 <= i < nodes.len() && 0 <= a < first_occurrences(nodes).len() && 0 <= b
                < first_occurrences(nodes).len() && #[trigger] positions_named(
                nodes,
                nodes[first_occurrences(nodes)[a]].name@,
            ).contains(i) && #[trigger] positions_named(
                nodes,
                nodes[first_occurrences(nodes)[b]].name@,
            ).contains(i) ==> a == b,
{
    law_keys_are_first_appearances(nodes);
    let all = first_occurrences(nodes);
    assert forall|i: int| #![trigger nodes[i]] 0 <= i < nodes.len() implies exists|a: int|
        0 <= a < all.len() && nodes[#[trigger] all[a]].name@ == nodes[i].name@ && positions_named(
            nodes,
            nodes[all[a]].name@,
        ).contains(i) by {
        let a = lemma_key_for(nodes, i);
        law_field_is_every_node_of_its_name(nodes, nodes[all[a]].name@);
    }
    assert forall|i: int, a: int, b: int|
        0 <= i < nodes.len() && 0 <= a < all.len() && 0 <= b < all.len() && #[trigger] positions_named(
            nodes,
            nodes[all[a]].name@,
        ).contains(i) && #[trigger] positions_named(nodes, nodes[all[b]].name@).contains(
            i,
        ) implies a == b by {
        law_field_is_every_node_of_its_name(nodes, nodes[all[a]].name@);
        law_field_is_every_node_of_its_name(nodes, nodes[all[b]].name@);
        let pa = positions_named(nodes, nodes[all[a]].name@);
        let pb = positions_named(nodes, nodes[all[b]].name@);
        let ka = choose|k: int| 0 <= k < pa.len() && pa[k] == i;
        let kb = choose|k: int| 0 <= k < pb.len() && pb[k] == i;
        assert(nodes[pa[ka]].name@ == nodes[all[a]].name@);
        assert(nodes[pb[kb]].name@ == nodes[all[b]].name@);
        if a != b {
            assert(nodes[all[a]].name@ != nodes[all[b]].name@);
        }
    }
}

} // verus!

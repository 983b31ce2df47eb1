//! The two passes in a row: from the index to the registry.

use vstd::prelude::*;
use crate::data::{Data, Node};
use crate::engine::{has_fault, mentioned, mentioned_items, registry_upto, run_on, ItemEdge};
use crate::format::ContainerModel;
use crate::formatter::FormatError;
use crate::node::ItemNode;
use crate::parser::{
    all_links, analyze, node_pairs, output_avoids_what_is_left_out, pairs_of_nodes,
};
use crate::reach::{marked, roots};
use crate::registry::Registry;

verus! {

/// The first `upto` pairs as edges between items: those pairs of which both
/// nodes have an item, in order.
pub open spec fn item_edges_upto<'a>(pairs: Seq<(&'a Node, &'a Node)>, upto: nat) -> Seq<
    ItemEdge<'a>,
>
    decreases upto,
{
    if upto == 0 || upto > pairs.len() {
        Seq::empty()
    } else {
        let before = item_edges_upto(pairs, (upto - 1) as nat);
        match (&pairs[upto - 1].0.item, &pairs[upto - 1].1.item) {
            (Some(parent), Some(child)) => before.push((parent, child)),
            _ => before,
        }
    }
}

/// The pairs as edges between items.
pub open spec fn item_edges_of<'a>(pairs: Seq<(&'a Node, &'a Node)>) -> Seq<ItemEdge<'a>> {
    item_edges_upto(pairs, pairs.len())
}

/// Keeps the pairs of which both nodes have an item.
pub fn item_edges<'a>(pairs: &Vec<(&'a Node, &'a Node)>) -> (r: Vec<ItemEdge<'a>>)
    ensures
        r@ == item_edges_of(pairs@),
{
    let mut out: Vec<ItemEdge<'a>> = Vec::new();
    let mut i: usize = 0;
    while i < pairs.len()
        invariant
            i <= pairs.len(),
            out@ == item_edges_upto(pairs@, i as nat),
        decreases pairs.len() - i,
    {
        let pair = pairs[i];
        match (&pair.0.item, &pair.1.item) {
            (Some(parent), Some(child)) => {
                out.push((parent, child));
            },
            _ => {},
        }
        i += 1;
    }
    out
}

/// The edges between items that the reachability pass gives the format pass.
pub open spec fn reachable_edges<'a>(data: &'a Data) -> Seq<ItemEdge<'a>> {
    item_edges_of(node_pairs(data))
}

/// Every edge between items comes from a pair, with the items of its nodes.
pub proof fn item_edges_come_from_pairs<'a>(pairs: Seq<(&'a Node, &'a Node)>, upto: nat)
    requires
        upto <= pairs.len(),
    ensures
        forall|k: int|
            0 <= k < item_edges_upto(pairs, upto).len() ==> exists|j: int|
                0 <= j < upto && (#[trigger] pairs[j]).0.item == Some(
                    *(#[trigger] item_edges_upto(pairs, upto)[k]).0,
                ) && pairs[j].1.item == Some(*item_edges_upto(pairs, upto)[k].1),
    decreases upto,
{
    if upto > 0 {
        item_edges_come_from_pairs(pairs, (upto - 1) as nat);
        let before = item_edges_upto(pairs, (upto - 1) as nat);
        let now = item_edges_upto(pairs, upto);
        assert forall|k: int| 0 <= k < now.len() implies exists|j: int|
            0 <= j < upto && (#[trigger] pairs[j]).0.item == Some(*(#[trigger] now[k]).0)
                && pairs[j].1.item == Some(*now[k].1) by {
            if k < before.len() {
                assert(now[k] == before[k]);
                let j = choose|j: int|
                    0 <= j < upto - 1 && (#[trigger] pairs[j]).0.item == Some(*before[k].0)
                        && pairs[j].1.item == Some(*before[k].1);
                assert(pairs[j].0.item == Some(*now[k].0));
            } else {
                assert(pairs[upto - 1].0.item == Some(*now[k].0));
            }
        }
    }
}

/// No edge that the reachability pass gives the format pass holds an item
/// that serialization leaves out, as parent or as child: neither a skipped
/// item nor a field that is serialized under the name of hidden fields.
pub proof fn reachable_edges_avoid_what_is_left_out(data: &Data)
    ensures
        forall|k: int|
            0 <= k < reachable_edges(data).len() ==> {
                let edge = #[trigger] reachable_edges(data)[k];
                !edge.0.left_out() && !edge.0.skipped() && !edge.1.left_out() && !edge.1.skipped()
            },
{
    let pairs = node_pairs(data);
    output_avoids_what_is_left_out(data);
    item_edges_come_from_pairs(pairs, pairs.len());
    assert forall|k: int| 0 <= k < reachable_edges(data).len() implies {
        let edge = #[trigger] reachable_edges(data)[k];
        !edge.0.left_out() && !edge.0.skipped() && !edge.1.left_out() && !edge.1.skipped()
    } by {
        let edge = reachable_edges(data)[k];
        let j = choose|j: int|
            0 <= j < pairs.len() && (#[trigger] pairs[j]).0.item == Some(*edge.0)
                && pairs[j].1.item == Some(*edge.1);
        assert(pairs[j].0.item matches Some(parent) && parent == *edge.0);
    }
}

/// The items of those of the first `upto` nodes that are in the set, in the
/// order of the index.
pub open spec fn items_among<'a>(data: &'a Data, places: Set<usize>, upto: nat) -> Seq<
    &'a ItemNode,
>
    decreases upto,
{
    if upto == 0 || upto > data.nodes@.len() {
        Seq::empty()
    } else {
        let before = items_among(data, places, (upto - 1) as nat);
        match &data.nodes@[upto - 1].item {
            Some(item) => if places.contains((upto - 1) as usize) {
                before.push(item)
            } else {
                before
            },
            None => before,
        }
    }
}

/// The items of the roots of the index, in the order of the index.
pub open spec fn root_items<'a>(data: &'a Data) -> Seq<&'a ItemNode> {
    items_among(data, roots(data.nodes@, all_links(data.nodes@)), data.nodes@.len())
}

/// The items of the nodes that the flags mark, in the order of the index.
pub fn marked_items<'a>(data: &'a Data, flags: &Vec<bool>) -> (r: Vec<&'a ItemNode>)
    requires
        flags@.len() == data.nodes@.len(),
    ensures
        r@ == items_among(data, marked(flags@), data.nodes@.len()),
{
    let mut out: Vec<&'a ItemNode> = Vec::new();
    let mut i: usize = 0;
    while i < data.nodes.len()
        invariant
            i <= data.nodes.len(),
            flags@.len() == data.nodes@.len(),
            out@ == items_among(data, marked(flags@), i as nat),
        decreases data.nodes.len() - i,
    {
        proof {
            assert(marked(flags@).contains(i) == flags@[i as int]);
        }
        match &data.nodes[i].item {
            Some(item) => {
                if flags[i] {
                    out.push(item);
                }
            },
            None => {},
        }
        i += 1;
    }
    out
}

/// The items that the registry of an index describes: the roots, and what
/// the edges between items mention.
pub open spec fn described_items<'a>(data: &'a Data) -> Seq<&'a ItemNode> {
    root_items(data) + mentioned(reachable_edges(data))
}

/// The registry of an index: the container of every aggregate that is a root
/// or is reached from one.
pub open spec fn registry_of_index(data: &Data) -> Map<Seq<char>, ContainerModel> {
    registry_upto(reachable_edges(data), described_items(data), described_items(data).len())
}

/// Runs both passes: the registry of the aggregates that are roots of the
/// index or are reached from its roots. Fails where one of their fields asks
/// for a module other than `serde_bytes`.
pub fn registry(data: &Data) -> (r: Result<Registry, FormatError>)
    ensures
        match r {
            Ok(registry) => !has_fault(reachable_edges(data)) && registry@ == registry_of_index(
                data,
            ),
            Err(error) => has_fault(reachable_edges(data)) && error
                == FormatError::UnknownSerdeWith,
        },
{
    let analysis = analyze(data);
    let pairs = pairs_of_nodes(data, &analysis.output);
    let edges = item_edges(&pairs);
    let mut items = marked_items(data, &analysis.relations.roots);
    let mut reached = mentioned_items(&edges);
    items.append(&mut reached);
    run_on(&edges, &items)
}

} // verus!

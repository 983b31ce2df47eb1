//! The index: every node that the documentation knows, found by identifier.

use vstd::prelude::*;
use crate::model::Id;
use crate::node::{ItemNode, SummaryNode};

verus! {

/// What the index knows of one identifier: the item, where the documented
/// crate defines it, and the summary, where the index has its path. Two nodes
/// are equal where their identifiers are.
#[derive(Debug)]
pub struct Node {
    pub id: Id,
    pub item: Option<ItemNode>,
    pub summary: Option<SummaryNode>,
}

impl PartialEq for Node {
    fn eq(&self, other: &Self) -> (r: bool) {
        self.id == other.id
    }
}

impl vstd::std_specs::cmp::PartialEqSpecImpl for Node {
    open spec fn obeys_eq_spec() -> bool {
        true
    }

    open spec fn eq_spec(&self, other: &Self) -> bool {
        self.id == other.id
    }
}

impl Eq for Node {

}

/// The index.
#[derive(Debug, PartialEq, Eq)]
pub struct Data {
    pub nodes: Vec<Node>,
}

/// `at` is the place of the first node that carries the identifier.
pub open spec fn is_position(nodes: Seq<Node>, id: Id, at: usize) -> bool {
    at < nodes.len() && nodes[at as int].id == id && forall|j: int|
        0 <= j < at ==> (#[trigger] nodes[j]).id != id
}

/// The place of the first node that carries the identifier.
pub open spec fn position(nodes: Seq<Node>, id: Id) -> Option<usize> {
    if exists|at: usize| is_position(nodes, id, at) {
        Some(choose|at: usize| is_position(nodes, id, at))
    } else {
        None
    }
}

/// An identifier has at most one first place.
pub proof fn position_is_unique(nodes: Seq<Node>, id: Id, at: usize)
    requires
        is_position(nodes, id, at),
    ensures
        position(nodes, id) == Some(at),
{
    let chosen = choose|p: usize| is_position(nodes, id, p);
    assert(is_position(nodes, id, chosen));
    if chosen < at {
        assert(nodes[chosen as int].id != id);
    }
    if at < chosen {
        assert(nodes[at as int].id != id);
    }
}

/// A place that `position` gives lies in the index and carries the identifier.
pub proof fn position_is_valid(nodes: Seq<Node>, id: Id)
    requires
        nodes.len() <= usize::MAX,
    ensures
        position(nodes, id) matches Some(at) ==> is_position(nodes, id, at),
        position(nodes, id) is None ==> forall|j: int|
            0 <= j < nodes.len() ==> (#[trigger] nodes[j]).id != id,
{
    if position(nodes, id) is None {
        assert forall|j: int| 0 <= j < nodes.len() implies (#[trigger] nodes[j]).id != id by {
            if nodes[j].id == id {
                first_place_exists(nodes, id, j);
            }
        }
    }
}

/// Where some node carries the identifier, a first one does.
proof fn first_place_exists(nodes: Seq<Node>, id: Id, j: int)
    requires
        0 <= j < nodes.len(),
        nodes[j].id == id,
        nodes.len() <= usize::MAX,
    ensures
        exists|at: usize| is_position(nodes, id, at),
    decreases j,
{
    if forall|k: int| 0 <= k < j ==> (#[trigger] nodes[k]).id != id {
        assert(is_position(nodes, id, j as usize));
    } else {
        let k = choose|k: int| 0 <= k < j && (#[trigger] nodes[k]).id == id;
        first_place_exists(nodes, id, k);
    }
}

impl Data {
    /// An index over the given nodes.
    pub fn new(nodes: Vec<Node>) -> (r: Data)
        ensures
            r.nodes == nodes,
    {
        Data { nodes }
    }

    /// The place of the first node that carries the identifier.
    pub fn index_of(&self, id: Id) -> (r: Option<usize>)
        ensures
            r == position(self.nodes@, id),
            r matches Some(at) ==> at < self.nodes@.len() && self.nodes@[at as int].id == id,
    {
        let mut i: usize = 0;
        while i < self.nodes.len()
            invariant
                i <= self.nodes.len(),
                forall|j: int| 0 <= j < i ==> (#[trigger] self.nodes@[j]).id != id,
            decreases self.nodes.len() - i,
        {
            if self.nodes[i].id == id {
                proof {
                    position_is_unique(self.nodes@, id, i);
                }
                return Some(i);
            }
            i += 1;
        }
        proof {
            if position(self.nodes@, id) is Some {
                position_is_valid(self.nodes@, id);
            }
        }
        None
    }

    /// The first node that carries the identifier; `None` where the index
    /// knows no such node.
    pub fn node_by_id(&self, id: &Id) -> (r: Option<&Node>)
        ensures
            match position(self.nodes@, *id) {
                Some(at) => at < self.nodes@.len() && r == Some(&self.nodes@[at as int]),
                None => r is None,
            },
    {
        match self.index_of(*id) {
            Some(at) => Some(&self.nodes[at]),
            None => None,
        }
    }
}

} // verus!

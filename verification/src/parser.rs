//! The reachability pass: the labelled edges of the index, the relations that
//! the rules derive from them, and the pairs of parent and child that cross
//! the foreign function boundary.

use vstd::prelude::*;
use crate::data::{position, Data, Node};
use crate::model::{GenericArg, GenericArgs, Id, Impl, ItemEnum, Path, Type};
use crate::node::ItemNode;
use crate::reach::{
    apps, children, crossing_pairs_are_the_relation, derive_relations, effects, in_output,
    is_effect_of_app, is_parent, mark_reached, marked, output, reached, roots, select_pairs,
    Relations,
};
use crate::text::{final_segment, last_segment, str_equal};

verus! {

/// What an edge of the graph says of its two ends.
#[derive(Debug, Clone, Copy, PartialEq, Eq, Structural, Hash, PartialOrd, Ord)]
pub enum Edge {
    AssociatedItem,
    AssociatedType,
    Type,
    Field,
    Variant,
    TraitApp,
    TraitEffect,
}

/// One labelled edge; its two ends are places in the index.
#[derive(Debug, Clone, Copy, PartialEq, Eq, Structural)]
pub struct EdgeFact {
    pub source: usize,
    pub target: usize,
    pub label: Edge,
}

/// Both ends of every edge are places below `n`.
pub open spec fn within(edges: Seq<EdgeFact>, n: nat) -> bool {
    forall|i: int|
        0 <= i < edges.len() ==> (#[trigger] edges[i]).source < n && edges[i].target < n
}

/// Whether an implementation keeps an associated item of this name.
pub open spec fn is_impl_item_name(name: Seq<char>) -> bool {
    name == "Event"@ || name == "ViewModel"@ || name == "Capabilities"@
}

/// Whether an associated type of this name is followed to its target.
pub open spec fn is_assoc_type_name(name: Seq<char>) -> bool {
    name == "Event"@ || name == "ViewModel"@ || name == "Ffi"@
}

/// The label of the edge from an implementation to the trait of this name.
pub open spec fn trait_label(name: Seq<char>) -> Option<Edge> {
    if name == "App"@ {
        Some(Edge::TraitApp)
    } else if name == "Effect"@ {
        Some(Edge::TraitEffect)
    } else {
        None
    }
}

/// Whether the node at the place holds an item that serialization leaves out.
pub open spec fn is_left_out(nodes: Seq<Node>, at: usize) -> bool {
    at < nodes.len() && match nodes[at as int].item {
        Some(item) => item.left_out(),
        None => false,
    }
}

/// The place that an edge to the identifier leads to: that of the first node
/// that carries it, unless that node holds an item that serialization leaves
/// out.
pub open spec fn target_of(nodes: Seq<Node>, id: Id) -> Option<usize> {
    match position(nodes, id) {
        Some(at) => if is_left_out(nodes, at) {
            None
        } else {
            Some(at)
        },
        None => None,
    }
}

/// One edge from `source` to each identifier that the index knows and
/// serialization does not leave out, in order.
pub open spec fn links(nodes: Seq<Node>, source: usize, ids: Seq<Id>, label: Edge) -> Seq<
    EdgeFact,
>
    decreases ids.len(),
{
    if ids.len() == 0 {
        Seq::empty()
    } else {
        let rest = links(nodes, source, ids.drop_last(), label);
        match target_of(nodes, ids.last()) {
            Some(target) => rest.push(EdgeFact { source, target, label }),
            None => rest,
        }
    }
}

/// Whether the node at `target` is an item declared under a name that
/// implementations keep.
pub open spec fn is_kept_impl_item(nodes: Seq<Node>, target: usize) -> bool {
    target < nodes.len() && match nodes[target as int].item {
        Some(item) => match item.0.name {
            Some(name) => is_impl_item_name(name@),
            None => false,
        },
        None => false,
    }
}

/// One `AssociatedItem` edge from `source` to each of the identifiers that the
/// index knows as an item of a kept name, in order.
pub open spec fn assoc_links(nodes: Seq<Node>, source: usize, ids: Seq<Id>) -> Seq<EdgeFact>
    decreases ids.len(),
{
    if ids.len() == 0 {
        Seq::empty()
    } else {
        let rest = assoc_links(nodes, source, ids.drop_last());
        match target_of(nodes, ids.last()) {
            Some(target) => if is_kept_impl_item(nodes, target) {
                rest.push(EdgeFact { source, target, label: Edge::AssociatedItem })
            } else {
                rest
            },
            None => rest,
        }
    }
}

/// The `Type` edges that a resolved path gives: one to the path itself and
/// those of its generic arguments. A path that the index does not know, or
/// that serialization leaves out, gives none.
pub open spec fn path_links(nodes: Seq<Node>, source: usize, path: Path) -> Seq<EdgeFact>
    decreases path, 0nat,
{
    match target_of(nodes, path.id) {
        Some(target) => seq![EdgeFact { source, target, label: Edge::Type }] + match path.args {
            Some(args) => args_links(nodes, source, args),
            None => Seq::empty(),
        },
        None => Seq::empty(),
    }
}

/// The `Type` edges of the resolved paths among angle-bracketed arguments.
pub open spec fn args_links(nodes: Seq<Node>, source: usize, args: GenericArgs) -> Seq<EdgeFact>
    decreases args, 0nat,
{
    match args {
        GenericArgs::AngleBracketed { args } => arg_list_links(nodes, source, args, args@.len()),
        GenericArgs::Parenthesized { .. } => Seq::empty(),
    }
}

/// The `Type` edges of the first `upto` arguments of a list.
pub open spec fn arg_list_links(
    nodes: Seq<Node>,
    source: usize,
    list: Vec<GenericArg>,
    upto: nat,
) -> Seq<EdgeFact>
    decreases list, upto,
{
    if upto == 0 || upto > list@.len() {
        Seq::empty()
    } else {
        arg_list_links(nodes, source, list, (upto - 1) as nat) + match list@[upto - 1] {
            GenericArg::Type(Type::ResolvedPath(path)) => path_links(nodes, source, path),
            _ => Seq::empty(),
        }
    }
}

/// The edges of an implementation of `App` or `Effect`: to the trait, to the
/// type it is for, and to its associated items of a kept name. Where the index
/// does not know the trait there are none; where it does not know the type, only
/// the first.
pub open spec fn impl_links(nodes: Seq<Node>, source: usize, imp: Impl) -> Seq<EdgeFact> {
    match (imp.trait_, imp.for_) {
        (Some(trait_), Type::ResolvedPath(target)) => match trait_label(
            final_segment(trait_.name@),
        ) {
            Some(label) => match target_of(nodes, trait_.id) {
                Some(trait_at) => seq![EdgeFact { source, target: trait_at, label }] + match target_of(
                    nodes,
                    target.id,
                ) {
                    Some(type_at) => seq![EdgeFact { source, target: type_at, label: Edge::Type }]
                        + assoc_links(nodes, source, imp.items@),
                    None => Seq::empty(),
                },
                None => Seq::empty(),
            },
            None => Seq::empty(),
        },
        _ => Seq::empty(),
    }
}

/// The edges that leave an item, which stands at `source`.
pub open spec fn item_links(nodes: Seq<Node>, source: usize, item: ItemNode) -> Seq<EdgeFact> {
    match item.0.inner {
        ItemEnum::Struct(_) => links(nodes, source, item.field_ids(), Edge::Field),
        ItemEnum::Variant(_) => links(nodes, source, item.field_ids(), Edge::Field),
        ItemEnum::Enum { .. } => links(nodes, source, item.variant_ids(), Edge::Variant),
        ItemEnum::StructField(Type::ResolvedPath(path)) => path_links(nodes, source, path),
        ItemEnum::Impl(imp) => impl_links(nodes, source, imp),
        ItemEnum::AssocType { type_: Some(Type::ResolvedPath(target)) } => match item.0.name {
            Some(name) => if is_assoc_type_name(name@) {
                links(nodes, source, seq![target.id], Edge::AssociatedType)
            } else {
                Seq::empty()
            },
            None => Seq::empty(),
        },
        _ => Seq::empty(),
    }
}

/// The edges that leave the node at place `at`: those of its item, unless the
/// node has none, serialization leaves the item out, or an earlier node carries
/// the same identifier.
pub open spec fn node_links(nodes: Seq<Node>, at: int) -> Seq<EdgeFact> {
    match nodes[at].item {
        Some(item) => if !item.left_out() && position(nodes, nodes[at].id) == Some(at as usize) {
            item_links(nodes, at as usize, item)
        } else {
            Seq::empty()
        },
        None => Seq::empty(),
    }
}

/// The edges that leave the first `upto` nodes, node after node.
pub open spec fn links_upto(nodes: Seq<Node>, upto: nat) -> Seq<EdgeFact>
    decreases upto,
{
    if upto == 0 {
        Seq::empty()
    } else {
        links_upto(nodes, (upto - 1) as nat) + node_links(nodes, upto - 1)
    }
}

/// All edges of the index.
pub open spec fn all_links(nodes: Seq<Node>) -> Seq<EdgeFact> {
    links_upto(nodes, nodes.len())
}

/// The place that an edge to the identifier leads to.
pub fn find_target(data: &Data, id: Id) -> (r: Option<usize>)
    ensures
        r == target_of(data.nodes@, id),
        r matches Some(at) ==> at < data.nodes@.len(),
{
    match data.index_of(id) {
        Some(at) => {
            let left_out = match &data.nodes[at].item {
                Some(item) => item.is_left_out(),
                None => false,
            };
            if left_out {
                None
            } else {
                Some(at)
            }
        },
        None => None,
    }
}

/// Appends one edge from `source` to each identifier that the index knows.
pub fn push_links(
    data: &Data,
    source: usize,
    ids: &Vec<Id>,
    label: Edge,
    edges: &mut Vec<EdgeFact>,
)
    requires
        source < data.nodes@.len(),
        within(old(edges)@, data.nodes@.len()),
    ensures
        final(edges)@ == old(edges)@ + links(data.nodes@, source, ids@, label),
        within(final(edges)@, data.nodes@.len()),
{
    let ghost before = edges@;
    let mut i: usize = 0;
    while i < ids.len()
        invariant
            i <= ids.len(),
            source < data.nodes@.len(),
            edges@ == before + links(data.nodes@, source, ids@.take(i as int), label),
            within(edges@, data.nodes@.len()),
        decreases ids.len() - i,
    {
        proof {
            assert(ids@.take(i as int + 1).drop_last() == ids@.take(i as int));
        }
        match find_target(data, ids[i]) {
            Some(target) => {
                edges.push(EdgeFact { source, target, label });
            },
            None => {},
        }
        i += 1;
    }
    proof {
        assert(ids@.take(ids.len() as int) == ids@);
    }
}

/// Whether the node at `target` is an item declared under a name that
/// implementations keep.
pub fn keeps_impl_item(data: &Data, target: usize) -> (r: bool)
    requires
        target < data.nodes@.len(),
    ensures
        r == is_kept_impl_item(data.nodes@, target),
{
    match &data.nodes[target].item {
        Some(item) => match item.declared_name() {
            Some(name) => str_equal(name, "Event") || str_equal(name, "ViewModel") || str_equal(
                name,
                "Capabilities",
            ),
            None => false,
        },
        None => false,
    }
}

/// Appends the `AssociatedItem` edges of an implementation.
pub fn push_assoc_links(data: &Data, source: usize, ids: &Vec<Id>, edges: &mut Vec<EdgeFact>)
    requires
        source < data.nodes@.len(),
        within(old(edges)@, data.nodes@.len()),
    ensures
        final(edges)@ == old(edges)@ + assoc_links(data.nodes@, source, ids@),
        within(final(edges)@, data.nodes@.len()),
{
    let ghost before = edges@;
    let mut i: usize = 0;
    while i < ids.len()
        invariant
            i <= ids.len(),
            source < data.nodes@.len(),
            edges@ == before + assoc_links(data.nodes@, source, ids@.take(i as int)),
            within(edges@, data.nodes@.len()),
        decreases ids.len() - i,
    {
        proof {
            assert(ids@.take(i as int + 1).drop_last() == ids@.take(i as int));
        }
        match find_target(data, ids[i]) {
            Some(target) => {
                if keeps_impl_item(data, target) {
                    edges.push(EdgeFact { source, target, label: Edge::AssociatedItem });
                }
            },
            None => {},
        }
        i += 1;
    }
    proof {
        assert(ids@.take(ids.len() as int) == ids@);
    }
}

/// Appends the `Type` edges of a resolved path.
pub fn push_path_links(data: &Data, source: usize, path: &Path, edges: &mut Vec<EdgeFact>)
    requires
        source < data.nodes@.len(),
        within(old(edges)@, data.nodes@.len()),
    ensures
        final(edges)@ == old(edges)@ + path_links(data.nodes@, source, *path),
        within(final(edges)@, data.nodes@.len()),
    decreases path, 0nat,
{
    let ghost before = edges@;
    match find_target(data, path.id) {
        Some(target) => {
            edges.push(EdgeFact { source, target, label: Edge::Type });
            proof {
                assert(edges@ == before + seq![EdgeFact { source, target, label: Edge::Type }]);
            }
            match &path.args {
                Some(args) => {
                    process_args(source, args, data, edges);
                },
                None => {},
            }
        },
        None => {},
    }
}

/// Appends the `Type` edges of the resolved paths among generic arguments.
pub fn process_args(source: usize, args: &GenericArgs, data: &Data, edges: &mut Vec<EdgeFact>)
    requires
        source < data.nodes@.len(),
        within(old(edges)@, data.nodes@.len()),
    ensures
        final(edges)@ == old(edges)@ + args_links(data.nodes@, source, *args),
        within(final(edges)@, data.nodes@.len()),
    decreases args, 0nat,
{
    let ghost before = edges@;
    match args {
        GenericArgs::AngleBracketed { args: list } => {
            let mut i: usize = 0;
            while i < list.len()
                invariant
                    i <= list.len(),
                    source < data.nodes@.len(),
                    *args is AngleBracketed,
                    args->AngleBracketed_args == *list,
                    edges@ == before + arg_list_links(data.nodes@, source, *list, i as nat),
                    within(edges@, data.nodes@.len()),
                decreases list.len() - i,
            {
                proof {
                    assert(decreases_to!(*args => args->AngleBracketed_args@[i as int]));
                }
                match &list[i] {
                    GenericArg::Type(Type::ResolvedPath(path)) => {
                        push_path_links(data, source, path, edges);
                    },
                    _ => {},
                }
                i += 1;
            }
        },
        GenericArgs::Parenthesized { .. } => {},
    }
}

/// The label of the edge from an implementation to the trait of this name.
pub fn label_of_trait(name: &str) -> (r: Option<Edge>)
    ensures
        r == trait_label(name@),
{
    if str_equal(name, "App") {
        Some(Edge::TraitApp)
    } else if str_equal(name, "Effect") {
        Some(Edge::TraitEffect)
    } else {
        None
    }
}

/// Appends the edges of an implementation.
pub fn push_impl_links(data: &Data, source: usize, imp: &Impl, edges: &mut Vec<EdgeFact>)
    requires
        source < data.nodes@.len(),
        within(old(edges)@, data.nodes@.len()),
    ensures
        final(edges)@ == old(edges)@ + impl_links(data.nodes@, source, *imp),
        within(final(edges)@, data.nodes@.len()),
{
    let ghost before = edges@;
    match (&imp.trait_, &imp.for_) {
        (Some(trait_), Type::ResolvedPath(target)) => {
            let label = match label_of_trait(last_segment(trait_.name.as_str())) {
                Some(label) => label,
                None => {
                    return ;
                },
            };
            let trait_at = match find_target(data, trait_.id) {
                Some(at) => at,
                None => {
                    return ;
                },
            };
            edges.push(EdgeFact { source, target: trait_at, label });
            let type_at = match find_target(data, target.id) {
                Some(at) => at,
                None => {
                    proof {
                        assert(edges@ == before + seq![
                            EdgeFact { source, target: trait_at, label },
                        ]);
                        assert(impl_links(data.nodes@, source, *imp) == seq![
                            EdgeFact { source, target: trait_at, label },
                        ] + Seq::<EdgeFact>::empty());
                    }
                    return ;
                },
            };
            edges.push(EdgeFact { source, target: type_at, label: Edge::Type });
            let ghost middle = edges@;
            push_assoc_links(data, source, &imp.items, edges);
            proof {
                let first = seq![EdgeFact { source, target: trait_at, label }];
                let second = seq![EdgeFact { source, target: type_at, label: Edge::Type }];
                assert(middle == before + first + second);
                assert(edges@ == before + (first + (second + assoc_links(
                    data.nodes@,
                    source,
                    imp.items@,
                ))));
            }
        },
        _ => {},
    }
}

/// Whether an associated type of this name is followed to its target.
pub fn follows_assoc_type(name: &str) -> (r: bool)
    ensures
        r == is_assoc_type_name(name@),
{
    str_equal(name, "Event") || str_equal(name, "ViewModel") || str_equal(name, "Ffi")
}

/// Appends the edges that leave an item, which stands at `source`.
pub fn push_item_links(data: &Data, source: usize, item: &ItemNode, edges: &mut Vec<EdgeFact>)
    requires
        source < data.nodes@.len(),
        within(old(edges)@, data.nodes@.len()),
    ensures
        final(edges)@ == old(edges)@ + item_links(data.nodes@, source, *item),
        within(final(edges)@, data.nodes@.len()),
{
    match &item.0.inner {
        ItemEnum::Struct(_) => {
            let ids = item.declared_fields();
            push_links(data, source, &ids, Edge::Field, edges);
        },
        ItemEnum::Variant(_) => {
            let ids = item.declared_fields();
            push_links(data, source, &ids, Edge::Field, edges);
        },
        ItemEnum::Enum { variants } => {
            push_links(data, source, variants, Edge::Variant, edges);
        },
        ItemEnum::StructField(Type::ResolvedPath(path)) => {
            push_path_links(data, source, path, edges);
        },
        ItemEnum::Impl(imp) => {
            push_impl_links(data, source, imp, edges);
        },
        ItemEnum::AssocType { type_: Some(Type::ResolvedPath(target)) } => {
            let followed = match item.declared_name() {
                Some(name) => follows_assoc_type(name),
                None => false,
            };
            if followed {
                let mut ids: Vec<Id> = Vec::new();
                ids.push(target.id);
                proof {
                    assert(ids@ == seq![target.id]);
                }
                push_links(data, source, &ids, Edge::AssociatedType, edges);
            }
        },
        _ => {},
    }
}

/// The labelled edges of the index: for each node in turn that has an item
/// which serialization does not leave out, the edges that leave the item.
pub fn extract_edges(data: &Data) -> (edges: Vec<EdgeFact>)
    ensures
        edges@ == all_links(data.nodes@),
        within(edges@, data.nodes@.len()),
{
    let mut edges: Vec<EdgeFact> = Vec::new();
    let mut at: usize = 0;
    while at < data.nodes.len()
        invariant
            at <= data.nodes.len(),
            edges@ == links_upto(data.nodes@, at as nat),
            within(edges@, data.nodes@.len()),
        decreases data.nodes.len() - at,
    {
        let node = &data.nodes[at];
        match &node.item {
            Some(item) => {
                if !item.is_left_out() {
                    match data.index_of(node.id) {
                        Some(source) => {
                            if source == at {
                                push_item_links(data, at, item, &mut edges);
                            }
                        },
                        None => {},
                    }
                }
            },
            None => {},
        }
        at += 1;
    }
    edges
}

/// The output relation of the index: the places of parent and child of each
/// edge that the two output rules reach from the roots, in the order of the
/// edges and each pair once.
pub open spec fn output_pairs(nodes: Seq<Node>) -> Seq<(usize, usize)> {
    let edges = all_links(nodes);
    output(edges, roots(nodes, edges))
}

/// What the reachability pass derives from an index.
#[derive(Debug, PartialEq, Eq)]
pub struct Reachability {
    /// The labelled edges of the index.
    pub edges: Vec<EdgeFact>,
    /// The apps, the effects, the apps with a parent, and the roots.
    pub relations: Relations,
    /// The places that the output rules reach from the roots.
    pub reached: Vec<bool>,
    /// The output relation: parent and child by their places.
    pub output: Vec<(usize, usize)>,
}

/// Runs the reachability pass and keeps everything that it derives.
pub fn analyze(data: &Data) -> (r: Reachability)
    ensures
        r.edges@ == all_links(data.nodes@),
        within(r.edges@, data.nodes@.len()),
        tidy(data.nodes@, r.edges@),
        r.relations.apps@.len() == data.nodes@.len(),
        r.relations.effects@.len() == data.nodes@.len(),
        r.relations.children@.len() == data.nodes@.len(),
        r.relations.roots@.len() == data.nodes@.len(),
        r.reached@.len() == data.nodes@.len(),
        marked(r.relations.apps@) == apps(r.edges@),
        marked(r.relations.effects@) == effects(r.edges@),
        marked(r.relations.children@) == children(r.edges@),
        marked(r.relations.roots@) == roots(data.nodes@, r.edges@),
        forall|pair: (usize, usize)|
            r.relations.parents@.contains(pair) <==> is_parent(r.edges@, pair.0, pair.1),
        forall|pair: (usize, usize)|
            r.relations.effects_of_apps@.contains(pair) <==> is_effect_of_app(
                data.nodes@,
                r.edges@,
                pair.0,
                pair.1,
            ),
        marked(r.reached@) == reached(r.edges@, roots(data.nodes@, r.edges@)),
        r.output@ == output_pairs(data.nodes@),
        forall|k: int|
            0 <= k < r.output@.len() ==> (#[trigger] r.output@[k]).0 < data.nodes@.len()
                && r.output@[k].1 < data.nodes@.len(),
{
    let edges = extract_edges(data);
    proof {
        assert(data.nodes.len() == data.nodes@.len());
        edges_avoid_what_is_left_out(data.nodes@, data.nodes@.len());
    }
    let relations = derive_relations(&data.nodes, &edges);
    let reached_flags = mark_reached(&edges, data.nodes.len(), &relations.roots);
    let pairs = select_pairs(&edges, &relations.roots, &reached_flags);
    proof {
        let all = roots(data.nodes@, edges@);
        crossing_pairs_are_the_relation(edges@, all, reached(edges@, all), edges@.len() as nat);
        assert forall|k: int| 0 <= k < pairs@.len() implies (#[trigger] pairs@[k]).0
            < data.nodes@.len() && pairs@[k].1 < data.nodes@.len() by {
            let pair = pairs@[k];
            assert(pairs@.contains(pair));
            let i = choose|i: int|
                0 <= i < edges@.len() && in_output(edges@, all, #[trigger] edges@[i])
                    && edges@[i].source == pair.0 && edges@[i].target == pair.1;
        }
    }
    Reachability { edges, relations, reached: reached_flags, output: pairs }
}

/// Runs the reachability pass and lists its output relation by places.
pub fn reachable_pairs(data: &Data) -> (pairs: Vec<(usize, usize)>)
    ensures
        pairs@ == output_pairs(data.nodes@),
        forall|k: int|
            0 <= k < pairs@.len() ==> (#[trigger] pairs@[k]).0 < data.nodes@.len() && pairs@[k].1
                < data.nodes@.len(),
{
    analyze(data).output
}

/// The nodes at the places of each pair.
pub open spec fn nodes_at<'a>(data: &'a Data, pairs: Seq<(usize, usize)>) -> Seq<
    (&'a Node, &'a Node),
> {
    Seq::new(
        pairs.len(),
        |k: int| (&data.nodes@[pairs[k].0 as int], &data.nodes@[pairs[k].1 as int]),
    )
}

/// The output relation of the index as pairs of nodes.
pub open spec fn node_pairs<'a>(data: &'a Data) -> Seq<(&'a Node, &'a Node)> {
    nodes_at(data, output_pairs(data.nodes@))
}

/// The nodes at the places of each pair.
pub fn pairs_of_nodes<'a>(data: &'a Data, pairs: &Vec<(usize, usize)>) -> (r: Vec<
    (&'a Node, &'a Node),
>)
    requires
        forall|k: int|
            0 <= k < pairs@.len() ==> (#[trigger] pairs@[k]).0 < data.nodes@.len() && pairs@[k].1
                < data.nodes@.len(),
    ensures
        r@ == nodes_at(data, pairs@),
{
    let mut out: Vec<(&'a Node, &'a Node)> = Vec::new();
    let mut k: usize = 0;
    while k < pairs.len()
        invariant
            k <= pairs.len(),
            out@.len() == k,
            forall|j: int|
                0 <= j < pairs@.len() ==> (#[trigger] pairs@[j]).0 < data.nodes@.len()
                    && pairs@[j].1 < data.nodes@.len(),
            forall|j: int|
                0 <= j < k ==> *out@[j].0 == data.nodes@[(#[trigger] pairs@[j]).0 as int]
                    && *out@[j].1 == data.nodes@[pairs@[j].1 as int],
        decreases pairs.len() - k,
    {
        let pair = pairs[k];
        let parent: &'a Node = &data.nodes[pair.0];
        let child: &'a Node = &data.nodes[pair.1];
        out.push((parent, child));
        k += 1;
    }
    proof {
        assert(out@ =~= nodes_at(data, pairs@));
    }
    out
}

/// Runs the reachability pass: the pairs of parent and child that the output
/// rules reach from the roots, as nodes of the index.
pub fn parse<'a>(data: &'a Data) -> (r: Vec<(&'a Node, &'a Node)>)
    ensures
        r@ == node_pairs(data),
        forall|k: int|
            0 <= k < r@.len() ==> {
                let pair = #[trigger] r@[k];
                &&& pair.0.item matches Some(parent) ==> !parent.left_out() && !parent.skipped()
                &&& pair.1.item matches Some(child) ==> !child.left_out() && !child.skipped()
            },
{
    let analysis = analyze(data);
    proof {
        output_avoids_what_is_left_out(data);
    }
    pairs_of_nodes(data, &analysis.output)
}

/// Both ends of every edge lie in the index, and neither holds an item that
/// serialization leaves out.
pub open spec fn tidy(nodes: Seq<Node>, edges: Seq<EdgeFact>) -> bool {
    forall|i: int|
        0 <= i < edges.len() ==> {
            let edge = #[trigger] edges[i];
            &&& edge.source < nodes.len()
            &&& edge.target < nodes.len()
            &&& !is_left_out(nodes, edge.source)
            &&& !is_left_out(nodes, edge.target)
        }
}

/// Whether edges may leave the place: it lies in the index and holds no item
/// that serialization leaves out.
pub open spec fn may_leave(nodes: Seq<Node>, source: usize) -> bool {
    source < nodes.len() && !is_left_out(nodes, source)
}

/// Tidy edges behind tidy edges are tidy.
pub proof fn tidy_in_a_row(nodes: Seq<Node>, a: Seq<EdgeFact>, b: Seq<EdgeFact>)
    requires
        tidy(nodes, a),
        tidy(nodes, b),
    ensures
        tidy(nodes, a + b),
{
    assert forall|i: int| 0 <= i < (a + b).len() implies {
        let edge = #[trigger] (a + b)[i];
        &&& edge.source < nodes.len()
        &&& edge.target < nodes.len()
        &&& !is_left_out(nodes, edge.source)
        &&& !is_left_out(nodes, edge.target)
    } by {
        if i < a.len() {
            assert((a + b)[i] == a[i]);
        } else {
            assert((a + b)[i] == b[i - a.len()]);
        }
    }
}

/// The place that an edge leads to lies in the index and holds no item that
/// serialization leaves out.
pub proof fn targets_are_kept(nodes: Seq<Node>, id: Id)
    requires
        nodes.len() <= usize::MAX,
    ensures
        target_of(nodes, id) matches Some(at) ==> may_leave(nodes, at),
{
    crate::data::position_is_valid(nodes, id);
}

/// The edges to a list of identifiers are tidy.
pub proof fn links_are_tidy(nodes: Seq<Node>, source: usize, ids: Seq<Id>, label: Edge)
    requires
        nodes.len() <= usize::MAX,
        may_leave(nodes, source),
    ensures
        tidy(nodes, links(nodes, source, ids, label)),
    decreases ids.len(),
{
    if ids.len() > 0 {
        links_are_tidy(nodes, source, ids.drop_last(), label);
        targets_are_kept(nodes, ids.last());
    }
}

/// The edges to the associated items of an implementation are tidy.
pub proof fn assoc_links_are_tidy(nodes: Seq<Node>, source: usize, ids: Seq<Id>)
    requires
        nodes.len() <= usize::MAX,
        may_leave(nodes, source),
    ensures
        tidy(nodes, assoc_links(nodes, source, ids)),
    decreases ids.len(),
{
    if ids.len() > 0 {
        assoc_links_are_tidy(nodes, source, ids.drop_last());
        targets_are_kept(nodes, ids.last());
    }
}

/// The edges of a resolved path are tidy.
pub proof fn path_links_are_tidy(nodes: Seq<Node>, source: usize, path: Path)
    requires
        nodes.len() <= usize::MAX,
        may_leave(nodes, source),
    ensures
        tidy(nodes, path_links(nodes, source, path)),
    decreases path, 0nat,
{
    targets_are_kept(nodes, path.id);
    match target_of(nodes, path.id) {
        Some(target) => {
            let first = seq![EdgeFact { source, target, label: Edge::Type }];
            assert(tidy(nodes, first));
            match path.args {
                Some(args) => {
                    args_links_are_tidy(nodes, source, args);
                    tidy_in_a_row(nodes, first, args_links(nodes, source, args));
                },
                None => {
                    tidy_in_a_row(nodes, first, Seq::empty());
                },
            }
        },
        None => {},
    }
}

/// The edges of generic arguments are tidy.
pub proof fn args_links_are_tidy(nodes: Seq<Node>, source: usize, args: GenericArgs)
    requires
        nodes.len() <= usize::MAX,
        may_leave(nodes, source),
    ensures
        tidy(nodes, args_links(nodes, source, args)),
    decreases args, 0nat,
{
    match args {
        GenericArgs::AngleBracketed { args } => {
            arg_list_links_are_tidy(nodes, source, args, args@.len());
        },
        GenericArgs::Parenthesized { .. } => {},
    }
}

/// The edges of the first `upto` arguments of a list are tidy.
pub proof fn arg_list_links_are_tidy(
    nodes: Seq<Node>,
    source: usize,
    list: Vec<GenericArg>,
    upto: nat,
)
    requires
        nodes.len() <= usize::MAX,
        may_leave(nodes, source),
    ensures
        tidy(nodes, arg_list_links(nodes, source, list, upto)),
    decreases list, upto,
{
    if !(upto == 0 || upto > list@.len()) {
        arg_list_links_are_tidy(nodes, source, list, (upto - 1) as nat);
        let before = arg_list_links(nodes, source, list, (upto - 1) as nat);
        match list@[upto - 1] {
            GenericArg::Type(Type::ResolvedPath(path)) => {
                path_links_are_tidy(nodes, source, path);
                tidy_in_a_row(nodes, before, path_links(nodes, source, path));
            },
            _ => {
                tidy_in_a_row(nodes, before, Seq::empty());
            },
        }
    }
}

/// The edges of an implementation are tidy.
pub proof fn impl_links_are_tidy(nodes: Seq<Node>, source: usize, imp: Impl)
    requires
        nodes.len() <= usize::MAX,
        may_leave(nodes, source),
    ensures
        tidy(nodes, impl_links(nodes, source, imp)),
{
    match (imp.trait_, imp.for_) {
        (Some(trait_), Type::ResolvedPath(target)) => {
            targets_are_kept(nodes, trait_.id);
            targets_are_kept(nodes, target.id);
            assoc_links_are_tidy(nodes, source, imp.items@);
            match (trait_label(final_segment(trait_.name@)), target_of(nodes, trait_.id)) {
                (Some(label), Some(trait_at)) => {
                    let first = seq![EdgeFact { source, target: trait_at, label }];
                    assert(tidy(nodes, first));
                    match target_of(nodes, target.id) {
                        Some(type_at) => {
                            let second = seq![
                                EdgeFact { source, target: type_at, label: Edge::Type },
                            ];
                            assert(tidy(nodes, second));
                            let rest = assoc_links(nodes, source, imp.items@);
                            tidy_in_a_row(nodes, second, rest);
                            tidy_in_a_row(nodes, first, second + rest);
                        },
                        None => {
                            tidy_in_a_row(nodes, first, Seq::empty());
                        },
                    }
                },
                _ => {},
            }
        },
        _ => {},
    }
}

/// The edges that leave an item are tidy.
pub proof fn item_links_are_tidy(nodes: Seq<Node>, source: usize, item: ItemNode)
    requires
        nodes.len() <= usize::MAX,
        may_leave(nodes, source),
    ensures
        tidy(nodes, item_links(nodes, source, item)),
{
    match item.0.inner {
        ItemEnum::Struct(_) => {
            links_are_tidy(nodes, source, item.field_ids(), Edge::Field);
        },
        ItemEnum::Variant(_) => {
            links_are_tidy(nodes, source, item.field_ids(), Edge::Field);
        },
        ItemEnum::Enum { .. } => {
            links_are_tidy(nodes, source, item.variant_ids(), Edge::Variant);
        },
        ItemEnum::StructField(Type::ResolvedPath(path)) => {
            path_links_are_tidy(nodes, source, path);
        },
        ItemEnum::Impl(imp) => {
            impl_links_are_tidy(nodes, source, imp);
        },
        ItemEnum::AssocType { type_: Some(Type::ResolvedPath(target)) } => {
            links_are_tidy(nodes, source, seq![target.id], Edge::AssociatedType);
        },
        _ => {},
    }
}

/// No edge of the index starts or ends at an item that serialization leaves
/// out: neither at a skipped item nor at a field that is serialized under the
/// name of hidden fields.
pub proof fn edges_avoid_what_is_left_out(nodes: Seq<Node>, upto: nat)
    requires
        nodes.len() <= usize::MAX,
        upto <= nodes.len(),
    ensures
        tidy(nodes, links_upto(nodes, upto)),
    decreases upto,
{
    if upto > 0 {
        edges_avoid_what_is_left_out(nodes, (upto - 1) as nat);
        let at = upto - 1;
        match nodes[at].item {
            Some(item) => {
                if !item.left_out() && position(nodes, nodes[at].id) == Some(at as usize) {
                    item_links_are_tidy(nodes, at as usize, item);
                }
            },
            None => {},
        }
        tidy_in_a_row(nodes, links_upto(nodes, at as nat), node_links(nodes, at));
    }
}

/// No pair of the output relation holds an item that serialization leaves
/// out, as parent or as child: neither a skipped item nor a field that is
/// serialized under the name of hidden fields.
pub proof fn output_avoids_what_is_left_out(data: &Data)
    ensures
        forall|k: int|
            0 <= k < node_pairs(data).len() ==> {
                let pair = #[trigger] node_pairs(data)[k];
                &&& pair.0.item matches Some(parent) ==> !parent.left_out() && !parent.skipped()
                &&& pair.1.item matches Some(child) ==> !child.left_out() && !child.skipped()
            },
{
    let nodes = data.nodes@;
    let edges = all_links(nodes);
    let all = roots(nodes, edges);
    let pairs = output_pairs(nodes);
    assert(nodes.len() <= usize::MAX) by {
        assert(data.nodes.len() == nodes.len());
    }
    edges_avoid_what_is_left_out(nodes, nodes.len());
    crossing_pairs_are_the_relation(edges, all, reached(edges, all), edges.len());
    assert forall|k: int| 0 <= k < node_pairs(data).len() implies {
        let pair = #[trigger] node_pairs(data)[k];
        &&& pair.0.item matches Some(parent) ==> !parent.left_out() && !parent.skipped()
        &&& pair.1.item matches Some(child) ==> !child.left_out() && !child.skipped()
    } by {
        let places = pairs[k];
        assert(pairs.contains(places));
        let i = choose|i: int|
            0 <= i < edges.len() && crate::reach::crosses(
                #[trigger] edges[i],
                all,
                reached(edges, all),
            ) && edges[i].source == places.0 && edges[i].target == places.1;
        assert(!is_left_out(nodes, edges[i].source));
        assert(!is_left_out(nodes, edges[i].target));
    }
}

} // verus!

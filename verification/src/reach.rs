//! The relations of the reachability pass, each computed as a set of places
//! of the index.

use vstd::prelude::*;
use crate::data::Node;
use crate::node::same_module;
use crate::parser::{within, Edge, EdgeFact};

verus! {

/// The places that a vector of flags marks.
pub open spec fn marked(flags: Seq<bool>) -> Set<usize> {
    Set::new(|x: usize| x < flags.len() && flags[x as int])
}

/// The places that an edge of the given label reaches from a place in `from`.
pub open spec fn targets(edges: Seq<EdgeFact>, label: Edge, from: Set<usize>) -> Set<usize> {
    Set::new(
        |t: usize|
            exists|i: int|
                0 <= i < edges.len() && (#[trigger] edges[i]).label == label && from.contains(
                    edges[i].source,
                ) && edges[i].target == t,
    )
}

/// The places that an edge of the given label leaves for a place outside `avoid`.
pub open spec fn sources_avoiding(edges: Seq<EdgeFact>, label: Edge, avoid: Set<usize>) -> Set<
    usize,
> {
    Set::new(
        |s: usize|
            exists|i: int|
                0 <= i < edges.len() && (#[trigger] edges[i]).label == label && edges[i].source
                    == s && !avoid.contains(edges[i].target),
    )
}

/// `n` flags, none of them set.
pub fn no_flags(n: usize) -> (r: Vec<bool>)
    ensures
        r@.len() == n,
        forall|x: int| 0 <= x < n ==> !r@[x],
        marked(r@) == Set::<usize>::empty(),
{
    let mut out: Vec<bool> = Vec::new();
    while out.len() < n
        invariant
            out@.len() <= n,
            forall|x: int| 0 <= x < out@.len() ==> !out@[x],
        decreases n - out@.len(),
    {
        out.push(false);
    }
    proof {
        assert(marked(out@) =~= Set::<usize>::empty());
    }
    out
}

/// Marks the places that an edge of the given label reaches from a marked place.
pub fn mark_targets(edges: &Vec<EdgeFact>, n: usize, label: Edge, from: &Vec<bool>) -> (r: Vec<
    bool,
>)
    requires
        within(edges@, n as nat),
        from@.len() == n,
    ensures
        r@.len() == n,
        marked(r@) == targets(edges@, label, marked(from@)),
{
    let mut out = no_flags(n);
    let mut i: usize = 0;
    while i < edges.len()
        invariant
            i <= edges.len(),
            within(edges@, n as nat),
            from@.len() == n,
            out@.len() == n,
            forall|t: int|
                0 <= t < n ==> (out@[t] <==> exists|k: int|
                    0 <= k < i && (#[trigger] edges@[k]).label == label && from@[edges@[k].source as int]
                        && edges@[k].target == t),
        decreases edges.len() - i,
    {
        let edge = edges[i];
        if edge.label == label && from[edge.source] {
            out.set(edge.target, true);
        }
        i += 1;
    }
    proof {
        let want = targets(edges@, label, marked(from@));
        assert forall|t: usize| marked(out@).contains(t) == want.contains(t) by {
            if want.contains(t) {
                let k = choose|k: int|
                    0 <= k < edges@.len() && (#[trigger] edges@[k]).label == label && marked(
                        from@,
                    ).contains(edges@[k].source) && edges@[k].target == t;
                assert(t < n);
            }
            if marked(out@).contains(t) {
                let k = choose|k: int|
                    0 <= k < i && (#[trigger] edges@[k]).label == label && from@[edges@[k].source as int]
                        && edges@[k].target == t;
                assert(marked(from@).contains(edges@[k].source));
            }
        }
        assert(marked(out@) =~= want);
    }
    out
}

/// Marks the places that an edge of the given label leaves for a place that
/// `avoid` does not mark.
pub fn mark_sources_avoiding(
    edges: &Vec<EdgeFact>,
    n: usize,
    label: Edge,
    avoid: &Vec<bool>,
) -> (r: Vec<bool>)
    requires
        within(edges@, n as nat),
        avoid@.len() == n,
    ensures
        r@.len() == n,
        marked(r@) == sources_avoiding(edges@, label, marked(avoid@)),
{
    let mut out = no_flags(n);
    let mut i: usize = 0;
    while i < edges.len()
        invariant
            i <= edges.len(),
            within(edges@, n as nat),
            avoid@.len() == n,
            out@.len() == n,
            forall|s: int|
                0 <= s < n ==> (out@[s] <==> exists|k: int|
                    0 <= k < i && (#[trigger] edges@[k]).label == label && edges@[k].source == s
                        && !avoid@[edges@[k].target as int]),
        decreases edges.len() - i,
    {
        let edge = edges[i];
        if edge.label == label && !avoid[edge.target] {
            out.set(edge.source, true);
        }
        i += 1;
    }
    proof {
        let want = sources_avoiding(edges@, label, marked(avoid@));
        assert forall|s: usize| marked(out@).contains(s) == want.contains(s) by {
            if want.contains(s) {
                let k = choose|k: int|
                    0 <= k < edges@.len() && (#[trigger] edges@[k]).label == label
                        && edges@[k].source == s && !marked(avoid@).contains(edges@[k].target);
                assert(s < n);
                assert(!avoid@[edges@[k].target as int]);
            }
            if marked(out@).contains(s) {
                let k = choose|k: int|
                    0 <= k < i && (#[trigger] edges@[k]).label == label && edges@[k].source == s
                        && !avoid@[edges@[k].target as int];
                assert(!marked(avoid@).contains(edges@[k].target));
            }
        }
        assert(marked(out@) =~= want);
    }
    out
}

/// Marks the places that both vectors mark.
pub fn both(a: &Vec<bool>, b: &Vec<bool>) -> (r: Vec<bool>)
    requires
        a@.len() == b@.len(),
    ensures
        r@.len() == a@.len(),
        marked(r@) == marked(a@).intersect(marked(b@)),
{
    let mut out: Vec<bool> = Vec::new();
    let mut i: usize = 0;
    while i < a.len()
        invariant
            i <= a.len(),
            a@.len() == b@.len(),
            out@.len() == i,
            forall|x: int| 0 <= x < i ==> out@[x] == (a@[x] && b@[x]),
        decreases a.len() - i,
    {
        out.push(a[i] && b[i]);
        i += 1;
    }
    proof {
        assert(marked(out@) =~= marked(a@).intersect(marked(b@)));
    }
    out
}

/// Marks the places that one of the vectors marks.
pub fn either(a: &Vec<bool>, b: &Vec<bool>) -> (r: Vec<bool>)
    requires
        a@.len() == b@.len(),
    ensures
        r@.len() == a@.len(),
        marked(r@) == marked(a@).union(marked(b@)),
{
    let mut out: Vec<bool> = Vec::new();
    let mut i: usize = 0;
    while i < a.len()
        invariant
            i <= a.len(),
            a@.len() == b@.len(),
            out@.len() == i,
            forall|x: int| 0 <= x < i ==> out@[x] == (a@[x] || b@[x]),
        decreases a.len() - i,
    {
        out.push(a[i] || b[i]);
        i += 1;
    }
    proof {
        assert(marked(out@) =~= marked(a@).union(marked(b@)));
    }
    out
}

/// The implementations of the trait that `label` stands for.
pub open spec fn impls(edges: Seq<EdgeFact>, label: Edge) -> Set<usize> {
    sources_avoiding(edges, label, Set::empty())
}

/// `app(x) <- edge(impl, trait, TraitApp), edge(impl, x, Type)`
pub open spec fn apps(edges: Seq<EdgeFact>) -> Set<usize> {
    targets(edges, Edge::Type, impls(edges, Edge::TraitApp))
}

/// `effect(x) <- edge(impl, trait, TraitEffect), edge(impl, x, Type)`
pub open spec fn effects(edges: Seq<EdgeFact>) -> Set<usize> {
    targets(edges, Edge::Type, impls(edges, Edge::TraitEffect))
}

/// A type is an app, or an effect, exactly when some implementation has an
/// edge to the trait and a `Type` edge to the type.
pub proof fn implemented_types(edges: Seq<EdgeFact>, label: Edge, x: usize)
    ensures
        targets(edges, Edge::Type, impls(edges, label)).contains(x) <==> exists|i: int, j: int|
            0 <= i < edges.len() && 0 <= j < edges.len() && (#[trigger] edges[i]).label == label
                && (#[trigger] edges[j]).label == Edge::Type && edges[j].source == edges[i].source
                && edges[j].target == x,
{
    if targets(edges, Edge::Type, impls(edges, label)).contains(x) {
        let j = choose|j: int|
            0 <= j < edges.len() && (#[trigger] edges[j]).label == Edge::Type && impls(
                edges,
                label,
            ).contains(edges[j].source) && edges[j].target == x;
        let i = choose|i: int|
            0 <= i < edges.len() && (#[trigger] edges[i]).label == label && edges[i].source
                == edges[j].source && !Set::<usize>::empty().contains(edges[i].target);
        assert(edges[i].label == label && edges[j].label == Edge::Type && edges[j].source
            == edges[i].source && edges[j].target == x);
    }
    if exists|i: int, j: int|
        0 <= i < edges.len() && 0 <= j < edges.len() && (#[trigger] edges[i]).label == label
            && (#[trigger] edges[j]).label == Edge::Type && edges[j].source == edges[i].source
            && edges[j].target == x {
        let (i, j) = choose|i: int, j: int|
            0 <= i < edges.len() && 0 <= j < edges.len() && (#[trigger] edges[i]).label == label
                && (#[trigger] edges[j]).label == Edge::Type && edges[j].source == edges[i].source
                && edges[j].target == x;
        assert(impls(edges, label).contains(edges[i].source));
    }
}

/// The apps that have a parent:
/// `parent(p, c) <- app(p), app(c), edge(p, f, Field), edge(f, c, Type)`
pub open spec fn children(edges: Seq<EdgeFact>) -> Set<usize> {
    apps(edges).intersect(targets(edges, Edge::Type, targets(edges, Edge::Field, apps(edges))))
}

/// Whether the nodes at two places have summaries that lie in the same module.
pub open spec fn in_same_module(nodes: Seq<Node>, a: usize, b: usize) -> bool {
    a < nodes.len() && b < nodes.len() && match (nodes[a as int].summary, nodes[b as int].summary) {
        (Some(x), Some(y)) => same_module(x.path(), y.path()),
        _ => false,
    }
}

/// The associated types of the apps without a parent:
/// `root(t) <- edge(impl, _, TraitApp), edge(impl, a, Type), !parent(_, a),
/// edge(impl, i, AssociatedItem), edge(i, t, AssociatedType)`
pub open spec fn app_roots(edges: Seq<EdgeFact>) -> Set<usize> {
    targets(
        edges,
        Edge::AssociatedType,
        targets(
            edges,
            Edge::AssociatedItem,
            impls(edges, Edge::TraitApp).intersect(
                sources_avoiding(edges, Edge::Type, children(edges)),
            ),
        ),
    )
}

/// Whether a field of `parent` has the type `child`, both of them in the set.
pub open spec fn parent_among(
    edges: Seq<EdgeFact>,
    among: Set<usize>,
    parent: usize,
    child: usize,
) -> bool {
    among.contains(parent) && among.contains(child) && exists|i: int, j: int|
        0 <= i < edges.len() && 0 <= j < edges.len() && (#[trigger] edges[i]).source == parent
            && edges[i].label == Edge::Field && (#[trigger] edges[j]).source == edges[i].target
            && edges[j].label == Edge::Type && edges[j].target == child
}

/// `parent(p, c) <- app(p), app(c), edge(p, f, Field), edge(f, c, Type)`
pub open spec fn is_parent(edges: Seq<EdgeFact>, parent: usize, child: usize) -> bool {
    parent_among(edges, apps(edges), parent, child)
}

/// The apps with a parent are the children of the relation `parent`.
pub proof fn children_have_parents(edges: Seq<EdgeFact>, child: usize)
    ensures
        children(edges).contains(child) <==> exists|parent: usize|
            is_parent(edges, parent, child),
{
    let fields = targets(edges, Edge::Field, apps(edges));
    if children(edges).contains(child) {
        let j = choose|j: int|
            0 <= j < edges.len() && (#[trigger] edges[j]).label == Edge::Type && fields.contains(
                edges[j].source,
            ) && edges[j].target == child;
        let i = choose|i: int|
            0 <= i < edges.len() && (#[trigger] edges[i]).label == Edge::Field && apps(
                edges,
            ).contains(edges[i].source) && edges[i].target == edges[j].source;
        assert(is_parent(edges, edges[i].source, child));
    }
    if exists|parent: usize| is_parent(edges, parent, child) {
        let parent = choose|parent: usize| is_parent(edges, parent, child);
        let (i, j) = choose|i: int, j: int|
            0 <= i < edges.len() && 0 <= j < edges.len() && (#[trigger] edges[i]).source == parent
                && edges[i].label == Edge::Field && (#[trigger] edges[j]).source == edges[i].target
                && edges[j].label == Edge::Type && edges[j].target == child;
        assert(fields.contains(edges[i].target));
        assert(targets(edges, Edge::Type, fields).contains(child));
    }
}

/// `is_effect_of_app(a, e) <- app(a), effect(e), a and e in the same module`
pub open spec fn is_effect_of_app(
    nodes: Seq<Node>,
    edges: Seq<EdgeFact>,
    app: usize,
    effect: usize,
) -> bool {
    apps(edges).contains(app) && effects(edges).contains(effect) && in_same_module(
        nodes,
        app,
        effect,
    )
}

/// The effects of the apps without a parent:
/// `root(e) <- is_effect_of_app(a, e), !parent(_, a)`
pub open spec fn effect_roots(nodes: Seq<Node>, edges: Seq<EdgeFact>) -> Set<usize> {
    Set::new(
        |e: usize|
            exists|a: usize|
                #[trigger] is_effect_of_app(nodes, edges, a, e) && !children(edges).contains(a),
    )
}

/// The entry points of the reachability pass.
pub open spec fn roots(nodes: Seq<Node>, edges: Seq<EdgeFact>) -> Set<usize> {
    app_roots(edges).union(effect_roots(nodes, edges))
}

/// Whether the two nodes have summaries that lie in the same module.
pub fn are_in_same_module(app: &Node, effect: &Node) -> (r: bool)
    ensures
        r == match (app.summary, effect.summary) {
            (Some(x), Some(y)) => same_module(x.path(), y.path()),
            _ => false,
        },
{
    match (&app.summary, &effect.summary) {
        (Some(x), Some(y)) => x.in_same_module_as(y),
        _ => false,
    }
}

/// Marks the effects of the apps without a parent.
pub fn mark_effect_roots(
    nodes: &Vec<Node>,
    apps: &Vec<bool>,
    children: &Vec<bool>,
    effects: &Vec<bool>,
) -> (r: Vec<bool>)
    requires
        apps@.len() == nodes@.len(),
        children@.len() == nodes@.len(),
        effects@.len() == nodes@.len(),
    ensures
        r@.len() == nodes@.len(),
        forall|e: usize|
            marked(r@).contains(e) <==> (marked(effects@).contains(e) && exists|a: usize|
                marked(apps@).contains(a) && !marked(children@).contains(a)
                    && #[trigger] in_same_module(nodes@, a, e)),
{
    let n = nodes.len();
    let mut out: Vec<bool> = Vec::new();
    let mut e: usize = 0;
    while e < n
        invariant
            e <= n,
            n == nodes@.len(),
            apps@.len() == n,
            children@.len() == n,
            effects@.len() == n,
            out@.len() == e,
            forall|x: usize|
                x < e ==> (out@[x as int] <==> (effects@[x as int] && exists|a: usize|
                    marked(apps@).contains(a) && !marked(children@).contains(a)
                        && #[trigger] in_same_module(nodes@, a, x))),
        decreases n - e,
    {
        let mut found = false;
        if effects[e] {
            let mut a: usize = 0;
            while a < n && !found
                invariant
                    a <= n,
                    e < n,
                    n == nodes@.len(),
                    apps@.len() == n,
                    children@.len() == n,
                    found ==> exists|w: usize|
                        marked(apps@).contains(w) && !marked(children@).contains(w)
                            && #[trigger] in_same_module(nodes@, w, e),
                    !found ==> forall|w: usize|
                        w < a ==> !(marked(apps@).contains(w) && !marked(children@).contains(w)
                            && #[trigger] in_same_module(nodes@, w, e)),
                decreases n - a, if found { 0int } else { 1int },
            {
                if apps[a] && !children[a] && are_in_same_module(&nodes[a], &nodes[e]) {
                    found = true;
                    proof {
                        assert(marked(apps@).contains(a) && !marked(children@).contains(a)
                            && in_same_module(nodes@, a, e));
                    }
                } else {
                    a += 1;
                }
            }
        }
        out.push(found);
        e += 1;
    }
    out
}

/// Whether one pair of places stands before another: by the first place, and
/// by the second where the first places are the same.
pub open spec fn pair_before(a: (usize, usize), b: (usize, usize)) -> bool {
    a.0 < b.0 || (a.0 == b.0 && a.1 < b.1)
}

/// Each pair stands before every later one.
pub open spec fn in_order(pairs: Seq<(usize, usize)>) -> bool {
    forall|i: int, j: int| 0 <= i < j < pairs.len() ==> pair_before(pairs[i], pairs[j])
}

/// Whether the two places are an app and an effect of the two sets whose
/// nodes lie in the same module.
pub open spec fn effect_among(
    nodes: Seq<Node>,
    some_apps: Set<usize>,
    some_effects: Set<usize>,
    pair: (usize, usize),
) -> bool {
    some_apps.contains(pair.0) && some_effects.contains(pair.1) && in_same_module(
        nodes,
        pair.0,
        pair.1,
    )
}

/// Lists every marked app with every marked effect of its module, in the
/// order of the places.
pub fn list_effects_of_apps(nodes: &Vec<Node>, app_flags: &Vec<bool>, effect_flags: &Vec<bool>) -> (r:
    Vec<(usize, usize)>)
    requires
        app_flags@.len() == nodes@.len(),
        effect_flags@.len() == nodes@.len(),
    ensures
        in_order(r@),
        forall|pair: (usize, usize)|
            r@.contains(pair) <==> effect_among(
                nodes@,
                marked(app_flags@),
                marked(effect_flags@),
                pair,
            ),
{
    let n = nodes.len();
    let ghost some_apps = marked(app_flags@);
    let ghost some_effects = marked(effect_flags@);
    let mut out: Vec<(usize, usize)> = Vec::new();
    let mut a: usize = 0;
    while a < n
        invariant
            a <= n,
            n == nodes@.len(),
            app_flags@.len() == n,
            effect_flags@.len() == n,
            some_apps == marked(app_flags@),
            some_effects == marked(effect_flags@),
            in_order(out@),
            forall|k: int|
                0 <= k < out@.len() ==> effect_among(
                    nodes@,
                    some_apps,
                    some_effects,
                    #[trigger] out@[k],
                ) && out@[k].0 < a,
            forall|pair: (usize, usize)|
                #[trigger] effect_among(nodes@, some_apps, some_effects, pair) && pair.0 < a
                    ==> out@.contains(pair),
        decreases n - a,
    {
        let mut e: usize = 0;
        while e < n
            invariant
                a < n,
                e <= n,
                n == nodes@.len(),
                app_flags@.len() == n,
                effect_flags@.len() == n,
                some_apps == marked(app_flags@),
                some_effects == marked(effect_flags@),
                in_order(out@),
                forall|k: int|
                    0 <= k < out@.len() ==> effect_among(
                        nodes@,
                        some_apps,
                        some_effects,
                        #[trigger] out@[k],
                    ) && pair_before(out@[k], (a, e)),
                forall|pair: (usize, usize)|
                    #[trigger] effect_among(nodes@, some_apps, some_effects, pair) && pair_before(
                        pair,
                        (a, e),
                    ) ==> out@.contains(pair),
            decreases n - e,
        {
            let taken = app_flags[a] && effect_flags[e] && are_in_same_module(&nodes[a], &nodes[e]);
            let ghost before = out@;
            proof {
                assert(taken == effect_among(nodes@, some_apps, some_effects, (a, e)));
            }
            if taken {
                out.push((a, e));
            }
            proof {
                assert forall|pair: (usize, usize)|
                    #[trigger] effect_among(nodes@, some_apps, some_effects, pair) && pair_before(
                        pair,
                        (a, (e + 1) as usize),
                    ) implies out@.contains(pair) by {
                    if pair_before(pair, (a, e)) {
                        let k = choose|k: int| 0 <= k < before.len() && before[k] == pair;
                        assert(out@[k] == pair);
                    } else {
                        assert(pair == (a, e));
                        assert(out@[out@.len() - 1] == pair);
                    }
                }
            }
            e += 1;
        }
        proof {
            assert forall|pair: (usize, usize)|
                #[trigger] effect_among(nodes@, some_apps, some_effects, pair) && pair.0 < a
                    + 1 implies out@.contains(pair) by {
                assert(pair_before(pair, (a, n)));
            }
        }
        a += 1;
    }
    proof {
        assert forall|pair: (usize, usize)|
            out@.contains(pair) <==> effect_among(nodes@, some_apps, some_effects, pair) by {
            if out@.contains(pair) {
                let k = choose|k: int| 0 <= k < out@.len() && out@[k] == pair;
                assert(effect_among(nodes@, some_apps, some_effects, out@[k]));
            }
        }
    }
    out
}

/// Lists every pair of a marked place and a marked place that is the type of
/// one of its fields, each pair once.
pub fn list_parents(edges: &Vec<EdgeFact>, app_flags: &Vec<bool>) -> (r: Vec<(usize, usize)>)
    requires
        within(edges@, app_flags@.len()),
    ensures
        r@.no_duplicates(),
        forall|pair: (usize, usize)|
            r@.contains(pair) <==> parent_among(edges@, marked(app_flags@), pair.0, pair.1),
{
    let ghost among = marked(app_flags@);
    let mut out: Vec<(usize, usize)> = Vec::new();
    let mut i: usize = 0;
    while i < edges.len()
        invariant
            i <= edges.len(),
            within(edges@, app_flags@.len()),
            among == marked(app_flags@),
            out@.no_duplicates(),
            forall|k: int|
                0 <= k < out@.len() ==> parent_among(
                    edges@,
                    among,
                    (#[trigger] out@[k]).0,
                    out@[k].1,
                ),
            forall|x: int, y: int|
                0 <= x < i && 0 <= y < edges@.len() && joins(edges@, among, x, y) ==> out@.contains(
                    ((#[trigger] edges@[x]).source, (#[trigger] edges@[y]).target),
                ),
        decreases edges.len() - i,
    {
        let first = edges[i];
        if first.label == Edge::Field && app_flags[first.source] {
            let mut j: usize = 0;
            while j < edges.len()
                invariant
                    i < edges.len(),
                    j <= edges.len(),
                    first == edges@[i as int],
                    first.label == Edge::Field,
                    among.contains(first.source),
                    within(edges@, app_flags@.len()),
                    among == marked(app_flags@),
                    out@.no_duplicates(),
                    forall|k: int|
                        0 <= k < out@.len() ==> parent_among(
                            edges@,
                            among,
                            (#[trigger] out@[k]).0,
                            out@[k].1,
                        ),
                    forall|x: int, y: int|
                        0 <= x < i && 0 <= y < edges@.len() && joins(edges@, among, x, y)
                            ==> out@.contains(
                            ((#[trigger] edges@[x]).source, (#[trigger] edges@[y]).target),
                        ),
                    forall|y: int|
                        0 <= y < j && joins(edges@, among, i as int, y) ==> out@.contains(
                            (first.source, (#[trigger] edges@[y]).target),
                        ),
                decreases edges.len() - j,
            {
                let second = edges[j];
                let ghost before = out@;
                if second.label == Edge::Type && second.source == first.target
                    && app_flags[second.target] {
                    proof {
                        assert(joins(edges@, among, i as int, j as int));
                        assert(parent_among(edges@, among, first.source, second.target));
                    }
                    if !has_pair(&out, (first.source, second.target)) {
                        out.push((first.source, second.target));
                        proof {
                            assert(out@[out@.len() - 1] == (first.source, second.target));
                        }
                    }
                }
                proof {
                    assert forall|pair: (usize, usize)| before.contains(pair) implies out@.contains(
                        pair,
                    ) by {
                        let k = choose|k: int| 0 <= k < before.len() && before[k] == pair;
                        assert(out@[k] == pair);
                    }
                }
                j += 1;
            }
        } else {
            proof {
                assert forall|y: int| 0 <= y < edges@.len() implies !joins(
                    edges@,
                    among,
                    i as int,
                    y,
                ) by {
                    assert(among.contains(first.source) == app_flags@[first.source as int]);
                }
            }
        }
        i += 1;
    }
    proof {
        assert forall|pair: (usize, usize)|
            out@.contains(pair) <==> parent_among(edges@, among, pair.0, pair.1) by {
            if out@.contains(pair) {
                let k = choose|k: int| 0 <= k < out@.len() && out@[k] == pair;
                assert(parent_among(edges@, among, out@[k].0, out@[k].1));
            }
            if parent_among(edges@, among, pair.0, pair.1) {
                let (x, y) = choose|x: int, y: int|
                    0 <= x < edges@.len() && 0 <= y < edges@.len() && (#[trigger] edges@[x]).source
                        == pair.0 && edges@[x].label == Edge::Field
                        && (#[trigger] edges@[y]).source == edges@[x].target && edges@[y].label
                        == Edge::Type && edges@[y].target == pair.1;
                assert(joins(edges@, among, x, y));
            }
        }
    }
    out
}

/// Whether the edge at `x` is a field of a place in the set and the edge at
/// `y` gives that field a type in the set.
pub open spec fn joins(edges: Seq<EdgeFact>, among: Set<usize>, x: int, y: int) -> bool {
    edges[x].label == Edge::Field && among.contains(edges[x].source) && edges[y].source
        == edges[x].target && edges[y].label == Edge::Type && among.contains(edges[y].target)
}

/// What the rules derive before they follow the roots.
#[derive(Debug, PartialEq, Eq)]
pub struct Relations {
    /// The apps.
    pub apps: Vec<bool>,
    /// The effects.
    pub effects: Vec<bool>,
    /// The apps that have a parent.
    pub children: Vec<bool>,
    /// The roots.
    pub roots: Vec<bool>,
    /// The relation `parent`: parent and child by their places.
    pub parents: Vec<(usize, usize)>,
    /// The relation `is_effect_of_app`: app and effect by their places.
    pub effects_of_apps: Vec<(usize, usize)>,
}

/// Derives the apps, the effects, the apps with a parent, and the roots.
pub fn derive_relations(nodes: &Vec<Node>, edges: &Vec<EdgeFact>) -> (r: Relations)
    requires
        within(edges@, nodes@.len()),
    ensures
        r.apps@.len() == nodes@.len(),
        r.effects@.len() == nodes@.len(),
        r.children@.len() == nodes@.len(),
        r.roots@.len() == nodes@.len(),
        marked(r.apps@) == apps(edges@),
        marked(r.effects@) == effects(edges@),
        marked(r.children@) == children(edges@),
        marked(r.roots@) == roots(nodes@, edges@),
        r.parents@.no_duplicates(),
        forall|pair: (usize, usize)|
            r.parents@.contains(pair) <==> is_parent(edges@, pair.0, pair.1),
        in_order(r.effects_of_apps@),
        forall|pair: (usize, usize)|
            r.effects_of_apps@.contains(pair) <==> is_effect_of_app(
                nodes@,
                edges@,
                pair.0,
                pair.1,
            ),
{
    let n = nodes.len();
    let nothing = no_flags(n);
    let app_impls = mark_sources_avoiding(edges, n, Edge::TraitApp, &nothing);
    let effect_impls = mark_sources_avoiding(edges, n, Edge::TraitEffect, &nothing);
    let app_flags = mark_targets(edges, n, Edge::Type, &app_impls);
    let effect_flags = mark_targets(edges, n, Edge::Type, &effect_impls);
    let app_fields = mark_targets(edges, n, Edge::Field, &app_flags);
    let field_types = mark_targets(edges, n, Edge::Type, &app_fields);
    let child_flags = both(&app_flags, &field_types);
    let free_impls = mark_sources_avoiding(edges, n, Edge::Type, &child_flags);
    let top_impls = both(&app_impls, &free_impls);
    let top_items = mark_targets(edges, n, Edge::AssociatedItem, &top_impls);
    let from_apps = mark_targets(edges, n, Edge::AssociatedType, &top_items);
    let from_effects = mark_effect_roots(nodes, &app_flags, &child_flags, &effect_flags);
    let root_flags = either(&from_apps, &from_effects);
    proof {
        assert forall|e: usize| marked(from_effects@).contains(e) == effect_roots(
            nodes@,
            edges@,
        ).contains(e) by {
            if marked(from_effects@).contains(e) {
                let a = choose|a: usize|
                    marked(app_flags@).contains(a) && !marked(child_flags@).contains(a)
                        && #[trigger] in_same_module(nodes@, a, e);
                assert(is_effect_of_app(nodes@, edges@, a, e));
            }
            if effect_roots(nodes@, edges@).contains(e) {
                let a = choose|a: usize|
                    #[trigger] is_effect_of_app(nodes@, edges@, a, e) && !children(
                        edges@,
                    ).contains(a);
                assert(in_same_module(nodes@, a, e));
            }
        }
        assert(marked(from_effects@) =~= effect_roots(nodes@, edges@));
    }
    let parents = list_parents(edges, &app_flags);
    let effects_of_apps = list_effects_of_apps(nodes, &app_flags, &effect_flags);
    Relations {
        apps: app_flags,
        effects: effect_flags,
        children: child_flags,
        roots: root_flags,
        parents,
        effects_of_apps,
    }
}

/// The labels that lead from a root to its children.
pub open spec fn leaves_root(label: Edge) -> bool {
    label == Edge::Variant || label == Edge::Field
}

/// The labels that lead on from a place that was reached.
pub open spec fn leads_on(label: Edge) -> bool {
    label == Edge::Variant || label == Edge::Field || label == Edge::Type
}

/// Whether the edge carries a parent and child across: it leaves a root as a
/// field or a variant, or leaves a place in `reached` as a field, a variant or
/// a type.
pub open spec fn crosses(edge: EdgeFact, roots: Set<usize>, reached: Set<usize>) -> bool {
    (roots.contains(edge.source) && leaves_root(edge.label)) || (reached.contains(edge.source)
        && leads_on(edge.label))
}

/// The places that are children within so many rounds of the two rules
/// `output(r, c) <- root(r), edge(r, c, Variant | Field)` and
/// `output(p, c) <- output(_, p), edge(p, c, Variant | Field | Type)`.
pub open spec fn reached_within(edges: Seq<EdgeFact>, roots: Set<usize>, rounds: nat) -> Set<
    usize,
>
    decreases rounds,
{
    if rounds == 0 {
        Set::empty()
    } else {
        let before = reached_within(edges, roots, (rounds - 1) as nat);
        Set::new(
            |c: usize|
                before.contains(c) || exists|i: int|
                    0 <= i < edges.len() && (#[trigger] edges[i]).target == c && crosses(
                        edges[i],
                        roots,
                        before,
                    ),
        )
    }
}

/// The places that are children in the least fixpoint of the two rules.
pub open spec fn reached(edges: Seq<EdgeFact>, roots: Set<usize>) -> Set<usize> {
    Set::new(|c: usize| exists|rounds: nat| reached_within(edges, roots, rounds).contains(c))
}

/// Whether the edge is in the least fixpoint of the two rules.
pub open spec fn in_output(edges: Seq<EdgeFact>, roots: Set<usize>, edge: EdgeFact) -> bool {
    crosses(edge, roots, reached(edges, roots))
}

/// How many of the flags are not set.
pub open spec fn unset(flags: Seq<bool>) -> nat
    decreases flags.len(),
{
    if flags.len() == 0 {
        0
    } else {
        unset(flags.drop_last()) + if flags.last() {
            0nat
        } else {
            1nat
        }
    }
}

/// Setting a flag that was not set leaves one unset flag fewer.
pub proof fn unset_after_setting(flags: Seq<bool>, at: int)
    requires
        0 <= at < flags.len(),
        !flags[at],
    ensures
        unset(flags.update(at, true)) + 1 == unset(flags),
    decreases flags.len(),
{
    let after = flags.update(at, true);
    if at == flags.len() - 1 {
        assert(after.drop_last() == flags.drop_last());
    } else {
        assert(after.drop_last() == flags.drop_last().update(at, true));
        unset_after_setting(flags.drop_last(), at);
    }
}

/// A set of places that the two rules cannot enlarge holds every place that
/// they reach.
pub proof fn closed_holds_reached(
    edges: Seq<EdgeFact>,
    roots: Set<usize>,
    closed: Set<usize>,
    rounds: nat,
)
    requires
        forall|i: int|
            0 <= i < edges.len() && crosses(#[trigger] edges[i], roots, closed) ==> closed.contains(
                edges[i].target,
            ),
    ensures
        reached_within(edges, roots, rounds).subset_of(closed),
    decreases rounds,
{
    if rounds > 0 {
        closed_holds_reached(edges, roots, closed, (rounds - 1) as nat);
        let before = reached_within(edges, roots, (rounds - 1) as nat);
        assert forall|c: usize| reached_within(edges, roots, rounds).contains(c) implies closed.contains(
            c,
        ) by {
            if !before.contains(c) {
                let i = choose|i: int|
                    0 <= i < edges.len() && (#[trigger] edges[i]).target == c && crosses(
                        edges[i],
                        roots,
                        before,
                    );
                assert(crosses(edges[i], roots, closed));
            }
        }
    }
}

/// Marks the places that are children in the least fixpoint of the two rules.
pub fn mark_reached(edges: &Vec<EdgeFact>, n: usize, roots: &Vec<bool>) -> (r: Vec<bool>)
    requires
        within(edges@, n as nat),
        roots@.len() == n,
    ensures
        r@.len() == n,
        marked(r@) == reached(edges@, marked(roots@)),
{
    let mut flags = no_flags(n);
    let mut changed = true;
    while changed
        invariant
            within(edges@, n as nat),
            roots@.len() == n,
            flags@.len() == n,
            marked(flags@).subset_of(reached(edges@, marked(roots@))),
            !changed ==> forall|i: int|
                0 <= i < edges@.len() && crosses(
                    #[trigger] edges@[i],
                    marked(roots@),
                    marked(flags@),
                ) ==> marked(flags@).contains(edges@[i].target),
        decreases unset(flags@), if changed { 1int } else { 0int },
    {
        changed = false;
        let ghost start = flags@;
        let mut i: usize = 0;
        while i < edges.len()
            invariant
                i <= edges.len(),
                within(edges@, n as nat),
                roots@.len() == n,
                flags@.len() == n,
                start.len() == n,
                marked(flags@).subset_of(reached(edges@, marked(roots@))),
                !changed ==> flags@ == start,
                changed ==> unset(flags@) < unset(start),
                !changed ==> forall|k: int|
                    0 <= k < i && crosses(#[trigger] edges@[k], marked(roots@), marked(start))
                        ==> marked(start).contains(edges@[k].target),
            decreases edges.len() - i,
        {
            let edge = edges[i];
            let first = edge.label == Edge::Variant || edge.label == Edge::Field;
            let next = first || edge.label == Edge::Type;
            if !flags[edge.target] && ((roots[edge.source] && first) || (flags[edge.source]
                && next)) {
                proof {
                    let all = reached(edges@, marked(roots@));
                    let before: nat = if roots@[edge.source as int] && first {
                        0nat
                    } else {
                        assert(all.contains(edge.source));
                        choose|rounds: nat|
                            reached_within(edges@, marked(roots@), rounds).contains(edge.source)
                    };
                    assert(crosses(
                        edges@[i as int],
                        marked(roots@),
                        reached_within(edges@, marked(roots@), before),
                    ));
                    assert(reached_within(edges@, marked(roots@), before + 1).contains(
                        edge.target,
                    ));
                    unset_after_setting(flags@, edge.target as int);
                }
                flags.set(edge.target, true);
                changed = true;
            }
            i += 1;
        }
    }
    proof {
        let all = reached(edges@, marked(roots@));
        assert forall|c: usize| all.contains(c) implies marked(flags@).contains(c) by {
            let rounds = choose|rounds: nat|
                reached_within(edges@, marked(roots@), rounds).contains(c);
            closed_holds_reached(edges@, marked(roots@), marked(flags@), rounds);
        }
        assert(marked(flags@) =~= all);
    }
    flags
}

/// Parent and child of each of the first `upto` edges that crosses from the
/// roots or from what was reached, in the order of the edges and each pair
/// once.
pub open spec fn crossing_pairs(
    edges: Seq<EdgeFact>,
    roots: Set<usize>,
    reached: Set<usize>,
    upto: nat,
) -> Seq<(usize, usize)>
    decreases upto,
{
    if upto == 0 || upto > edges.len() {
        Seq::empty()
    } else {
        let before = crossing_pairs(edges, roots, reached, (upto - 1) as nat);
        let edge = edges[upto - 1];
        if crosses(edge, roots, reached) && !before.contains((edge.source, edge.target)) {
            before.push((edge.source, edge.target))
        } else {
            before
        }
    }
}

/// The output relation as a list: parent and child of each edge that is in
/// the least fixpoint, in the order of the edges and each pair once.
pub open spec fn output(edges: Seq<EdgeFact>, roots: Set<usize>) -> Seq<(usize, usize)> {
    crossing_pairs(edges, roots, reached(edges, roots), edges.len())
}

/// Whether the list holds the pair.
pub fn has_pair(pairs: &Vec<(usize, usize)>, pair: (usize, usize)) -> (r: bool)
    ensures
        r == pairs@.contains(pair),
{
    let mut i: usize = 0;
    while i < pairs.len()
        invariant
            i <= pairs.len(),
            forall|k: int| 0 <= k < i ==> pairs@[k] != pair,
        decreases pairs.len() - i,
    {
        if pairs[i].0 == pair.0 && pairs[i].1 == pair.1 {
            return true;
        }
        i += 1;
    }
    false
}

/// Lists parent and child of each edge that crosses from a root or from a
/// place that was reached.
pub fn select_pairs(edges: &Vec<EdgeFact>, roots: &Vec<bool>, reached_flags: &Vec<bool>) -> (r:
    Vec<(usize, usize)>)
    requires
        within(edges@, roots@.len()),
        reached_flags@.len() == roots@.len(),
    ensures
        r@ == crossing_pairs(edges@, marked(roots@), marked(reached_flags@), edges@.len()),
{
    let mut out: Vec<(usize, usize)> = Vec::new();
    let mut i: usize = 0;
    while i < edges.len()
        invariant
            i <= edges.len(),
            within(edges@, roots@.len()),
            reached_flags@.len() == roots@.len(),
            out@ == crossing_pairs(edges@, marked(roots@), marked(reached_flags@), i as nat),
        decreases edges.len() - i,
    {
        let edge = edges[i];
        let first = edge.label == Edge::Variant || edge.label == Edge::Field;
        let next = first || edge.label == Edge::Type;
        let taken = (roots[edge.source] && first) || (reached_flags[edge.source] && next);
        proof {
            assert(marked(roots@).contains(edge.source) == roots@[edge.source as int]);
            assert(marked(reached_flags@).contains(edge.source) == reached_flags@[edge.source as int]);
            assert(taken == crosses(edge, marked(roots@), marked(reached_flags@)));
        }
        if taken && !has_pair(&out, (edge.source, edge.target)) {
            out.push((edge.source, edge.target));
        }
        i += 1;
    }
    out
}

/// An edge that leaves a root as a field or a variant is in the output.
pub proof fn root_children_are_output(edges: Seq<EdgeFact>, roots: Set<usize>, edge: EdgeFact)
    requires
        roots.contains(edge.source),
        leaves_root(edge.label),
    ensures
        in_output(edges, roots, edge),
{
}

/// An edge that leaves the child of an output edge as a field, a variant or a
/// type is in the output too.
pub proof fn output_leads_on(edges: Seq<EdgeFact>, roots: Set<usize>, i: int, j: int)
    requires
        0 <= i < edges.len(),
        0 <= j < edges.len(),
        in_output(edges, roots, edges[i]),
        edges[j].source == edges[i].target,
        leads_on(edges[j].label),
    ensures
        in_output(edges, roots, edges[j]),
{
    let all = reached(edges, roots);
    let before: nat = if roots.contains(edges[i].source) && leaves_root(edges[i].label) {
        0nat
    } else {
        choose|rounds: nat| reached_within(edges, roots, rounds).contains(edges[i].source)
    };
    assert(crosses(edges[i], roots, reached_within(edges, roots, before)));
    assert(reached_within(edges, roots, before + 1).contains(edges[i].target));
    assert(all.contains(edges[i].target));
}

/// Whether the edges at the places `path` form a walk: each leaves the place
/// that the one before it reached, as a field, a variant or a type.
pub open spec fn is_walk(edges: Seq<EdgeFact>, path: Seq<int>) -> bool
    decreases path.len(),
{
    if path.len() == 0 {
        true
    } else {
        let last = path.last();
        &&& 0 <= last < edges.len()
        &&& is_walk(edges, path.drop_last())
        &&& path.len() > 1 ==> {
            let before = path[path.len() - 2];
            edges[last].source == edges[before].target && leads_on(edges[last].label)
        }
    }
}

/// Everything that a walk from a root passes is in the output, where the walk
/// leaves the root as a field or a variant.
pub proof fn walks_from_roots_are_output(edges: Seq<EdgeFact>, roots: Set<usize>, path: Seq<int>)
    requires
        path.len() > 0,
        is_walk(edges, path),
        roots.contains(edges[path[0]].source),
        leaves_root(edges[path[0]].label),
    ensures
        in_output(edges, roots, edges[path.last()]),
    decreases path.len(),
{
    if path.len() > 1 {
        let shorter = path.drop_last();
        assert(shorter[0] == path[0]);
        assert(shorter.last() == path[path.len() - 2]);
        walks_from_roots_are_output(edges, roots, shorter);
        assert(is_walk(edges, shorter));
        assert(0 <= shorter.last() < edges.len());
        output_leads_on(edges, roots, shorter.last(), path.last());
    }
}

/// The associated type of an implementation of `App` is a root where the type
/// that the implementation is for has no parent.
pub proof fn associated_types_of_top_apps_are_roots(
    nodes: Seq<Node>,
    edges: Seq<EdgeFact>,
    of_trait: int,
    of_type: int,
    of_item: int,
    of_target: int,
)
    requires
        0 <= of_trait < edges.len(),
        0 <= of_type < edges.len(),
        0 <= of_item < edges.len(),
        0 <= of_target < edges.len(),
        edges[of_trait].label == Edge::TraitApp,
        edges[of_type].label == Edge::Type,
        edges[of_type].source == edges[of_trait].source,
        !children(edges).contains(edges[of_type].target),
        edges[of_item].label == Edge::AssociatedItem,
        edges[of_item].source == edges[of_trait].source,
        edges[of_target].label == Edge::AssociatedType,
        edges[of_target].source == edges[of_item].target,
    ensures
        roots(nodes, edges).contains(edges[of_target].target),
{
    let imp = edges[of_trait].source;
    assert(impls(edges, Edge::TraitApp).contains(imp));
    assert(sources_avoiding(edges, Edge::Type, children(edges)).contains(imp));
    let top = impls(edges, Edge::TraitApp).intersect(
        sources_avoiding(edges, Edge::Type, children(edges)),
    );
    assert(top.contains(imp));
    let items = targets(edges, Edge::AssociatedItem, top);
    assert(items.contains(edges[of_item].target));
    assert(targets(edges, Edge::AssociatedType, items).contains(edges[of_target].target));
}

/// The listed pairs are those of the edges that cross, and none is listed
/// twice. For the output this says: it holds a pair exactly when an edge
/// between the two places is in the least fixpoint.
pub proof fn crossing_pairs_are_the_relation(
    edges: Seq<EdgeFact>,
    roots: Set<usize>,
    reached: Set<usize>,
    upto: nat,
)
    requires
        upto <= edges.len(),
    ensures
        crossing_pairs(edges, roots, reached, upto).no_duplicates(),
        forall|pair: (usize, usize)|
            crossing_pairs(edges, roots, reached, upto).contains(pair) <==> exists|i: int|
                0 <= i < upto && crosses(#[trigger] edges[i], roots, reached) && edges[i].source
                    == pair.0 && edges[i].target == pair.1,
    decreases upto,
{
    if upto > 0 {
        let before = crossing_pairs(edges, roots, reached, (upto - 1) as nat);
        let now = crossing_pairs(edges, roots, reached, upto);
        let edge = edges[upto - 1];
        crossing_pairs_are_the_relation(edges, roots, reached, (upto - 1) as nat);
        assert forall|pair: (usize, usize)| now.contains(pair) <==> exists|i: int|
            0 <= i < upto && crosses(#[trigger] edges[i], roots, reached) && edges[i].source
                == pair.0 && edges[i].target == pair.1 by {
            if now.contains(pair) {
                let k = choose|k: int| 0 <= k < now.len() && now[k] == pair;
                if k < before.len() {
                    assert(before[k] == pair);
                    assert(before.contains(pair));
                } else {
                    assert(crosses(edges[upto - 1], roots, reached));
                }
            }
            if exists|i: int|
                0 <= i < upto && crosses(#[trigger] edges[i], roots, reached) && edges[i].source
                    == pair.0 && edges[i].target == pair.1 {
                let i = choose|i: int|
                    0 <= i < upto && crosses(#[trigger] edges[i], roots, reached)
                        && edges[i].source == pair.0 && edges[i].target == pair.1;
                if i < upto - 1 {
                    assert(before.contains(pair));
                    let k = choose|k: int| 0 <= k < before.len() && before[k] == pair;
                    assert(now[k] == pair);
                } else if before.contains(pair) {
                    let k = choose|k: int| 0 <= k < before.len() && before[k] == pair;
                    assert(now[k] == pair);
                } else {
                    assert(now[now.len() - 1] == pair);
                }
            }
        }
    }
}

} // verus!

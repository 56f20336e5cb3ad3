//! Directed graphs of `petgraph` and the nodes reachable in them.
//!
//! A graph is a `petgraph::graph::Graph` whose nodes and edges carry no data
//! and whose node indices are `usize`. Its contents are modelled by two names:
//! the number of its nodes and the multiset of its edges, each edge a pair of
//! node indices. Reachability is stated over walks: a node is reachable when a
//! walk along edges leads to it from a root.

use vstd::multiset::Multiset;
use vstd::prelude::*;
use vstd::set_lib::set_int_range;

use petgraph::graph::{Graph, NodeIndex};
use petgraph::Directed;

verus! {

#[verifier::external_type_specification]
#[verifier::external_body]
#[verifier::reject_recursive_types(N)]
#[verifier::reject_recursive_types(E)]
#[verifier::reject_recursive_types(Ty)]
#[verifier::reject_recursive_types(Ix)]
pub struct ExGraph<N, E, Ty, Ix>(petgraph::graph::Graph<N, E, Ty, Ix>);

#[verifier::external_type_specification]
#[verifier::external_body]
pub struct ExDirected(petgraph::Directed);

/// The number of nodes of a graph.
pub uninterp spec fn graph_node_count(graph: Graph<(), (), Directed, usize>) -> nat;

/// The edges of a graph, each a pair of source and target node indices.
pub uninterp spec fn graph_edges(graph: Graph<(), (), Directed, usize>) -> Multiset<(usize, usize)>;

/// `Graph::with_capacity(0, 0)`: a directed graph with no nodes and no edges.
#[verifier::external_body]
fn empty_graph() -> (graph: Graph<(), (), Directed, usize>)
    ensures
        graph_node_count(graph) == 0,
        graph_edges(graph) == Multiset::<(usize, usize)>::empty(),
{
    Graph::with_capacity(0, 0)
}

/// `Graph::add_node`: appends a node, whose index is the former node count;
/// the edges stay. With `usize` indices there is no node limit to reach.
#[verifier::external_body]
fn add_graph_node(graph: &mut Graph<(), (), Directed, usize>) -> (node: usize)
    ensures
        node == graph_node_count(*old(graph)),
        graph_node_count(*final(graph)) == graph_node_count(*old(graph)) + 1,
        graph_edges(*final(graph)) == graph_edges(*old(graph)),
{
    graph.add_node(()).index()
}

/// `Graph::add_edge`: adds one edge between two existing nodes (parallel edges
/// are kept); the nodes stay. It panics on a missing node, which `requires`
/// rules out.
#[verifier::external_body]
fn add_graph_edge(graph: &mut Graph<(), (), Directed, usize>, source: usize, target: usize)
    requires
        source < graph_node_count(*old(graph)),
        target < graph_node_count(*old(graph)),
    ensures
        graph_node_count(*final(graph)) == graph_node_count(*old(graph)),
        graph_edges(*final(graph)) == graph_edges(*old(graph)).insert((source, target)),
{
    graph.add_edge(NodeIndex::new(source), NodeIndex::new(target), ());
}

/// `Graph::neighbors` of a directed graph: the targets of the edges that leave
/// `node` (each once per edge, in an order the contract leaves open).
#[verifier::external_body]
fn graph_neighbors(graph: &Graph<(), (), Directed, usize>, node: usize) -> (targets: Vec<usize>)
    ensures
        forall|target: usize| targets@.contains(target) <==> graph_edges(*graph).count((node, target)) > 0,
{
    let mut targets = Vec::new();
    for neighbor in graph.neighbors(NodeIndex::new(node)) {
        targets.push(neighbor.index());
    }
    targets
}

/// A graph of dependencies between numbered items.
pub struct LinkGraph {
    inner: Graph<(), (), Directed, usize>,
}

impl LinkGraph {
    /// The number of nodes.
    pub closed spec fn node_count(&self) -> nat {
        graph_node_count(self.inner)
    }

    /// Whether an edge leads from `source` to `target`.
    pub closed spec fn has_edge(&self, source: usize, target: usize) -> bool {
        graph_edges(self.inner).count((source, target)) > 0
    }

    /// Every edge joins existing nodes.
    pub open spec fn well_formed(&self) -> bool {
        forall|source: usize, target: usize| #[trigger] self.has_edge(source, target) ==> source < self.node_count() && target < self.node_count()
    }

    /// The edge relation as a function.
    pub open spec fn links(&self) -> spec_fn(usize, usize) -> bool {
        |source: usize, target: usize| self.has_edge(source, target)
    }

    /// A graph with `node_count` nodes and no edges.
    pub fn with_nodes(node_count: usize) -> (graph: LinkGraph)
        ensures
            graph.node_count() == node_count,
            forall|source: usize, target: usize| !graph.has_edge(source, target),
            graph.well_formed(),
    {
        let mut inner = empty_graph();
        let mut i: usize = 0;
        while i < node_count
            invariant
                i <= node_count,
                graph_node_count(inner) == i,
                graph_edges(inner) == Multiset::<(usize, usize)>::empty(),
            decreases node_count - i,
        {
            add_graph_node(&mut inner);
            i = i + 1;
        }
        LinkGraph { inner }
    }

    /// Adds an edge from `source` to `target`.
    pub fn add_link(&mut self, source: usize, target: usize)
        requires
            source < old(self).node_count(),
            target < old(self).node_count(),
        ensures
            final(self).node_count() == old(self).node_count(),
            forall|a: usize, b: usize| #[trigger] final(self).has_edge(a, b) <==> (old(self).has_edge(a, b) || (a == source && b == target)),
    {
        add_graph_edge(&mut self.inner, source, target);
    }

    /// The nodes that an edge from `node` leads to.
    pub fn successors(&self, node: usize) -> (targets: Vec<usize>)
        ensures
            forall|target: usize| targets@.contains(target) <==> self.has_edge(node, target),
    {
        graph_neighbors(&self.inner, node)
    }
}

/// Whether step `i` of a walk follows an edge.
pub open spec fn step_follows(links: spec_fn(usize, usize) -> bool, walk: Seq<usize>, i: int) -> bool {
    links(walk[i], walk[i + 1])
}

/// Whether `walk` is a non-empty walk along edges.
pub open spec fn is_walk(links: spec_fn(usize, usize) -> bool, walk: Seq<usize>) -> bool {
    &&& walk.len() > 0
    &&& forall|i: int| 0 <= i < walk.len() - 1 ==> #[trigger] step_follows(links, walk, i)
}

/// Whether a walk from a root leads to `node`.
pub open spec fn reachable(links: spec_fn(usize, usize) -> bool, roots: spec_fn(usize) -> bool, node: usize) -> bool {
    exists|walk: Seq<usize>| #[trigger] is_walk(links, walk) && roots(walk[0]) && walk.last() == node
}

/// The roots as a function.
pub open spec fn root_set(roots: Seq<usize>) -> spec_fn(usize) -> bool {
    |node: usize| roots.contains(node)
}

/// A root is reachable.
pub proof fn lemma_root_reachable(links: spec_fn(usize, usize) -> bool, roots: spec_fn(usize) -> bool, node: usize)
    requires
        roots(node),
    ensures
        reachable(links, roots, node),
{
    let walk = seq![node];
    assert(is_walk(links, walk));
}

/// An edge from a reachable node leads to a reachable node.
pub proof fn lemma_reachable_step(
    links: spec_fn(usize, usize) -> bool,
    roots: spec_fn(usize) -> bool,
    node: usize,
    next: usize,
)
    requires
        reachable(links, roots, node),
        links(node, next),
    ensures
        reachable(links, roots, next),
{
    let walk = choose|walk: Seq<usize>| #[trigger] is_walk(links, walk) && roots(walk[0]) && walk.last() == node;
    let longer = walk.push(next);
    assert forall|i: int| 0 <= i < longer.len() - 1 implies #[trigger] step_follows(links, longer, i) by {
        if i < walk.len() - 1 {
            assert(step_follows(links, walk, i));
        }
    }
    assert(is_walk(links, longer));
}

/// A set of nodes that holds the roots and is closed under edges holds every
/// reachable node.
pub proof fn lemma_closed_set_holds_reachable(
    links: spec_fn(usize, usize) -> bool,
    roots: spec_fn(usize) -> bool,
    held: spec_fn(usize) -> bool,
    node: usize,
)
    requires
        forall|root: usize| #[trigger] roots(root) ==> held(root),
        forall|source: usize, target: usize| held(source) && #[trigger] links(source, target) ==> held(target),
        reachable(links, roots, node),
    ensures
        held(node),
{
    let walk = choose|walk: Seq<usize>| #[trigger] is_walk(links, walk) && roots(walk[0]) && walk.last() == node;
    lemma_walk_stays_in_closed_set(links, held, walk);
}

proof fn lemma_walk_stays_in_closed_set(links: spec_fn(usize, usize) -> bool, held: spec_fn(usize) -> bool, walk: Seq<usize>)
    requires
        is_walk(links, walk),
        held(walk[0]),
        forall|source: usize, target: usize| held(source) && #[trigger] links(source, target) ==> held(target),
    ensures
        held(walk.last()),
    decreases walk.len(),
{
    if walk.len() > 1 {
        let shorter = walk.drop_last();
        assert forall|i: int| 0 <= i < shorter.len() - 1 implies #[trigger] step_follows(links, shorter, i) by {
            assert(step_follows(links, walk, i));
        }
        lemma_walk_stays_in_closed_set(links, held, shorter);
        assert(step_follows(links, walk, walk.len() - 2));
    }
}

/// More roots reach at least the same nodes.
pub proof fn lemma_reachable_more_roots(
    links: spec_fn(usize, usize) -> bool,
    roots: spec_fn(usize) -> bool,
    more_roots: spec_fn(usize) -> bool,
    node: usize,
)
    requires
        forall|root: usize| #[trigger] roots(root) ==> more_roots(root),
        reachable(links, roots, node),
    ensures
        reachable(links, more_roots, node),
{
    let walk = choose|walk: Seq<usize>| #[trigger] is_walk(links, walk) && roots(walk[0]) && walk.last() == node;
    assert(more_roots(walk[0]));
}

/// Reachability depends on the edge relation and the roots only.
pub proof fn lemma_reachable_same_relation(
    links: spec_fn(usize, usize) -> bool,
    other_links: spec_fn(usize, usize) -> bool,
    roots: spec_fn(usize) -> bool,
    other_roots: spec_fn(usize) -> bool,
    node: usize,
)
    requires
        forall|source: usize, target: usize| #[trigger] links(source, target) == other_links(source, target),
        forall|root: usize| #[trigger] roots(root) == other_roots(root),
    ensures
        reachable(links, roots, node) == reachable(other_links, other_roots, node),
{
    assert(links =~= other_links);
    assert(roots =~= other_roots);
}

/// Marks the nodes that a walk from one of `roots` reaches (depth first).
pub fn reachable_nodes(graph: &LinkGraph, node_count: usize, roots: &Vec<usize>) -> (marked: Vec<bool>)
    requires
        graph.node_count() == node_count,
        graph.well_formed(),
        forall|i: int| 0 <= i < roots@.len() ==> roots@[i] < node_count,
    ensures
        marked@.len() == node_count,
        forall|node: usize| node < node_count ==> (#[trigger] marked@[node as int] <==> reachable(graph.links(), root_set(roots@), node)),
{
    let ghost links = graph.links();
    let ghost starts = root_set(roots@);
    let mut marked: Vec<bool> = Vec::new();
    let mut i: usize = 0;
    while i < node_count
        invariant
            i <= node_count,
            marked@.len() == i,
            forall|k: int| 0 <= k < i ==> !marked@[k],
        decreases node_count - i,
    {
        marked.push(false);
        i = i + 1;
    }
    let mut pending: Vec<usize> = roots.clone();
    proof {
        assert forall|k: int| 0 <= k < pending@.len() implies reachable(links, starts, #[trigger] pending@[k]) by {
            assert(starts(roots@[k]));
            lemma_root_reachable(links, starts, roots@[k]);
        }
    }
    let ghost mut visited: Set<int> = Set::empty();
    proof {
        vstd::set_lib::lemma_int_range(0, node_count as int);
    }
    while pending.len() > 0
        invariant
            links == graph.links(),
            starts == root_set(roots@),
            graph.well_formed(),
            graph.node_count() == node_count,
            marked@.len() == node_count,
            visited.finite(),
            visited.subset_of(set_int_range(0, node_count as int)),
            set_int_range(0, node_count as int).len() == node_count,
            set_int_range(0, node_count as int).finite(),
            forall|k: int| 0 <= k < roots@.len() ==> #[trigger] roots@[k] < node_count,
            forall|node: int| 0 <= node < node_count ==> (marked@[node] <==> #[trigger] visited.contains(node)),
            forall|k: int| 0 <= k < pending@.len() ==> #[trigger] pending@[k] < node_count,
            forall|k: int| 0 <= k < pending@.len() ==> reachable(links, starts, #[trigger] pending@[k]),
            forall|node: usize| node < node_count && #[trigger] marked@[node as int] ==> reachable(links, starts, node),
            forall|source: usize, target: usize|
                source < node_count && marked@[source as int] && #[trigger] graph.has_edge(source, target)
                    ==> marked@[target as int] || pending@.contains(target),
            forall|k: int| 0 <= k < roots@.len() ==> marked@[#[trigger] roots@[k] as int] || pending@.contains(roots@[k]),
        decreases node_count - visited.len(), pending@.len(),
    {
        let ghost popped_from = pending@;
        let current = pending.pop().unwrap();
        proof {
            vstd::set_lib::lemma_len_subset(visited, set_int_range(0, node_count as int));
            assert(popped_from == pending@.push(current));
            assert(forall|k: int| 0 <= k < pending@.len() ==> #[trigger] pending@[k] == popped_from[k]);
        }
        if marked[current] {
            proof {
                assert forall|source: usize, target: usize|
                    source < node_count && marked@[source as int] && #[trigger] graph.has_edge(source, target)
                        implies marked@[target as int] || pending@.contains(target) by {
                    if target != current && popped_from.contains(target) {
                        let k = choose|k: int| 0 <= k < popped_from.len() && popped_from[k] == target;
                        assert(pending@[k] == target);
                    }
                }
                assert forall|k: int| 0 <= k < roots@.len() implies marked@[#[trigger] roots@[k] as int]
                    || pending@.contains(roots@[k]) by {
                    if roots@[k] != current && popped_from.contains(roots@[k]) {
                        let q = choose|q: int| 0 <= q < popped_from.len() && popped_from[q] == roots@[k];
                        assert(pending@[q] == roots@[k]);
                    }
                }
            }
            continue;
        }
        let ghost before_pending = pending@;
        marked.set(current, true);
        proof {
            assert(!visited.contains(current as int));
            visited = visited.insert(current as int);
            vstd::set_lib::lemma_len_subset(visited, set_int_range(0, node_count as int));
        }
        let targets = graph.successors(current);
        proof {
            assert forall|k: int| 0 <= k < targets@.len() implies #[trigger] targets@[k] < node_count by {
                assert(targets@.contains(targets@[k]));
                assert(graph.has_edge(current, targets@[k]));
            }
        }
        let mut j: usize = 0;
        while j < targets.len()
            invariant
                links == graph.links(),
                starts == root_set(roots@),
                graph.well_formed(),
                graph.node_count() == node_count,
                current < node_count,
                reachable(links, starts, current),
                forall|target: usize| targets@.contains(target) <==> graph.has_edge(current, target),
                forall|k: int| 0 <= k < targets@.len() ==> #[trigger] targets@[k] < node_count,
                j <= targets@.len(),
                pending@.len() >= before_pending.len(),
                pending@.subrange(0, before_pending.len() as int) == before_pending,
                forall|k: int| 0 <= k < pending@.len() ==> #[trigger] pending@[k] < node_count,
                forall|k: int| 0 <= k < pending@.len() ==> reachable(links, starts, #[trigger] pending@[k]),
                forall|k: int| 0 <= k < j ==> pending@.contains(#[trigger] targets@[k]) || marked@[targets@[k] as int],
                marked@.len() == node_count,
            decreases targets@.len() - j,
        {
            let target = targets[j];
            let ghost pending_before_push = pending@;
            assert(targets@.contains(target));
            assert(graph.has_edge(current, target));
            if !marked[target] {
                proof {
                    assert(links(current, target));
                    lemma_reachable_step(links, starts, current, target);
                }
                pending.push(target);
                assert(pending@[pending@.len() - 1] == target);
                assert forall|k: int| 0 <= k < j implies pending@.contains(#[trigger] targets@[k])
                    || marked@[targets@[k] as int] by {
                    if pending_before_push.contains(targets@[k]) {
                        let q = choose|q: int| 0 <= q < pending_before_push.len() && pending_before_push[q] == targets@[k];
                        assert(pending@[q] == targets@[k]);
                    }
                }
            }
            assert(pending@.contains(targets@[j as int]) || marked@[targets@[j as int] as int]);
            j = j + 1;
        }
        proof {
            assert forall|source: usize, target: usize|
                source < node_count && marked@[source as int] && #[trigger] graph.has_edge(source, target)
                    implies marked@[target as int] || pending@.contains(target) by {
                if source == current {
                    assert(targets@.contains(target));
                    let k = choose|k: int| 0 <= k < targets@.len() && targets@[k] == target;
                    assert(pending@.contains(targets@[k]) || marked@[targets@[k] as int]);
                } else if target != current && popped_from.contains(target) {
                    let k = choose|k: int| 0 <= k < popped_from.len() && popped_from[k] == target;
                    assert(before_pending[k] == target);
                    assert(pending@[k] == target);
                }
            }
            assert forall|k: int| 0 <= k < roots@.len() implies marked@[#[trigger] roots@[k] as int]
                || pending@.contains(roots@[k]) by {
                if roots@[k] != current && popped_from.contains(roots@[k]) {
                    let q = choose|q: int| 0 <= q < popped_from.len() && popped_from[q] == roots@[k];
                    assert(before_pending[q] == roots@[k]);
                    assert(pending@[q] == roots@[k]);
                }
            }
        }
    }
    proof {
        let held = |node: usize| node < node_count && marked@[node as int];
        assert forall|node: usize| node < node_count implies (#[trigger] marked@[node as int] <==> reachable(
            links,
            starts,
            node,
        )) by {
            if reachable(links, starts, node) {
                assert forall|root: usize| #[trigger] starts(root) implies held(root) by {
                    let k = choose|k: int| 0 <= k < roots@.len() && roots@[k] == root;
                    assert(marked@[roots@[k] as int] || pending@.contains(roots@[k]));
                }
                assert forall|source: usize, target: usize| held(source) && #[trigger] links(source, target) implies held(
                    target,
                ) by {
                    assert(graph.has_edge(source, target));
                }
                lemma_closed_set_holds_reachable(links, starts, held, node);
            }
        }
    }
    marked
}

} // verus!

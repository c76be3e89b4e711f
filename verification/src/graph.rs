//! The undirected graph that holds the rooms of a building and their
//! connections.
//!
//! Every node and every edge has a number. The graph is kept by `petgraph`;
//! what it holds is stated here as three sequences: its nodes, its edges, and
//! for every node the order in which the graph walks the edges at it. On a
//! graph to which edges were only ever added, every walk has the latest edge
//! first.

use crate::room::{Edge, Node};
use petgraph::graph::{EdgeIndex, Graph, NodeIndex};
use petgraph::visit::EdgeRef;
use petgraph::Undirected;
use vstd::prelude::*;

verus! {

#[verifier::external_type_specification]
#[verifier::external_body]
#[verifier::reject_recursive_types(N)]
#[verifier::reject_recursive_types(E)]
#[verifier::reject_recursive_types(Ty)]
#[verifier::reject_recursive_types(Ix)]
pub struct ExGraph<N, E, Ty, Ix>(Graph<N, E, Ty, Ix>);

#[verifier::external_type_specification]
#[verifier::external_body]
pub struct ExUndirected(Undirected);

/// One connection of the graph: the numbers of the two nodes that it joins,
/// in the order in which they were given, and what it carries.
pub struct Link {
    pub source: int,
    pub target: int,
    pub weight: Edge,
}

/// The nodes that the graph holds, by their numbers.
pub uninterp spec fn graph_nodes(graph: Graph<Node, Edge, Undirected, u32>) -> Seq<Node>;

/// The edges that the graph holds, by their numbers.
pub uninterp spec fn graph_links(graph: Graph<Node, Edge, Undirected, u32>) -> Seq<Link>;

/// The walks of the graph. The graph keeps for every node a list of the edges
/// that leave it and a list of the edges that come to it. For every node, by
/// its number, these are the numbers of the edges that leave it, and of the
/// edges that come to it from another node, each in the order of the node's
/// own list.
pub uninterp spec fn graph_walks(graph: Graph<Node, Edge, Undirected, u32>) -> Seq<
    (Seq<int>, Seq<int>),
>;

/// The first edge of a list that leads to the node `b`.
pub open spec fn first_to(list: Seq<int>, ends: Seq<(int, int)>, b: int) -> Option<int>
    decreases list.len(),
{
    if list.len() == 0 {
        None
    } else if ends[list[0]].1 == b {
        Some(list[0])
    } else {
        first_to(list.skip(1), ends, b)
    }
}

/// The first edge of a list that comes from the node `b`.
pub open spec fn first_from(list: Seq<int>, ends: Seq<(int, int)>, b: int) -> Option<int>
    decreases list.len(),
{
    if list.len() == 0 {
        None
    } else if ends[list[0]].0 == b {
        Some(list[0])
    } else {
        first_from(list.skip(1), ends, b)
    }
}

/// The edge that a search from a node meets for the node `b`: the first of
/// the edges that leave the node and lead to `b`, or else the first of those
/// that come to it from `b`.
pub open spec fn met_link(walk: (Seq<int>, Seq<int>), ends: Seq<(int, int)>, b: int) -> Option<
    int,
> {
    match first_to(walk.0, ends, b) {
        Some(k) => Some(k),
        None => first_from(walk.1, ends, b),
    }
}

/// The walks once the edge `n` from `a` to `b` is made: it is the first of
/// the edges that leave `a` and, unless it comes back to `a`, the first of
/// those that come to `b`.
pub open spec fn with_edge(walks: Seq<(Seq<int>, Seq<int>)>, a: int, b: int, n: int) -> Seq<
    (Seq<int>, Seq<int>),
> {
    let left = walks.update(a, (seq![n] + walks[a].0, walks[a].1));
    if a == b {
        left
    } else {
        left.update(b, (left[b].0, seq![n] + left[b].1))
    }
}

/// The edges at a node in the order in which the graph walks them: those that
/// leave it, then those that come to it from another node.
pub open spec fn walk_at(walks: Seq<(Seq<int>, Seq<int>)>, a: int) -> Seq<int> {
    walks[a].0 + walks[a].1
}

/// The walks are those of a graph to which edges were only ever added: every
/// node's lists hold its edges with the latest first.
pub open spec fn latest_first(
    walks: Seq<(Seq<int>, Seq<int>)>,
    ends: Seq<(int, int)>,
    nodes: int,
) -> bool {
    &&& walks.len() == nodes
    &&& forall|a: int|
        0 <= a < nodes ==> #[trigger] walks[a] == (
            leaving(ends, a, ends.len() as int),
            coming(ends, a, ends.len() as int),
        )
}

/// The most nodes, and the most edges, that the graph can hold.
pub const GRAPH_LIMIT: usize = 0xffff_ffff;

/// `Graph::new_undirected` makes a graph without nodes and edges.
#[verifier::external_body]
pub(crate) fn graph_new() -> (graph: Graph<Node, Edge, Undirected, u32>)
    ensures
        graph_nodes(graph) == Seq::<Node>::empty(),
        graph_links(graph) == Seq::<Link>::empty(),
        graph_walks(graph) == Seq::<(Seq<int>, Seq<int>)>::empty(),
{
    Graph::new_undirected()
}

/// `Graph::node_count` is the number of nodes.
#[verifier::external_body]
pub(crate) fn graph_node_count(graph: &Graph<Node, Edge, Undirected, u32>) -> (n: usize)
    ensures
        n == graph_nodes(*graph).len(),
{
    graph.node_count()
}

/// The two ends of every link, by the numbers of the links.
pub open spec fn link_ends(links: Seq<Link>) -> Seq<(int, int)> {
    links.map_values(|l: Link| (l.source, l.target))
}

/// The number of the latest of the first `n` links that leads from `a` to
/// `b`.
pub open spec fn latest_link(ends: Seq<(int, int)>, a: int, b: int, n: int) -> Option<int>
    decreases n,
{
    if n <= 0 {
        None
    } else if ends[n - 1] == (a, b) {
        Some(n - 1)
    } else {
        latest_link(ends, a, b, n - 1)
    }
}

/// The number of the link that stands for the connection of `a` and `b`: the
/// latest that leads from `a` to `b`, or else the latest that leads from `b`
/// to `a`.
pub open spec fn found_link(ends: Seq<(int, int)>, a: int, b: int) -> Option<int> {
    match latest_link(ends, a, b, ends.len() as int) {
        Some(k) => Some(k),
        None => latest_link(ends, b, a, ends.len() as int),
    }
}

/// The numbers of those of the first `n` links that leave `a`, the latest
/// first.
pub open spec fn leaving(ends: Seq<(int, int)>, a: int, n: int) -> Seq<int>
    decreases n,
{
    if n <= 0 {
        Seq::empty()
    } else if ends[n - 1].0 == a {
        seq![n - 1] + leaving(ends, a, n - 1)
    } else {
        leaving(ends, a, n - 1)
    }
}

/// The numbers of those of the first `n` links that come to `a` from another
/// node, the latest first.
pub open spec fn coming(ends: Seq<(int, int)>, a: int, n: int) -> Seq<int>
    decreases n,
{
    if n <= 0 {
        Seq::empty()
    } else if ends[n - 1].1 == a && ends[n - 1].0 != a {
        seq![n - 1] + coming(ends, a, n - 1)
    } else {
        coming(ends, a, n - 1)
    }
}

/// The numbers of the links at the node `a`: those that leave `a`, then those
/// that come to it from another node, the latest first in each part.
pub open spec fn links_at(ends: Seq<(int, int)>, a: int) -> Seq<int> {
    leaving(ends, a, ends.len() as int) + coming(ends, a, ends.len() as int)
}

/// The node at the other end of a link of the node `a`.
pub open spec fn far_end(ends: (int, int), a: int) -> int {
    if ends.0 == a {
        ends.1
    } else {
        ends.0
    }
}

/// The numbers of the neighbours of the node `a`, one for each link at `a`
/// and in the order of those links.
pub open spec fn neighbours_at(ends: Seq<(int, int)>, a: int) -> Seq<int> {
    links_at(ends, a).map_values(|k: int| far_end(ends[k], a))
}

/// `Graph::edge_count` is the number of edges.
#[verifier::external_body]
pub(crate) fn graph_edge_count(graph: &Graph<Node, Edge, Undirected, u32>) -> (n: usize)
    ensures
        n == graph_links(*graph).len(),
{
    graph.edge_count()
}

/// `Graph::add_node` puts a node without edges behind the nodes that are there
/// and returns its number. It panics on a graph that is full.
#[verifier::external_body]
pub(crate) fn graph_add_node(graph: &mut Graph<Node, Edge, Undirected, u32>, weight: Node) -> (n:
    usize)
    requires
        graph_nodes(*old(graph)).len() < GRAPH_LIMIT,
    ensures
        graph_nodes(*final(graph)) == graph_nodes(*old(graph)).push(weight),
        graph_links(*final(graph)) == graph_links(*old(graph)),
        graph_walks(*final(graph)) == graph_walks(*old(graph)).push(
            (Seq::<int>::empty(), Seq::<int>::empty()),
        ),
        n == graph_nodes(*old(graph)).len(),
{
    graph.add_node(weight).index()
}

/// `Graph::add_edge` puts an edge from `a` to `b` behind the edges that are
/// there, in front of the lists of its two nodes, and returns its number. It
/// panics where a node is missing and on a graph that is full.
#[verifier::external_body]
pub(crate) fn graph_add_edge(
    graph: &mut Graph<Node, Edge, Undirected, u32>,
    a: usize,
    b: usize,
    weight: Edge,
) -> (n: usize)
    requires
        a < graph_nodes(*old(graph)).len() <= GRAPH_LIMIT,
        b < graph_nodes(*old(graph)).len(),
        graph_links(*old(graph)).len() < GRAPH_LIMIT,
    ensures
        graph_nodes(*final(graph)) == graph_nodes(*old(graph)),
        graph_links(*final(graph)) == graph_links(*old(graph)).push(
            Link { source: a as int, target: b as int, weight },
        ),
        graph_walks(*final(graph)) == with_edge(
            graph_walks(*old(graph)),
            a as int,
            b as int,
            graph_links(*old(graph)).len() as int,
        ),
        n == graph_links(*old(graph)).len(),
{
    graph.add_edge(NodeIndex::new(a), NodeIndex::new(b), weight).index()
}

/// `Graph::update_edge` searches the edges of `a` for one that connects it
/// with `b`: first the edges that leave `a`, then those that come to it, each
/// in the order of `a`'s list. The first such edge gets the new weight; where
/// there is none, the edge is made as `Graph::add_edge` makes it. It panics as
/// `Graph::add_edge` does.
#[verifier::external_body]
pub(crate) fn graph_update_edge(
    graph: &mut Graph<Node, Edge, Undirected, u32>,
    a: usize,
    b: usize,
    weight: Edge,
) -> (n: usize)
    requires
        a < graph_nodes(*old(graph)).len() <= GRAPH_LIMIT,
        b < graph_nodes(*old(graph)).len(),
        graph_links(*old(graph)).len() < GRAPH_LIMIT,
    ensures
        graph_nodes(*final(graph)) == graph_nodes(*old(graph)),
        match met_link(
            graph_walks(*old(graph))[a as int],
            link_ends(graph_links(*old(graph))),
            b as int,
        ) {
            Some(k) => {
                &&& n == k
                &&& graph_links(*final(graph)) == graph_links(*old(graph)).update(
                    k,
                    Link {
                        source: graph_links(*old(graph))[k].source,
                        target: graph_links(*old(graph))[k].target,
                        weight,
                    },
                )
                &&& graph_walks(*final(graph)) == graph_walks(*old(graph))
            },
            None => {
                &&& n == graph_links(*old(graph)).len()
                &&& graph_links(*final(graph)) == graph_links(*old(graph)).push(
                    Link { source: a as int, target: b as int, weight },
                )
                &&& graph_walks(*final(graph)) == with_edge(
                    graph_walks(*old(graph)),
                    a as int,
                    b as int,
                    graph_links(*old(graph)).len() as int,
                )
            },
        },
{
    graph.update_edge(NodeIndex::new(a), NodeIndex::new(b), weight).index()
}

/// `Graph::node_weight` is the node of the number `a`, if there is one.
#[verifier::external_body]
pub(crate) fn graph_node_weight(graph: &Graph<Node, Edge, Undirected, u32>, a: usize) -> (r:
    Option<&Node>)
    requires
        a <= GRAPH_LIMIT,
        graph_nodes(*graph).len() <= GRAPH_LIMIT,
    ensures
        match r {
            Some(node) => a < graph_nodes(*graph).len() && *node == graph_nodes(*graph)[a as int],
            None => a >= graph_nodes(*graph).len(),
        },
{
    graph.node_weight(NodeIndex::new(a))
}

/// `Graph::edge_weight` is what the edge of the number `e` carries, if there
/// is such an edge.
#[verifier::external_body]
pub(crate) fn graph_edge_weight(graph: &Graph<Node, Edge, Undirected, u32>, e: usize) -> (r:
    Option<&Edge>)
    requires
        e <= GRAPH_LIMIT,
        graph_links(*graph).len() <= GRAPH_LIMIT,
    ensures
        match r {
            Some(edge) => e < graph_links(*graph).len() && *edge == graph_links(
                *graph,
            )[e as int].weight,
            None => e >= graph_links(*graph).len(),
        },
{
    graph.edge_weight(EdgeIndex::new(e))
}

/// Indexing a `Graph` by a node index hands out the node of that number, which
/// is given a new value through it. It panics where there is no such node.
#[verifier::external_body]
pub(crate) fn graph_set_node(graph: &mut Graph<Node, Edge, Undirected, u32>, a: usize, node: Node)
    requires
        a < graph_nodes(*old(graph)).len() <= GRAPH_LIMIT,
    ensures
        graph_nodes(*final(graph)) == graph_nodes(*old(graph)).update(a as int, node),
        graph_links(*final(graph)) == graph_links(*old(graph)),
        graph_walks(*final(graph)) == graph_walks(*old(graph)),
{
    graph[NodeIndex::new(a)] = node;
}

/// `Graph::neighbors` walks the edges at the node `a` and gives for each the
/// node at its other end: first along the edges that leave `a`, then along
/// those that come to it from another node, each in the order of `a`'s list.
/// A node that the graph does not hold has no neighbours.
#[verifier::external_body]
pub(crate) fn graph_neighbors(graph: &Graph<Node, Edge, Undirected, u32>, a: usize) -> (r: Vec<
    usize,
>)
    requires
        a <= GRAPH_LIMIT,
        graph_nodes(*graph).len() <= GRAPH_LIMIT,
    ensures
        r@.map_values(|n: usize| n as int) == if a < graph_nodes(*graph).len() {
            walk_at(graph_walks(*graph), a as int).map_values(
                |e: int| far_end(link_ends(graph_links(*graph))[e], a as int),
            )
        } else {
            Seq::empty()
        },
{
    graph.neighbors(NodeIndex::new(a)).map(|n| n.index()).collect()
}

/// `Graph::edges` walks the edges at the node `a`: first those that leave
/// `a`, then those that come to it from another node, each in the order of
/// `a`'s list. A node that the graph does not hold has no edges.
#[verifier::external_body]
pub(crate) fn graph_edges(graph: &Graph<Node, Edge, Undirected, u32>, a: usize) -> (r: Vec<usize>)
    requires
        a <= GRAPH_LIMIT,
        graph_nodes(*graph).len() <= GRAPH_LIMIT,
    ensures
        r@.map_values(|e: usize| e as int) == if a < graph_nodes(*graph).len() {
            walk_at(graph_walks(*graph), a as int)
        } else {
            Seq::empty()
        },
{
    graph.edges(NodeIndex::new(a)).map(|e| e.id().index()).collect()
}

/// The latest link between two nodes is one of the links counted.
pub proof fn lemma_latest_link(ends: Seq<(int, int)>, a: int, b: int, n: int)
    requires
        n <= ends.len(),
    ensures
        match latest_link(ends, a, b, n) {
            Some(k) => 0 <= k < n && ends[k] == (a, b),
            None => forall|k: int| 0 <= k < n ==> #[trigger] ends[k] != (a, b),
        },
    decreases n,
{
    if n > 0 {
        lemma_latest_link(ends, a, b, n - 1);
    }
}

/// The link that stands for a connection is a link of the graph and joins the
/// two nodes.
pub proof fn lemma_found_link(ends: Seq<(int, int)>, a: int, b: int)
    ensures
        match found_link(ends, a, b) {
            Some(k) => 0 <= k < ends.len() && (ends[k] == (a, b) || ends[k] == (b, a)),
            None => forall|k: int|
                0 <= k < ends.len() ==> #[trigger] ends[k] != (a, b) && ends[k] != (b, a),
        },
{
    lemma_latest_link(ends, a, b, ends.len() as int);
    lemma_latest_link(ends, b, a, ends.len() as int);
}

/// Every link at a node is one of the links counted and has the node at one
/// end.
pub proof fn lemma_links_at(ends: Seq<(int, int)>, a: int, n: int)
    requires
        n <= ends.len(),
    ensures
        forall|i: int|
            0 <= i < leaving(ends, a, n).len() ==> 0 <= (#[trigger] leaving(ends, a, n)[i]) < n
                && ends[leaving(ends, a, n)[i]].0 == a,
        forall|i: int|
            0 <= i < coming(ends, a, n).len() ==> 0 <= (#[trigger] coming(ends, a, n)[i]) < n
                && ends[coming(ends, a, n)[i]].1 == a,
    decreases n,
{
    if n > 0 {
        lemma_links_at(ends, a, n - 1);
        let out = leaving(ends, a, n);
        let out_before = leaving(ends, a, n - 1);
        assert forall|i: int| 0 <= i < out.len() implies 0 <= (#[trigger] out[i]) < n
            && ends[out[i]].0 == a by {
            if ends[n - 1].0 == a {
                if i > 0 {
                    assert(out[i] == out_before[i - 1]);
                }
            } else {
                assert(out[i] == out_before[i]);
            }
        }
        let back = coming(ends, a, n);
        let back_before = coming(ends, a, n - 1);
        assert forall|i: int| 0 <= i < back.len() implies 0 <= (#[trigger] back[i]) < n
            && ends[back[i]].1 == a by {
            if ends[n - 1].1 == a && ends[n - 1].0 != a {
                if i > 0 {
                    assert(back[i] == back_before[i - 1]);
                }
            } else {
                assert(back[i] == back_before[i]);
            }
        }
    }
}

/// The edges of a node do not depend on the links behind those counted.
pub proof fn lemma_walk_of_prefix(ends: Seq<(int, int)>, more: Seq<(int, int)>, a: int, n: int)
    requires
        n <= ends.len() <= more.len(),
        forall|k: int| 0 <= k < ends.len() ==> ends[k] == more[k],
    ensures
        leaving(more, a, n) == leaving(ends, a, n),
        coming(more, a, n) == coming(ends, a, n),
    decreases n,
{
    if n > 0 {
        lemma_walk_of_prefix(ends, more, a, n - 1);
    }
}

/// A node that no link touches has no edges.
pub proof fn lemma_walk_of_stranger(ends: Seq<(int, int)>, a: int, n: int)
    requires
        n <= ends.len(),
        forall|k: int| 0 <= k < ends.len() ==> (#[trigger] ends[k]).0 != a && ends[k].1 != a,
    ensures
        leaving(ends, a, n) == Seq::<int>::empty(),
        coming(ends, a, n) == Seq::<int>::empty(),
    decreases n,
{
    if n > 0 {
        lemma_walk_of_stranger(ends, a, n - 1);
    }
}

/// With the latest edge first, a search from `a` meets the latest link that
/// leads from `a` to `b`, or else the latest that leads from `b` to `a`.
pub proof fn lemma_search_meets_latest(ends: Seq<(int, int)>, a: int, b: int, n: int)
    requires
        n <= ends.len(),
    ensures
        first_to(leaving(ends, a, n), ends, b) == latest_link(ends, a, b, n),
        first_from(coming(ends, a, n), ends, b) == if a == b {
            None
        } else {
            latest_link(ends, b, a, n)
        },
    decreases n,
{
    if n > 0 {
        lemma_search_meets_latest(ends, a, b, n - 1);
        let out = leaving(ends, a, n - 1);
        if ends[n - 1].0 == a {
            assert((seq![n - 1] + out).skip(1) =~= out);
        }
        let back = coming(ends, a, n - 1);
        if ends[n - 1].1 == a && ends[n - 1].0 != a {
            assert((seq![n - 1] + back).skip(1) =~= back);
        }
    }
}

/// With the latest edge first, the edge that a search meets is the link that
/// stands for the connection.
pub proof fn lemma_met_is_found(
    walks: Seq<(Seq<int>, Seq<int>)>,
    ends: Seq<(int, int)>,
    nodes: int,
    a: int,
    b: int,
)
    requires
        latest_first(walks, ends, nodes),
        0 <= a < nodes,
    ensures
        met_link(walks[a], ends, b) == found_link(ends, a, b),
{
    lemma_search_meets_latest(ends, a, b, ends.len() as int);
}

/// A new edge keeps the latest edge first.
pub proof fn lemma_edge_keeps_order(
    walks: Seq<(Seq<int>, Seq<int>)>,
    ends: Seq<(int, int)>,
    nodes: int,
    a: int,
    b: int,
)
    requires
        latest_first(walks, ends, nodes),
        0 <= a < nodes,
        0 <= b < nodes,
    ensures
        latest_first(with_edge(walks, a, b, ends.len() as int), ends.push((a, b)), nodes),
{
    let n = ends.len() as int;
    let more = ends.push((a, b));
    let after = with_edge(walks, a, b, n);
    assert forall|x: int| 0 <= x < nodes implies #[trigger] after[x] == (
        leaving(more, x, more.len() as int),
        coming(more, x, more.len() as int),
    ) by {
        lemma_walk_of_prefix(ends, more, x, n);
        assert(walks[x] == (leaving(ends, x, n), coming(ends, x, n)));
    }
}

/// A new node keeps the latest edge first.
pub proof fn lemma_node_keeps_order(
    walks: Seq<(Seq<int>, Seq<int>)>,
    ends: Seq<(int, int)>,
    nodes: int,
)
    requires
        latest_first(walks, ends, nodes),
        forall|k: int|
            0 <= k < ends.len() ==> 0 <= (#[trigger] ends[k]).0 < nodes && 0 <= ends[k].1 < nodes,
    ensures
        latest_first(walks.push((Seq::<int>::empty(), Seq::<int>::empty())), ends, nodes + 1),
{
    let after = walks.push((Seq::<int>::empty(), Seq::<int>::empty()));
    lemma_walk_of_stranger(ends, nodes, ends.len() as int);
    assert forall|x: int| 0 <= x < nodes + 1 implies #[trigger] after[x] == (
        leaving(ends, x, ends.len() as int),
        coming(ends, x, ends.len() as int),
    ) by {
        if x < nodes {
            assert(after[x] == walks[x]);
        }
    }
}

} // verus!

//! The workflow graph is a `petgraph` `StableGraph` whose node weights are agent
//! names and whose edge weights are flows. This module declares the outside
//! types and gives each `StableGraph` method the workflow calls a small trusted
//! wrapper. Node and edge indices cross the boundary as `usize` (their
//! `index()`); with the default `u32` index type every live index is below
//! `u32::MAX`.
use vstd::prelude::*;
use petgraph::stable_graph::StableGraph;
use petgraph::graph::{EdgeIndex, NodeIndex};
use petgraph::Direction;
use crate::graph_model::{EdgeView, is_step, no_edges, no_nodes, reaches, with_edge};
use crate::graph_workflow::Flow;

verus! {

#[verifier::external_type_specification]
#[verifier::external_body]
#[verifier::reject_recursive_types(N)]
#[verifier::reject_recursive_types(E)]
#[verifier::reject_recursive_types(Ty)]
#[verifier::reject_recursive_types(Ix)]
pub struct ExStableGraph<N, E, Ty, Ix>(StableGraph<N, E, Ty, Ix>);

#[verifier::external_type_specification]
#[verifier::external_body]
pub struct ExDirected(petgraph::Directed);

/// The graph type of a workflow: agent names on nodes, flows on edges.
pub type WorkflowGraph = StableGraph<String, Flow>;

/// The live nodes of the graph: node index to agent name.
pub uninterp spec fn graph_nodes(g: StableGraph<String, Flow>) -> Map<nat, Seq<char>>;

/// The live edges of the graph: edge index to endpoints and flow.
pub uninterp spec fn graph_edges(g: StableGraph<String, Flow>) -> Map<nat, EdgeView>;

/// The order in which `StableGraph::edges_directed(a, Outgoing)` yields the
/// outgoing edges of node `a` (a linked list kept inside the graph).
pub uninterp spec fn out_edge_order(g: StableGraph<String, Flow>, a: nat) -> Seq<nat>;

/// The components that `petgraph::algo::kosaraju_scc` returns for the graph.
pub uninterp spec fn scc_components(g: StableGraph<String, Flow>) -> Seq<Seq<nat>>;

/// `StableGraph::new`: the new graph has no nodes and no edges.
#[verifier::external_body]
pub(crate) fn graph_new() -> (r: WorkflowGraph)
    ensures
        graph_nodes(r) == no_nodes(),
        graph_edges(r) == no_edges(),
{
    StableGraph::new()
}

/// `StableGraph::add_node`: returns an index that was not live, and adds the node
/// under it; edges are untouched. The method panics only when every index slot
/// is taken and there are `u32::MAX` nodes, which the `requires` leaves out.
#[verifier::external_body]
pub(crate) fn graph_add_node(g: &mut WorkflowGraph, name: String) -> (r: usize)
    requires
        graph_nodes(*old(g)).len() < u32::MAX,
        graph_nodes(*old(g)).dom().finite(),
    ensures
        r < u32::MAX,
        !graph_nodes(*old(g)).contains_key(r as nat),
        graph_nodes(*final(g)) == graph_nodes(*old(g)).insert(r as nat, name@),
        graph_edges(*final(g)) == graph_edges(*old(g)),
{
    g.add_node(name).index()
}

/// `StableGraph::add_edge`: returns an index that was not live and adds the edge
/// under it; nodes are untouched. It panics when an endpoint is not a live node
/// or there are already `u32::MAX` edges; the `requires` leaves both out.
#[verifier::external_body]
pub(crate) fn graph_add_edge(g: &mut WorkflowGraph, a: usize, b: usize, flow: Flow) -> (r: usize)
    requires
        graph_nodes(*old(g)).contains_key(a as nat),
        graph_nodes(*old(g)).contains_key(b as nat),
        a < u32::MAX,
        b < u32::MAX,
        graph_edges(*old(g)).len() < u32::MAX,
        graph_edges(*old(g)).dom().finite(),
    ensures
        r < u32::MAX,
        !graph_edges(*old(g)).contains_key(r as nat),
        graph_edges(*final(g)) == with_edge(graph_edges(*old(g)), r as nat, a as nat, b as nat, flow@),
        graph_nodes(*final(g)) == graph_nodes(*old(g)),
{
    g.add_edge(NodeIndex::new(a), NodeIndex::new(b), flow).index()
}

/// `StableGraph::remove_edge`: removes the edge if it is live and returns its
/// flow; nodes are untouched.
#[verifier::external_body]
pub(crate) fn graph_remove_edge(g: &mut WorkflowGraph, e: usize) -> (r: Option<Flow>)
    requires
        e < u32::MAX,
    ensures
        r is Some <==> graph_edges(*old(g)).contains_key(e as nat),
        r matches Some(f) ==> f@ == graph_edges(*old(g))[e as nat].flow,
        graph_edges(*final(g)) == graph_edges(*old(g)).remove(e as nat),
        graph_nodes(*final(g)) == graph_nodes(*old(g)),
{
    g.remove_edge(EdgeIndex::new(e))
}

/// `StableGraph::remove_node`: removes the node if it is live, together with
/// every edge that starts or ends there, and returns its weight.
#[verifier::external_body]
pub(crate) fn graph_remove_node(g: &mut WorkflowGraph, a: usize) -> (r: Option<String>)
    requires
        a < u32::MAX,
    ensures
        r is Some <==> graph_nodes(*old(g)).contains_key(a as nat),
        r matches Some(n) ==> n@ == graph_nodes(*old(g))[a as nat],
        graph_nodes(*final(g)) == graph_nodes(*old(g)).remove(a as nat),
        graph_edges(*final(g)) == graph_edges(*old(g)).restrict(
            Set::new(
                |e: nat|
                    graph_edges(*old(g)).contains_key(e) && graph_edges(*old(g))[e].source != a
                        && graph_edges(*old(g))[e].target != a,
            ),
        ),
{
    g.remove_node(NodeIndex::new(a))
}

/// `StableGraph::find_edge`: some edge from `a` to `b`, if there is one.
#[verifier::external_body]
pub(crate) fn graph_find_edge(g: &WorkflowGraph, a: usize, b: usize) -> (r: Option<usize>)
    requires
        a < u32::MAX,
        b < u32::MAX,
    ensures
        r is Some <==> is_step(graph_edges(*g), a as nat, b as nat),
        r matches Some(e) ==> graph_edges(*g).contains_key(e as nat) && graph_edges(*g)[e as nat].source
            == a && graph_edges(*g)[e as nat].target == b,
{
    g.find_edge(NodeIndex::new(a), NodeIndex::new(b)).map(|e| e.index())
}

/// `StableGraph::node_indices`: the live node indices, in increasing order.
#[verifier::external_body]
pub(crate) fn graph_node_indices(g: &WorkflowGraph) -> (r: Vec<usize>)
    ensures
        forall|i: int, j: int| 0 <= i < j < r.len() ==> r[i] < r[j],
        forall|i: int| 0 <= i < r.len() ==> graph_nodes(*g).contains_key(#[trigger] r[i] as nat),
        forall|n: nat| graph_nodes(*g).contains_key(n) ==> exists|i: int| 0 <= i < r.len() && r[i] == n,
{
    g.node_indices().map(|n| n.index()).collect()
}

/// `StableGraph::edge_indices` with `edge_endpoints`: every live edge as
/// (index, source, target), in increasing index order.
#[verifier::external_body]
pub(crate) fn graph_edge_list(g: &WorkflowGraph) -> (r: Vec<(usize, usize, usize)>)
    ensures
        forall|i: int, j: int| 0 <= i < j < r.len() ==> r[i].0 < r[j].0,
        forall|i: int|
            0 <= i < r.len() ==> {
                &&& graph_edges(*g).contains_key(#[trigger] r[i].0 as nat)
                &&& graph_edges(*g)[r[i].0 as nat].source == r[i].1
                &&& graph_edges(*g)[r[i].0 as nat].target == r[i].2
            },
        forall|e: nat| graph_edges(*g).contains_key(e) ==> exists|i: int| 0 <= i < r.len() && r[i].0 == e,
{
    g.edge_indices().map(|e| {
        let (s, t) = g.edge_endpoints(e).unwrap();
        (e.index(), s.index(), t.index())
    }).collect()
}

/// `StableGraph::node_weight`, cloned.
#[verifier::external_body]
pub(crate) fn graph_node_weight(g: &WorkflowGraph, a: usize) -> (r: Option<String>)
    requires
        a < u32::MAX,
    ensures
        r is Some <==> graph_nodes(*g).contains_key(a as nat),
        r matches Some(n) ==> n@ == graph_nodes(*g)[a as nat],
{
    g.node_weight(NodeIndex::new(a)).cloned()
}

/// `StableGraph::edge_endpoints`: source and target of a live edge.
#[verifier::external_body]
pub(crate) fn graph_edge_endpoints(g: &WorkflowGraph, e: usize) -> (r: Option<(usize, usize)>)
    requires
        e < u32::MAX,
    ensures
        r is Some <==> graph_edges(*g).contains_key(e as nat),
        r matches Some(p) ==> p.0 == graph_edges(*g)[e as nat].source && p.1 == graph_edges(*g)[
            e as nat
        ].target,
{
    g.edge_endpoints(EdgeIndex::new(e)).map(|(s, t)| (s.index(), t.index()))
}

/// `StableGraph::edge_weight`: the flow of a live edge.
#[verifier::external_body]
pub(crate) fn graph_edge_weight(g: &WorkflowGraph, e: usize) -> (r: Option<&Flow>)
    requires
        e < u32::MAX,
    ensures
        r is Some <==> graph_edges(*g).contains_key(e as nat),
        r matches Some(f) ==> f@ == graph_edges(*g)[e as nat].flow,
{
    g.edge_weight(EdgeIndex::new(e))
}

/// `StableGraph::edges_directed(a, Outgoing)`: the indices of the edges leaving
/// `a`, each once, in the graph's own order.
#[verifier::external_body]
pub(crate) fn graph_out_edges(g: &WorkflowGraph, a: usize) -> (r: Vec<usize>)
    requires
        a < u32::MAX,
    ensures
        r@.map_values(|e: usize| e as nat) == out_edge_order(*g, a as nat),
        r@.no_duplicates(),
        forall|i: int|
            0 <= i < r.len() ==> graph_edges(*g).contains_key(#[trigger] r[i] as nat)
                && graph_edges(*g)[r[i] as nat].source == a,
        forall|e: nat|
            graph_edges(*g).contains_key(e) && graph_edges(*g)[e].source == a ==> exists|i: int|
                0 <= i < r.len() && r[i] == e,
{
    g.edges_directed(NodeIndex::new(a), Direction::Outgoing).map(|e| petgraph::visit::EdgeRef::id(&e).index()).collect()
}

/// `StableGraph::edges_directed(a, Incoming)`: the indices of the edges entering
/// `a`, each once.
#[verifier::external_body]
pub(crate) fn graph_in_edges(g: &WorkflowGraph, a: usize) -> (r: Vec<usize>)
    requires
        a < u32::MAX,
    ensures
        r@.no_duplicates(),
        forall|i: int|
            0 <= i < r.len() ==> graph_edges(*g).contains_key(#[trigger] r[i] as nat)
                && graph_edges(*g)[r[i] as nat].target == a,
        forall|e: nat|
            graph_edges(*g).contains_key(e) && graph_edges(*g)[e].target == a ==> exists|i: int|
                0 <= i < r.len() && r[i] == e,
{
    g.edges_directed(NodeIndex::new(a), Direction::Incoming).map(|e| petgraph::visit::EdgeRef::id(&e).index()).collect()
}

/// `petgraph::algo::kosaraju_scc` on the graph. As its documentation says, each
/// returned component is a strongly connected component: components hold live
/// nodes without repetition, and any two members of a component reach each
/// other along edges. That every live node lies in some component is true but
/// not stated here.
#[verifier::external_body]
pub(crate) fn graph_scc(g: &WorkflowGraph) -> (r: Vec<Vec<usize>>)
    ensures
        r@.map_values(|c: Vec<usize>| c@.map_values(|n: usize| n as nat)) == scc_components(*g),
        forall|i: int| 0 <= i < r.len() ==> (#[trigger] r[i])@.no_duplicates(),
        forall|i: int, j: int|
            0 <= i < r.len() && 0 <= j < r[i].len() ==> graph_nodes(*g).contains_key(
                #[trigger] r[i][j] as nat,
            ),
        forall|i: int, j: int, k: int|
            0 <= i < r.len() && 0 <= j < r[i].len() && 0 <= k < r[i].len() ==> reaches(
                graph_edges(*g),
                #[trigger] r[i][j] as nat,
                #[trigger] r[i][k] as nat,
            ),
{
    petgraph::algo::kosaraju_scc(g).into_iter().map(|c| c.into_iter().map(|n| n.index()).collect()).collect()
}

} // verus!

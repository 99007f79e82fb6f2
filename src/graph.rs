//! The task graph: petgraph's `StableGraph` of tasks, seen through the node and edge contents
//! that its methods document.

use petgraph::stable_graph::{NodeIndex, StableGraph};
use petgraph::{Directed, Direction};
use vstd::multiset::Multiset;
use vstd::prelude::*;

use crate::task::{Task, TaskDependency, TaskView};

verus! {

#[verifier::external_type_specification]
#[verifier::external_body]
#[verifier::reject_recursive_types(N)]
#[verifier::reject_recursive_types(E)]
#[verifier::reject_recursive_types(Ty)]
#[verifier::reject_recursive_types(Ix)]
pub struct ExStableGraph<N, E, Ty, Ix>(StableGraph<N, E, Ty, Ix>);

#[verifier::external_type_specification]
#[verifier::external_body]
pub struct ExDirected(Directed);

/// A directed graph of tasks whose node indices stay valid when other nodes are removed.
pub type TaskGraph = StableGraph<Task, TaskDependency, Directed, u32>;

/// The live nodes of a graph: node index to task.
pub uninterp spec fn graph_nodes(g: TaskGraph) -> Map<nat, TaskView>;

/// The edges of a graph, as (source index, target index) pairs; parallel edges are counted.
pub uninterp spec fn graph_edges(g: TaskGraph) -> Multiset<(nat, nat)>;

/// The number of node slots of a graph, live or vacated: node indices are handed out below
/// it, and a vacated slot is reused before the slots grow.
pub uninterp spec fn graph_slot_count(g: TaskGraph) -> nat;

/// The edges of `edges` that neither start nor end at node `i`.
pub open spec fn edges_avoiding(edges: Multiset<(nat, nat)>, i: nat) -> Multiset<(nat, nat)> {
    edges.filter(|e: (nat, nat)| e.0 != i && e.1 != i)
}

/// Relies on `StableGraph::new`: a graph without nodes or edges.
#[verifier::external_body]
pub(crate) fn graph_new() -> (r: TaskGraph)
    ensures
        graph_nodes(r).dom().is_empty(),
        graph_edges(r).len() == 0,
        graph_slot_count(r) == 0,
{
    StableGraph::new()
}

/// Relies on `StableGraph::clone`: the copy has the same node indices, its tasks are clones
/// of the source tasks and its edges are the same.
#[verifier::external_body]
pub(crate) fn graph_clone(g: &TaskGraph) -> (r: TaskGraph)
    ensures
        graph_nodes(r) == graph_nodes(*g),
        graph_edges(r) == graph_edges(*g),
        graph_slot_count(r) == graph_slot_count(*g),
{
    g.clone()
}

/// Relies on `StableGraph::add_node`: the task is stored at an index that held no live node,
/// below the index type's end marker. A vacated slot is reused if there is one; otherwise a
/// slot is appended, so that the new index is the old slot count. It panics only when every
/// index below the end marker is live.
#[verifier::external_body]
pub(crate) fn graph_add_node(g: &mut TaskGraph, task: Task) -> (r: usize)
    requires
        graph_nodes(*old(g)).len() < u32::MAX,
    ensures
        r < u32::MAX,
        !graph_nodes(*old(g)).contains_key(r as nat),
        graph_nodes(*final(g)) == graph_nodes(*old(g)).insert(r as nat, task@),
        graph_edges(*final(g)) == graph_edges(*old(g)),
        r as nat <= graph_slot_count(*old(g)),
        graph_slot_count(*final(g)) == if r as nat == graph_slot_count(*old(g)) {
            graph_slot_count(*old(g)) + 1
        } else {
            graph_slot_count(*old(g))
        },
        graph_nodes(*old(g)).len() == graph_slot_count(*old(g)) ==> r as nat == graph_slot_count(
            *old(g),
        ),
{
    g.add_node(task).index()
}

/// Relies on `StableGraph::remove_node`: a live node is removed together with every edge
/// from or to it, and its task is handed back; other indices are untouched.
#[verifier::external_body]
pub(crate) fn graph_remove_node(g: &mut TaskGraph, i: usize) -> (r: Option<Task>)
    requires
        i < u32::MAX,
    ensures
        graph_nodes(*old(g)).contains_key(i as nat) ==> {
            &&& r matches Some(t) && t@ == graph_nodes(*old(g))[i as nat]
            &&& graph_nodes(*final(g)) == graph_nodes(*old(g)).remove(i as nat)
            &&& graph_edges(*final(g)) == edges_avoiding(graph_edges(*old(g)), i as nat)
            &&& graph_slot_count(*final(g)) == graph_slot_count(*old(g))
        },
        !graph_nodes(*old(g)).contains_key(i as nat) ==> {
            &&& r is None
            &&& *final(g) == *old(g)
        },
{
    g.remove_node(NodeIndex::new(i))
}

/// Relies on `StableGraph::add_edge`: one more edge from `a` to `b`, parallel edges allowed.
/// It panics when an endpoint is not a live node, or when every edge index below the end
/// marker is in use.
#[verifier::external_body]
pub(crate) fn graph_add_edge(g: &mut TaskGraph, a: usize, b: usize)
    requires
        graph_nodes(*old(g)).contains_key(a as nat),
        graph_nodes(*old(g)).contains_key(b as nat),
        graph_edges(*old(g)).len() < u32::MAX,
    ensures
        graph_nodes(*final(g)) == graph_nodes(*old(g)),
        graph_edges(*final(g)) == graph_edges(*old(g)).insert((a as nat, b as nat)),
        graph_slot_count(*final(g)) == graph_slot_count(*old(g)),
{
    g.add_edge(NodeIndex::new(a), NodeIndex::new(b), TaskDependency {});
}

/// Relies on `StableGraph::edge_count`: the number of edges.
#[verifier::external_body]
pub(crate) fn graph_edge_count(g: &TaskGraph) -> (r: usize)
    ensures
        r == graph_edges(*g).len(),
{
    g.edge_count()
}

/// Relies on `StableGraph::node_indices`: every live node index once, in increasing order.
#[verifier::external_body]
pub(crate) fn graph_node_indices(g: &TaskGraph) -> (r: Vec<usize>)
    ensures
        forall|k: int, l: int| 0 <= k < l < r@.len() ==> r@[k] < r@[l],
        forall|k: int| 0 <= k < r@.len() ==> graph_nodes(*g).contains_key(#[trigger] r@[k] as nat),
        forall|i: nat| graph_nodes(*g).contains_key(i) ==> exists|k: int|
            0 <= k < r@.len() && #[trigger] r@[k] as nat == i,
{
    g.node_indices().map(|n| n.index()).collect()
}

/// Relies on `StableGraph::neighbors_directed`: the targets of the edges out of `i`
/// (`outgoing`), or the sources of the edges into `i`, one entry per edge.
#[verifier::external_body]
pub(crate) fn graph_neighbors(g: &TaskGraph, i: usize, outgoing: bool) -> (r: Vec<usize>)
    requires
        i < u32::MAX,
    ensures
        forall|j: usize|
            #[trigger] r@.to_multiset().count(j) == if outgoing {
                graph_edges(*g).count((i as nat, j as nat))
            } else {
                graph_edges(*g).count((j as nat, i as nat))
            },
{
    let dir = if outgoing {
        Direction::Outgoing
    } else {
        Direction::Incoming
    };
    g.neighbors_directed(NodeIndex::new(i), dir).map(|n| n.index()).collect()
}

/// Relies on `Index<NodeIndex>` for `StableGraph`: the task at a live index. It panics on an
/// index that is not live.
#[verifier::external_body]
pub(crate) fn graph_node(g: &TaskGraph, i: usize) -> (r: &Task)
    requires
        graph_nodes(*g).contains_key(i as nat),
    ensures
        r@ == graph_nodes(*g)[i as nat],
{
    &g[NodeIndex::new(i)]
}

/// Relies on `IndexMut<NodeIndex>` for `StableGraph`: the task at a live index is replaced.
/// It panics on an index that is not live.
#[verifier::external_body]
pub(crate) fn graph_set_node(g: &mut TaskGraph, i: usize, task: Task)
    requires
        graph_nodes(*old(g)).contains_key(i as nat),
    ensures
        graph_nodes(*final(g)) == graph_nodes(*old(g)).insert(i as nat, task@),
        graph_edges(*final(g)) == graph_edges(*old(g)),
        graph_slot_count(*final(g)) == graph_slot_count(*old(g)),
{
    g[NodeIndex::new(i)] = task;
}

} // verus!

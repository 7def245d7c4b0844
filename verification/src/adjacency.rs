//! The adjacency structure of the dependency graph, kept in a `petgraph`
//! graph without weights.
//!
//! `petgraph` is not verified. Everything the rest of the library knows about
//! it is stated here, over two quantities: how many nodes a graph has, and the
//! list of its edges in the order of their edge indices.

use petgraph::graph::{EdgeIndex, Graph, NodeIndex};
use petgraph::{Directed, Direction};
use vstd::prelude::*;

verus! {

#[verifier::external_type_specification]
#[verifier::external_body]
#[verifier::reject_recursive_types(N)]
#[verifier::reject_recursive_types(E)]
#[verifier::reject_recursive_types(Ty)]
#[verifier::reject_recursive_types(Ix)]
pub struct ExGraph<N, E, Ty, Ix>(Graph<N, E, Ty, Ix>);

#[verifier::external_type_specification]
#[verifier::external_body]
pub struct ExDirected(Directed);

/// The number of nodes of a graph; they are numbered from zero.
pub uninterp spec fn node_total(g: Graph<(), (), Directed, u32>) -> nat;

/// The edges of a graph as pairs (source, target), by edge index.
pub uninterp spec fn edge_list(g: Graph<(), (), Directed, u32>) -> Seq<(u32, u32)>;

/// An edge that does not touch the node `gone`.
pub open spec fn survives(e: (u32, u32), gone: u32) -> bool {
    e.0 != gone && e.1 != gone
}

/// The edge `e` once the node `moved` has taken the number `to`.
pub open spec fn renumbered(e: (u32, u32), moved: u32, to: u32) -> (u32, u32) {
    (
        if e.0 == moved {
            to
        } else {
            e.0
        },
        if e.1 == moved {
            to
        } else {
            e.1
        },
    )
}

/// The test for edges that do not touch `gone`.
pub open spec fn surviving(gone: u32) -> spec_fn((u32, u32)) -> bool {
    |e: (u32, u32)| survives(e, gone)
}

/// The renumbering in which the node `moved` takes the number `to`.
pub open spec fn renumbering(moved: u32, to: u32) -> spec_fn((u32, u32)) -> (u32, u32) {
    |e: (u32, u32)| renumbered(e, moved, to)
}

/// The test for edges that end in `to`.
pub open spec fn ending_in(to: u32) -> spec_fn((u32, u32)) -> bool {
    |e: (u32, u32)| e.1 == to
}

/// The test for edges that start in `from`.
pub open spec fn starting_in(from: u32) -> spec_fn((u32, u32)) -> bool {
    |e: (u32, u32)| e.0 == from
}

/// The source of an edge.
pub open spec fn source_of() -> spec_fn((u32, u32)) -> u32 {
    |e: (u32, u32)| e.0
}

/// The target of an edge.
pub open spec fn target_of() -> spec_fn((u32, u32)) -> u32 {
    |e: (u32, u32)| e.1
}

/// The edges left when the node `gone` leaves and the node `last` takes its number.
pub open spec fn edges_without_node(edges: Seq<(u32, u32)>, gone: u32, last: u32) -> Seq<
    (u32, u32),
> {
    edges.filter(surviving(gone)).map_values(renumbering(last, gone))
}

/// The sources of the edges that end in `to`, one for each edge.
pub open spec fn sources_into(edges: Seq<(u32, u32)>, to: u32) -> Seq<u32> {
    edges.filter(ending_in(to)).map_values(source_of())
}

/// The targets of the edges that start in `from`, one for each edge.
pub open spec fn targets_from(edges: Seq<(u32, u32)>, from: u32) -> Seq<u32> {
    edges.filter(starting_in(from)).map_values(target_of())
}

/// The list `edges` after a swap-remove at `at`.
pub open spec fn swap_removed(edges: Seq<(u32, u32)>, at: int) -> Seq<(u32, u32)> {
    edges.update(at, edges.last()).drop_last()
}

/// `Graph::new`: a directed graph without nodes or edges.
#[verifier::external_body]
pub(crate) fn empty_graph() -> (g: Graph<(), (), Directed, u32>)
    ensures
        node_total(g) == 0,
        edge_list(g) == Seq::<(u32, u32)>::empty(),
{
    Graph::new()
}

/// `Graph::edge_count`.
#[verifier::external_body]
pub(crate) fn edge_count(g: &Graph<(), (), Directed, u32>) -> (n: usize)
    ensures
        n == edge_list(*g).len(),
{
    g.edge_count()
}

/// `Graph::add_node`: the new node gets the next free number and no edge
/// changes. The call panics when the index type is exhausted, which the
/// precondition rules out.
#[verifier::external_body]
pub(crate) fn add_node(g: &mut Graph<(), (), Directed, u32>) -> (id: u32)
    requires
        node_total(*old(g)) < u32::MAX,
    ensures
        id == node_total(*old(g)),
        node_total(*final(g)) == node_total(*old(g)) + 1,
        edge_list(*final(g)) == edge_list(*old(g)),
{
    g.add_node(()).index() as u32
}

/// `Graph::add_edge`: the edge is appended to the edge list, also when an
/// equal edge is there already. The call panics on an unknown node and when
/// the index type is exhausted, which the preconditions rule out.
#[verifier::external_body]
pub(crate) fn add_edge(g: &mut Graph<(), (), Directed, u32>, from: u32, to: u32)
    requires
        from < node_total(*old(g)),
        to < node_total(*old(g)),
        edge_list(*old(g)).len() < u32::MAX,
    ensures
        node_total(*final(g)) == node_total(*old(g)),
        edge_list(*final(g)) == edge_list(*old(g)).push((from, to)),
{
    g.add_edge(NodeIndex::new(from as usize), NodeIndex::new(to as usize), ());
}

/// `Graph::contains_edge`: whether some edge leads from `from` to `to`.
#[verifier::external_body]
pub(crate) fn contains_edge(g: &Graph<(), (), Directed, u32>, from: u32, to: u32) -> (found: bool)
    ensures
        found == edge_list(*g).contains((from, to)),
{
    g.contains_edge(NodeIndex::new(from as usize), NodeIndex::new(to as usize))
}

/// `Graph::find_edge`: the index of some edge from `from` to `to`, and `None`
/// only where there is none.
#[verifier::external_body]
pub(crate) fn find_edge(g: &Graph<(), (), Directed, u32>, from: u32, to: u32) -> (found: Option<
    usize,
>)
    ensures
        match found {
            Some(at) => at < edge_list(*g).len() && edge_list(*g)[at as int] == (from, to),
            None => !edge_list(*g).contains((from, to)),
        },
{
    g.find_edge(NodeIndex::new(from as usize), NodeIndex::new(to as usize)).map(|e| e.index())
}

/// `Graph::edge_endpoints`: source and target of the edge with index `at`.
#[verifier::external_body]
pub(crate) fn edge_endpoints(g: &Graph<(), (), Directed, u32>, at: usize) -> (ends: Option<
    (u32, u32),
>)
    requires
        at < edge_list(*g).len(),
    ensures
        ends == Some(edge_list(*g)[at as int]),
{
    g.edge_endpoints(EdgeIndex::new(at)).map(|(a, b)| (a.index() as u32, b.index() as u32))
}

/// `Graph::remove_edge`: the last edge takes the index of the removed one.
#[verifier::external_body]
pub(crate) fn remove_edge(g: &mut Graph<(), (), Directed, u32>, at: usize)
    requires
        at < edge_list(*old(g)).len(),
    ensures
        node_total(*final(g)) == node_total(*old(g)),
        edge_list(*final(g)) == swap_removed(edge_list(*old(g)), at as int),
{
    g.remove_edge(EdgeIndex::new(at));
}

/// `Graph::remove_node`: every edge at the node goes, and the node with the
/// highest number takes the number of the removed one. The order in which the
/// remaining edges are then indexed is left open.
#[verifier::external_body]
pub(crate) fn remove_node(g: &mut Graph<(), (), Directed, u32>, id: u32)
    requires
        id < node_total(*old(g)),
    ensures
        node_total(*final(g)) == node_total(*old(g)) - 1,
        edge_list(*final(g)).to_multiset() == edges_without_node(
            edge_list(*old(g)),
            id,
            (node_total(*old(g)) - 1) as u32,
        ).to_multiset(),
{
    g.remove_node(NodeIndex::new(id as usize));
}

/// `Graph::neighbors_directed` with `Direction::Incoming`: the source of
/// every edge that ends in `to`, in an order that is left open.
#[verifier::external_body]
pub(crate) fn sources(g: &Graph<(), (), Directed, u32>, to: u32) -> (out: Vec<u32>)
    requires
        to < node_total(*g),
    ensures
        out@.to_multiset() == sources_into(edge_list(*g), to).to_multiset(),
{
    g.neighbors_directed(NodeIndex::new(to as usize), Direction::Incoming).map(
        |n| n.index() as u32,
    ).collect()
}

/// `Graph::neighbors_directed` with `Direction::Outgoing`: the target of
/// every edge that starts in `from`, in an order that is left open.
#[verifier::external_body]
pub(crate) fn targets(g: &Graph<(), (), Directed, u32>, from: u32) -> (out: Vec<u32>)
    requires
        from < node_total(*g),
    ensures
        out@.to_multiset() == targets_from(edge_list(*g), from).to_multiset(),
{
    g.neighbors_directed(NodeIndex::new(from as usize), Direction::Outgoing).map(
        |n| n.index() as u32,
    ).collect()
}

} // verus!

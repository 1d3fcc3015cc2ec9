//! Undirected graphs whose vertices carry payloads, stored by either of two
//! interchangeable engines behind one contract.
use vstd::prelude::*;

pub mod laws;
pub mod model;
pub mod packing;
pub mod undirected_graph;
pub mod undirected_sparse_graph;

use crate::model::GraphModel;

pub use crate::undirected_graph::UndirectedGraph;
pub use crate::undirected_sparse_graph::UndirectedSparseGraph;

verus! {

/// A graph engine: vertices with payloads of type `T`, joined by undirected
/// edges, with self-loops allowed.
///
/// Every operation is described by its effect on the abstract [`GraphModel`]
/// that `model` gives, so that any two engines that start from the same model
/// and receive the same calls answer every query alike. Handles that are not
/// live are accepted everywhere: mutations ignore them and queries report
/// absence.
pub trait Graph<T: Clone>: Clone {
    /// The abstract graph that this engine stores.
    spec fn model(&self) -> GraphModel<T>;

    /// The engine's internal invariant.
    spec fn wf(&self) -> bool;

    /// A well-formed engine stores a well-formed abstract graph.
    proof fn lemma_wf_model(&self)
        requires
            self.wf(),
        ensures
            self.model().wf(),
    ;

    /// Adds a vertex with the given payload and returns its new handle.
    fn add_vertex(&mut self, data: T) -> (id: usize)
        requires
            old(self).wf(),
            old(self).model().next_id < usize::MAX,
        ensures
            final(self).wf(),
            id == old(self).model().next_id,
            final(self).model() == old(self).model().add_vertex(data),
    ;

    /// Removes the vertex and every edge that touches it; does nothing if the
    /// handle is not live.
    fn remove_vertex(&mut self, vertex_id: usize)
        requires
            old(self).wf(),
        ensures
            final(self).wf(),
            final(self).model() == old(self).model().remove_vertex(vertex_id),
    ;

    /// Joins two live vertices; does nothing if either handle is not live.
    fn add_edge(&mut self, vertex_id_1: usize, vertex_id_2: usize)
        requires
            old(self).wf(),
        ensures
            final(self).wf(),
            final(self).model() == old(self).model().add_edge(vertex_id_1, vertex_id_2),
    ;

    /// Removes the edge between two vertices, in both orientations; does
    /// nothing if there is none.
    fn remove_edge(&mut self, vertex_id_1: usize, vertex_id_2: usize)
        requires
            old(self).wf(),
        ensures
            final(self).wf(),
            final(self).model() == old(self).model().remove_edge(vertex_id_1, vertex_id_2),
    ;

    /// A copy of the payload of a live vertex, or `None`.
    fn get_vertex_data(&self, vertex_id: usize) -> (r: Option<T>)
        requires
            self.wf(),
        ensures
            r is Some <==> self.model().is_live(vertex_id),
            r matches Some(d) ==> vstd::pervasive::cloned(self.model().vertex_data(vertex_id)->0, d),
    ;

    /// Overwrites the payload of a live vertex; does nothing otherwise.
    fn set_vertex_data(&mut self, vertex_id: usize, data: T)
        requires
            old(self).wf(),
        ensures
            final(self).wf(),
            final(self).model() == old(self).model().set_vertex_data(vertex_id, data),
    ;

    /// Whether the two handles are live and joined by an edge.
    fn is_adjacent(&self, vertex_id_1: usize, vertex_id_2: usize) -> (r: bool)
        requires
            self.wf(),
        ensures
            r == self.model().adjacent(vertex_id_1, vertex_id_2),
    ;

    /// The live vertices adjacent to the given one, in internal order; empty
    /// when the handle is not live or the vertex is isolated.
    fn get_neighbors(&self, vertex_id: usize) -> (r: Vec<usize>)
        requires
            self.wf(),
        ensures
            r@ == self.model().neighbors(vertex_id),
    ;
}

/// A graph whose edges also carry weights of type `W`.
pub trait WeightedGraph<T: Clone, W: Clone>: Graph<T> {
    /// The weight of the edge between the two vertices, or `None` where there
    /// is no such edge.
    fn get_edge_weight(&self, vertex_id_1: usize, vertex_id_2: usize) -> Option<W>;

    /// Sets the weight of the edge between the two vertices.
    fn set_edge_weight(&mut self, vertex_id_1: usize, vertex_id_2: usize, weight: W);
}

} // verus!

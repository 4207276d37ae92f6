//! The registry of a graph's vertices.
use std::collections::HashMap;
use vstd::prelude::*;

use crate::vertex::{Vertex, VertexID};

verus! {

broadcast use vstd::std_specs::hash::group_hash_axioms;

/// The vertices of one graph, each under its own identifier.
pub struct Graph<T> {
    vertices: HashMap<VertexID, Vertex<T>>,
}

impl<T> View for Graph<T> {
    type V = Map<VertexID, Vertex<T>>;

    closed spec fn view(&self) -> Map<VertexID, Vertex<T>> {
        self.vertices@
    }
}

impl<T> Graph<T> {
    /// A graph with no vertex.
    pub fn new() -> (r: Self)
        ensures
            r@ == Map::<VertexID, Vertex<T>>::empty(),
    {
        Graph { vertices: HashMap::new() }
    }

    /// Adds `vertex` under its identifier. An identifier already present
    /// is refused and the vertex handed back; the graph is then unchanged.
    pub fn insert_vertex(&mut self, vertex: Vertex<T>) -> (r: Result<(), Vertex<T>>)
        ensures
            old(self)@.contains_key(vertex.id) ==> r == Err::<(), Vertex<T>>(vertex)
                && final(self)@ == old(self)@,
            !old(self)@.contains_key(vertex.id) ==> r is Ok && final(self)@ == old(self)@.insert(
                vertex.id,
                vertex,
            ),
    {
        if self.vertices.contains_key(&vertex.id) {
            Err(vertex)
        } else {
            let id = vertex.id;
            self.vertices.insert(id, vertex);
            Ok(())
        }
    }

    /// The vertex with identifier `id`, if the graph holds one.
    pub fn get(&self, id: &VertexID) -> (r: Option<&Vertex<T>>)
        ensures
            match r {
                Some(v) => self@.contains_key(*id) && *v == self@[*id],
                None => !self@.contains_key(*id),
            },
    {
        self.vertices.get(id)
    }

    /// The number of vertices.
    pub fn len(&self) -> (r: usize)
        ensures
            r == self@.len(),
    {
        self.vertices.len()
    }
}

} // verus!

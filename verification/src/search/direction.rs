use vstd::prelude::*;
use crate::network::{AdjacencyEntry, Edge, EdgeId, EdgeListId, Graph, VertexId};

verus! {

/// Orientation of a search: forward from the origin, or in reverse from the destination.
#[derive(Clone, Copy, Debug, PartialEq, Eq, Hash, Structural)]
pub enum Direction {
    Forward,
    Reverse,
}

impl Default for Direction {
    fn default() -> (d: Direction)
        ensures
            d == Direction::Forward,
    {
        Direction::Forward
    }
}

/// The (edge list, edge) pairs of a sequence of adjacency entries.
pub open spec fn entry_edges(s: Seq<AdjacencyEntry>) -> Seq<(EdgeListId, EdgeId)> {
    s.map_values(|a: AdjacencyEntry| (a.0, a.1))
}

impl Direction {
    /// The vertex an edge leads to when followed in this orientation: the key of the tree node it adds.
    pub open spec fn key_vertex(self, e: Edge) -> VertexId {
        match self {
            Direction::Forward => e.dst_vertex_id,
            Direction::Reverse => e.src_vertex_id,
        }
    }

    /// The vertex an edge is followed from in this orientation.
    pub open spec fn start_vertex(self, e: Edge) -> VertexId {
        match self {
            Direction::Forward => e.src_vertex_id,
            Direction::Reverse => e.dst_vertex_id,
        }
    }

    /// The adjacency entries a search in this orientation follows out of `v`:
    /// outgoing edges forward, incoming edges in reverse; none for an unknown vertex.
    pub open spec fn incident_entries(self, g: Graph, v: VertexId) -> Seq<AdjacencyEntry> {
        match self {
            Direction::Forward => if v.0 < g.adj@.len() { g.out_entries(v) } else { Seq::empty() },
            Direction::Reverse => if v.0 < g.rev@.len() { g.in_entries(v) } else { Seq::empty() },
        }
    }

    /// The edges a search in this orientation follows out of `vertex_id`.
    pub fn get_incident_edges(&self, vertex_id: &VertexId, graph: &Graph) -> (r: Vec<(EdgeListId, EdgeId)>)
        ensures
            r@ == entry_edges(self.incident_entries(*graph, *vertex_id)),
    {
        let entries = match self {
            Direction::Forward => graph.out_edges(vertex_id),
            Direction::Reverse => graph.in_edges(vertex_id),
        };
        let mut r: Vec<(EdgeListId, EdgeId)> = Vec::new();
        match entries {
            Err(_) => {
                proof { assert(r@ =~= entry_edges(self.incident_entries(*graph, *vertex_id))); }
                r
            },
            Ok(es) => {
                let ghost s = es@;
                let mut i: usize = 0;
                while i < es.len()
                    invariant
                        s == es@,
                        s == self.incident_entries(*graph, *vertex_id),
                        0 <= i <= s.len(),
                        r@ == entry_edges(s.take(i as int)),
                    decreases s.len() - i,
                {
                    let a = es[i];
                    r.push((a.0, a.1));
                    proof { assert(entry_edges(s.take(i + 1)) =~= entry_edges(s.take(i as int)).push((a.0, a.1))); }
                    i = i + 1;
                }
                proof { assert(s.take(s.len() as int) =~= s); }
                r
            },
        }
    }

    /// The vertex keying the tree node that following `edge` adds.
    pub fn tree_key_vertex_id(&self, edge: &Edge) -> (v: VertexId)
        ensures
            v == self.key_vertex(*edge),
    {
        match self {
            Direction::Forward => edge.dst_vertex_id,
            Direction::Reverse => edge.src_vertex_id,
        }
    }

    /// The vertex that following `edge` starts from.
    pub fn terminal_vertex_id(&self, edge: &Edge) -> (v: VertexId)
        ensures
            v == self.start_vertex(*edge),
    {
        match self {
            Direction::Forward => edge.src_vertex_id,
            Direction::Reverse => edge.dst_vertex_id,
        }
    }
}

} // verus!

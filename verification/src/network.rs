use vstd::prelude::*;

verus! {

/// Identifier of a vertex in a road network graph.
#[derive(Clone, Copy, Debug, PartialEq, Eq, Hash, Structural)]
pub struct VertexId(pub usize);

/// Identifier of an edge within one edge list of a road network graph.
#[derive(Clone, Copy, Debug, PartialEq, Eq, Hash, Structural)]
pub struct EdgeId(pub usize);

/// Identifier of an edge list of a road network graph.
#[derive(Clone, Copy, Debug, PartialEq, Eq, Hash, Structural)]
pub struct EdgeListId(pub usize);

/// Errors raised when looking up parts of a road network graph.
#[derive(Debug, PartialEq, Eq, Structural)]
pub enum NetworkError {
    VertexNotFound(VertexId),
    EdgeListNotFound(EdgeListId),
    EdgeNotFound(EdgeListId, EdgeId),
}


/// A vertex of the road network with its coordinates, in integer units of the map projection.
#[derive(Clone, Copy, Debug, PartialEq, Eq, Structural)]
pub struct Vertex {
    pub vertex_id: VertexId,
    pub x: i64,
    pub y: i64,
}

impl Vertex {
    /// A vertex with the given id and coordinates.
    pub fn new(vertex_id: usize, x: i64, y: i64) -> (v: Vertex)
        ensures
            v == (Vertex { vertex_id: VertexId(vertex_id), x, y }),
    {
        Vertex { vertex_id: VertexId(vertex_id), x, y }
    }
}

/// A directed edge of the road network, with its length in integer distance units.
#[derive(Clone, Copy, Debug, PartialEq, Eq, Structural)]
pub struct Edge {
    pub edge_list_id: EdgeListId,
    pub edge_id: EdgeId,
    pub src_vertex_id: VertexId,
    pub dst_vertex_id: VertexId,
    pub distance: u64,
}

impl Edge {
    /// An edge with the given ids, endpoints and length.
    pub fn new(edge_list_id: usize, edge_id: usize, src_vertex_id: usize, dst_vertex_id: usize, distance: u64) -> (e: Edge)
        ensures
            e == (Edge {
                edge_list_id: EdgeListId(edge_list_id),
                edge_id: EdgeId(edge_id),
                src_vertex_id: VertexId(src_vertex_id),
                dst_vertex_id: VertexId(dst_vertex_id),
                distance,
            }),
    {
        Edge {
            edge_list_id: EdgeListId(edge_list_id),
            edge_id: EdgeId(edge_id),
            src_vertex_id: VertexId(src_vertex_id),
            dst_vertex_id: VertexId(dst_vertex_id),
            distance,
        }
    }
}

/// The edges of one edge list, indexed by edge id.
#[derive(Debug)]
pub struct EdgeList(pub Vec<Edge>);

impl Clone for EdgeList {
    fn clone(&self) -> (r: EdgeList)
        ensures
            r.0@ == self.0@,
    {
        let mut edges: Vec<Edge> = Vec::new();
        let mut i: usize = 0;
        while i < self.0.len()
            invariant
                0 <= i <= self.0@.len(),
                edges@ == self.0@.take(i as int),
            decreases self.0@.len() - i,
        {
            edges.push(self.0[i]);
            proof {
                assert(self.0@.take(i + 1) =~= self.0@.take(i as int).push(self.0@[i as int]));
            }
            i = i + 1;
        }
        proof {
            assert(self.0@.take(self.0@.len() as int) =~= self.0@);
        }
        EdgeList(edges)
    }
}

/// A copy of an adjacency table.
fn copy_table(table: &Vec<Vec<AdjacencyEntry>>) -> (r: Vec<Vec<AdjacencyEntry>>)
    ensures
        r@.len() == table@.len(),
        forall|v: int| 0 <= v < table@.len() ==> #[trigger] r@[v]@ == table@[v]@,
{
    let mut r: Vec<Vec<AdjacencyEntry>> = Vec::new();
    let mut v: usize = 0;
    while v < table.len()
        invariant
            0 <= v <= table@.len(),
            r@.len() == v,
            forall|w: int| 0 <= w < v ==> #[trigger] r@[w]@ == table@[w]@,
        decreases table@.len() - v,
    {
        let entries = &table[v];
        let mut copy: Vec<AdjacencyEntry> = Vec::new();
        let mut j: usize = 0;
        while j < entries.len()
            invariant
                0 <= j <= entries@.len(),
                copy@ == entries@.take(j as int),
            decreases entries@.len() - j,
        {
            copy.push(entries[j]);
            proof {
                assert(entries@.take(j + 1) =~= entries@.take(j as int).push(entries@[j as int]));
            }
            j = j + 1;
        }
        proof {
            assert(entries@.take(entries@.len() as int) =~= entries@);
        }
        r.push(copy);
        v = v + 1;
    }
    r
}

/// One adjacency entry: the edge, by edge list and edge id, and the vertex at its other end.
pub type AdjacencyEntry = (EdgeListId, EdgeId, VertexId);

/// A directed road network: vertices indexed by vertex id, edge lists indexed by edge list
/// id, and for each vertex its outgoing (`adj`) and incoming (`rev`) edges.
#[derive(Debug)]
pub struct Graph {
    pub vertices: Vec<Vertex>,
    pub edge_lists: Vec<EdgeList>,
    pub adj: Vec<Vec<AdjacencyEntry>>,
    pub rev: Vec<Vec<AdjacencyEntry>>,
}

impl Clone for Graph {
    fn clone(&self) -> (r: Graph)
        ensures
            r.same_as(*self),
    {
        let mut edge_lists: Vec<EdgeList> = Vec::new();
        let mut k: usize = 0;
        while k < self.edge_lists.len()
            invariant
                0 <= k <= self.edge_lists@.len(),
                edge_lists@.len() == k,
                forall|i: int| 0 <= i < k ==> #[trigger] edge_lists@[i].0@ == self.edge_lists@[i].0@,
            decreases self.edge_lists@.len() - k,
        {
            edge_lists.push(self.edge_lists[k].clone());
            k = k + 1;
        }
        let mut vertices: Vec<Vertex> = Vec::new();
        let mut i: usize = 0;
        while i < self.vertices.len()
            invariant
                0 <= i <= self.vertices@.len(),
                vertices@ == self.vertices@.take(i as int),
            decreases self.vertices@.len() - i,
        {
            vertices.push(self.vertices[i]);
            proof {
                assert(self.vertices@.take(i + 1) =~= self.vertices@.take(i as int).push(self.vertices@[i as int]));
            }
            i = i + 1;
        }
        proof {
            assert(self.vertices@.take(self.vertices@.len() as int) =~= self.vertices@);
        }
        Graph { vertices, edge_lists, adj: copy_table(&self.adj), rev: copy_table(&self.rev) }
    }
}

impl Graph {
    /// Whether two graphs hold the same vertices, edges and adjacency tables.
    pub open spec fn same_as(self, other: Graph) -> bool {
        &&& self.vertices@ == other.vertices@
        &&& self.edge_lists@.len() == other.edge_lists@.len()
        &&& forall|k: int| 0 <= k < self.edge_lists@.len() ==> #[trigger] self.edge_lists@[k].0@ == other.edge_lists@[k].0@
        &&& self.adj@.len() == other.adj@.len()
        &&& forall|v: int| 0 <= v < self.adj@.len() ==> #[trigger] self.adj@[v]@ == other.adj@[v]@
        &&& self.rev@.len() == other.rev@.len()
        &&& forall|v: int| 0 <= v < self.rev@.len() ==> #[trigger] self.rev@[v]@ == other.rev@[v]@
    }

    /// A graph that holds the same vertices, edges and tables is well formed just as this one.
    pub proof fn lemma_same_as_wf(self, other: Graph)
        requires
            self.same_as(other),
            other.wf(),
        ensures
            self.wf(),
            forall|el: EdgeListId, e: EdgeId| #[trigger] self.edge_at(el, e) == other.edge_at(el, e),
    {
        assert forall|el: EdgeListId, e: EdgeId| #[trigger] self.edge_at(el, e) == other.edge_at(el, e) by {
            if el.0 < self.edge_lists@.len() {
                assert(self.edge_lists@[el.0 as int].0@ == other.edge_lists@[el.0 as int].0@);
            }
        }
        assert forall|k: int, j: int| 0 <= k < self.edge_lists@.len() && 0 <= j < self.edge_lists@[k].0@.len()
            implies (#[trigger] self.edge_lists@[k].0@[j]).edge_list_id.0 == k && self.edge_lists@[k].0@[j].edge_id.0 == j
                && self.edge_lists@[k].0@[j].src_vertex_id.0 < self.vertices@.len()
                && self.edge_lists@[k].0@[j].dst_vertex_id.0 < self.vertices@.len() by {
            assert(self.edge_lists@[k].0@ == other.edge_lists@[k].0@);
            assert(other.edge_lists@[k].0@[j] == self.edge_lists@[k].0@[j]);
        }
        assert forall|v: int, j: int| 0 <= v < self.adj@.len() && 0 <= j < self.adj@[v]@.len() implies {
            let entry = #[trigger] self.adj@[v]@[j];
            self.edge_at(entry.0, entry.1) matches Some(edge) && edge.src_vertex_id.0 == v
                && edge.dst_vertex_id == entry.2
        } by {
            assert(self.adj@[v]@ == other.adj@[v]@);
            let entry = self.adj@[v]@[j];
            assert(other.adj@[v]@[j] == entry);
            assert(self.edge_at(entry.0, entry.1) == other.edge_at(entry.0, entry.1));
        }
        assert forall|v: int, j: int| 0 <= v < self.rev@.len() && 0 <= j < self.rev@[v]@.len() implies {
            let entry = #[trigger] self.rev@[v]@[j];
            self.edge_at(entry.0, entry.1) matches Some(edge) && edge.dst_vertex_id.0 == v
                && edge.src_vertex_id == entry.2
        } by {
            assert(self.rev@[v]@ == other.rev@[v]@);
            let entry = self.rev@[v]@[j];
            assert(other.rev@[v]@[j] == entry);
            assert(self.edge_at(entry.0, entry.1) == other.edge_at(entry.0, entry.1));
        }
    }

    /// The edge stored under these ids, if any.
    pub open spec fn edge_at(self, el: EdgeListId, e: EdgeId) -> Option<Edge> {
        if el.0 < self.edge_lists@.len() && e.0 < self.edge_lists@[el.0 as int].0@.len() {
            Some(self.edge_lists@[el.0 as int].0@[e.0 as int])
        } else {
            None
        }
    }

    /// The error raised when no edge is stored under these ids.
    pub open spec fn edge_error(self, el: EdgeListId, e: EdgeId) -> NetworkError {
        if el.0 < self.edge_lists@.len() {
            NetworkError::EdgeNotFound(el, e)
        } else {
            NetworkError::EdgeListNotFound(el)
        }
    }

    /// The number of vertices.
    pub open spec fn num_vertices(self) -> nat {
        self.vertices@.len()
    }

    /// The outgoing adjacency entries of vertex `v`.
    pub open spec fn out_entries(self, v: VertexId) -> Seq<AdjacencyEntry> {
        self.adj@[v.0 as int]@
    }

    /// The incoming adjacency entries of vertex `v`.
    pub open spec fn in_entries(self, v: VertexId) -> Seq<AdjacencyEntry> {
        self.rev@[v.0 as int]@
    }

    /// A well-formed graph: ids match positions, both adjacency tables cover every vertex,
    /// and every adjacency entry names a stored edge with the matching endpoints.
    pub open spec fn wf(self) -> bool {
        &&& forall|i: int| 0 <= i < self.vertices@.len() ==> (#[trigger] self.vertices@[i]).vertex_id.0 == i
        &&& forall|k: int, j: int| 0 <= k < self.edge_lists@.len() && 0 <= j < self.edge_lists@[k].0@.len()
            ==> (#[trigger] self.edge_lists@[k].0@[j]).edge_list_id.0 == k && self.edge_lists@[k].0@[j].edge_id.0 == j
                && self.edge_lists@[k].0@[j].src_vertex_id.0 < self.vertices@.len()
                && self.edge_lists@[k].0@[j].dst_vertex_id.0 < self.vertices@.len()
        &&& self.adj@.len() == self.vertices@.len()
        &&& self.rev@.len() == self.vertices@.len()
        &&& forall|v: int, j: int| 0 <= v < self.adj@.len() && 0 <= j < self.adj@[v]@.len() ==> {
            let entry = #[trigger] self.adj@[v]@[j];
            self.edge_at(entry.0, entry.1) matches Some(edge) && edge.src_vertex_id.0 == v
                && edge.dst_vertex_id == entry.2
        }
        &&& forall|v: int, j: int| 0 <= v < self.rev@.len() && 0 <= j < self.rev@[v]@.len() ==> {
            let entry = #[trigger] self.rev@[v]@[j];
            self.edge_at(entry.0, entry.1) matches Some(edge) && edge.dst_vertex_id.0 == v
                && edge.src_vertex_id == entry.2
        }
    }

    /// The edge stored under these ids.
    pub fn get_edge(&self, edge_list_id: &EdgeListId, edge_id: &EdgeId) -> (r: Result<&Edge, NetworkError>)
        ensures
            match self.edge_at(*edge_list_id, *edge_id) {
                Some(e) => r matches Ok(found) && *found == e,
                None => r == Err::<&Edge, NetworkError>(self.edge_error(*edge_list_id, *edge_id)),
            },
    {
        if edge_list_id.0 >= self.edge_lists.len() {
            return Err(NetworkError::EdgeListNotFound(*edge_list_id));
        }
        let list = &self.edge_lists[edge_list_id.0];
        if edge_id.0 >= list.0.len() {
            return Err(NetworkError::EdgeNotFound(*edge_list_id, *edge_id));
        }
        Ok(&list.0[edge_id.0])
    }

    /// The source vertex of an edge.
    pub fn src_vertex_id(&self, edge_list_id: &EdgeListId, edge_id: &EdgeId) -> (r: Result<VertexId, NetworkError>)
        ensures
            match self.edge_at(*edge_list_id, *edge_id) {
                Some(e) => r == Ok::<VertexId, NetworkError>(e.src_vertex_id),
                None => r == Err::<VertexId, NetworkError>(self.edge_error(*edge_list_id, *edge_id)),
            },
    {
        let e = self.get_edge(edge_list_id, edge_id)?;
        Ok(e.src_vertex_id)
    }

    /// The destination vertex of an edge.
    pub fn dst_vertex_id(&self, edge_list_id: &EdgeListId, edge_id: &EdgeId) -> (r: Result<VertexId, NetworkError>)
        ensures
            match self.edge_at(*edge_list_id, *edge_id) {
                Some(e) => r == Ok::<VertexId, NetworkError>(e.dst_vertex_id),
                None => r == Err::<VertexId, NetworkError>(self.edge_error(*edge_list_id, *edge_id)),
            },
    {
        let e = self.get_edge(edge_list_id, edge_id)?;
        Ok(e.dst_vertex_id)
    }

    /// The vertex with the given id.
    pub fn get_vertex(&self, vertex_id: &VertexId) -> (r: Result<&Vertex, NetworkError>)
        ensures
            vertex_id.0 < self.vertices@.len() ==> (r matches Ok(v) && *v == self.vertices@[vertex_id.0 as int]),
            vertex_id.0 >= self.vertices@.len() ==> r == Err::<&Vertex, NetworkError>(NetworkError::VertexNotFound(*vertex_id)),
    {
        if vertex_id.0 < self.vertices.len() {
            Ok(&self.vertices[vertex_id.0])
        } else {
            Err(NetworkError::VertexNotFound(*vertex_id))
        }
    }

    /// The ids of all vertices, in increasing order.
    pub fn vertex_ids(&self) -> (r: Vec<VertexId>)
        ensures
            r@.len() == self.vertices@.len(),
            forall|i: int| 0 <= i < r@.len() ==> (#[trigger] r@[i]).0 == i,
    {
        let mut r: Vec<VertexId> = Vec::new();
        let mut i: usize = 0;
        while i < self.vertices.len()
            invariant
                0 <= i <= self.vertices@.len(),
                r@.len() == i,
                forall|j: int| 0 <= j < i ==> (#[trigger] r@[j]).0 == j,
            decreases self.vertices@.len() - i,
        {
            r.push(VertexId(i));
            i = i + 1;
        }
        r
    }

    /// The outgoing adjacency entries of a vertex.
    pub fn out_edges(&self, vertex_id: &VertexId) -> (r: Result<&Vec<AdjacencyEntry>, NetworkError>)
        ensures
            vertex_id.0 < self.adj@.len() ==> (r matches Ok(es) && es@ == self.out_entries(*vertex_id)),
            vertex_id.0 >= self.adj@.len() ==> r == Err::<&Vec<AdjacencyEntry>, NetworkError>(NetworkError::VertexNotFound(*vertex_id)),
    {
        if vertex_id.0 < self.adj.len() {
            Ok(&self.adj[vertex_id.0])
        } else {
            Err(NetworkError::VertexNotFound(*vertex_id))
        }
    }

    /// The incoming adjacency entries of a vertex.
    pub fn in_edges(&self, vertex_id: &VertexId) -> (r: Result<&Vec<AdjacencyEntry>, NetworkError>)
        ensures
            vertex_id.0 < self.rev@.len() ==> (r matches Ok(es) && es@ == self.in_entries(*vertex_id)),
            vertex_id.0 >= self.rev@.len() ==> r == Err::<&Vec<AdjacencyEntry>, NetworkError>(NetworkError::VertexNotFound(*vertex_id)),
    {
        if vertex_id.0 < self.rev.len() {
            Ok(&self.rev[vertex_id.0])
        } else {
            Err(NetworkError::VertexNotFound(*vertex_id))
        }
    }

    /// The (source vertex, edge, destination vertex) triplet of an edge.
    pub fn edge_triplet(&self, edge_list_id: &EdgeListId, edge_id: &EdgeId) -> (r: Result<(&Vertex, &Edge, &Vertex), NetworkError>)
        ensures
            self.wf() && self.edge_at(*edge_list_id, *edge_id) is Some ==> (r matches Ok(t) && *t.1 == self.edge_at(*edge_list_id, *edge_id)->0
                && *t.0 == self.vertices@[t.1.src_vertex_id.0 as int]
                && *t.2 == self.vertices@[t.1.dst_vertex_id.0 as int]),
            self.edge_at(*edge_list_id, *edge_id) is None ==> r == Err::<(&Vertex, &Edge, &Vertex), NetworkError>(self.edge_error(*edge_list_id, *edge_id)),
            r matches Ok(t) ==> self.edge_at(*edge_list_id, *edge_id) == Some(*t.1),
    {
        let edge = self.get_edge(edge_list_id, edge_id)?;
        let src = self.get_vertex(&edge.src_vertex_id)?;
        let dst = self.get_vertex(&edge.dst_vertex_id)?;
        Ok((src, edge, dst))
    }
}

} // verus!

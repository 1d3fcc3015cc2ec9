use vstd::prelude::*;

verus! {

/// The abstract state of an undirected graph, shared by every engine.
///
/// `vertices` holds the live vertices in internal order, each as its handle
/// and payload; `edges` holds every adjacent pair of handles in both
/// orientations; `next_id` is the handle that the next added vertex receives.
pub ghost struct GraphModel<T> {
    pub vertices: Seq<(usize, T)>,
    pub edges: Set<(usize, usize)>,
    pub next_id: nat,
}

/// One operation of the graph contract, as it acts on the abstract graph.
pub ghost enum GraphOp<T> {
    AddVertex(T),
    RemoveVertex(usize),
    AddEdge(usize, usize),
    RemoveEdge(usize, usize),
    SetVertexData(usize, T),
}

/// The handles of a sequence of vertex records, in the same order.
pub open spec fn ids_of<T>(vertices: Seq<(usize, T)>) -> Seq<usize> {
    vertices.map_values(|p: (usize, T)| p.0)
}

impl<T> GraphModel<T> {
    /// The graph with no vertices, whose first handle is zero.
    pub open spec fn empty() -> Self {
        GraphModel { vertices: Seq::empty(), edges: Set::empty(), next_id: 0 }
    }

    pub open spec fn ids(self) -> Seq<usize> {
        ids_of(self.vertices)
    }

    pub open spec fn is_live(self, h: usize) -> bool {
        self.ids().contains(h)
    }

    /// The internal position of a live handle.
    pub open spec fn position(self, h: usize) -> int {
        self.ids().index_of(h)
    }

    /// Handles are unique and below the counter; adjacency is symmetric and
    /// only joins live vertices.
    pub open spec fn wf(self) -> bool {
        &&& self.ids().no_duplicates()
        &&& forall|i: int| 0 <= i < self.vertices.len() ==> (#[trigger] self.vertices[i]).0 < self.next_id
        &&& forall|a: usize, b: usize| #[trigger]
            self.edges.contains((a, b)) ==> self.edges.contains((b, a)) && self.is_live(a)
                && self.is_live(b)
    }

    pub open spec fn vertex_data(self, h: usize) -> Option<T> {
        if self.is_live(h) {
            Some(self.vertices[self.position(h)].1)
        } else {
            None
        }
    }

    pub open spec fn adjacent(self, a: usize, b: usize) -> bool {
        self.edges.contains((a, b))
    }

    /// The predicate "is adjacent to `h`", as a value that filters can share.
    pub open spec fn adjacent_to(self, h: usize) -> spec_fn(usize) -> bool {
        |w: usize| self.edges.contains((h, w))
    }

    /// The live vertices adjacent to `h`, in internal order.
    pub open spec fn neighbors(self, h: usize) -> Seq<usize> {
        self.ids().filter(self.adjacent_to(h))
    }

    pub open spec fn add_vertex(self, data: T) -> Self {
        GraphModel {
            vertices: self.vertices.push((self.next_id as usize, data)),
            edges: self.edges,
            next_id: self.next_id + 1,
        }
    }

    pub open spec fn remove_vertex(self, h: usize) -> Self {
        if self.is_live(h) {
            GraphModel {
                vertices: self.vertices.remove(self.position(h)),
                edges: self.edges.filter(|e: (usize, usize)| e.0 != h && e.1 != h),
                next_id: self.next_id,
            }
        } else {
            self
        }
    }

    pub open spec fn add_edge(self, a: usize, b: usize) -> Self {
        if self.is_live(a) && self.is_live(b) {
            GraphModel { edges: self.edges.insert((a, b)).insert((b, a)), ..self }
        } else {
            self
        }
    }

    pub open spec fn remove_edge(self, a: usize, b: usize) -> Self {
        GraphModel { edges: self.edges.remove((a, b)).remove((b, a)), ..self }
    }

    pub open spec fn set_vertex_data(self, h: usize, data: T) -> Self {
        if self.is_live(h) {
            GraphModel { vertices: self.vertices.update(self.position(h), (h, data)), ..self }
        } else {
            self
        }
    }

    /// The graph after one operation.
    pub open spec fn apply(self, op: GraphOp<T>) -> Self {
        match op {
            GraphOp::AddVertex(data) => self.add_vertex(data),
            GraphOp::RemoveVertex(h) => self.remove_vertex(h),
            GraphOp::AddEdge(a, b) => self.add_edge(a, b),
            GraphOp::RemoveEdge(a, b) => self.remove_edge(a, b),
            GraphOp::SetVertexData(h, data) => self.set_vertex_data(h, data),
        }
    }

    /// The graph after a sequence of operations, applied first to last.
    pub open spec fn run(self, ops: Seq<GraphOp<T>>) -> Self
        decreases ops.len(),
    {
        if ops.len() == 0 {
            self
        } else {
            self.run(ops.drop_last()).apply(ops.last())
        }
    }

    /// In a well-formed graph the position of a live handle is where it stands.
    pub proof fn lemma_position(self, i: int)
        requires
            self.ids().no_duplicates(),
            0 <= i < self.vertices.len(),
        ensures
            self.is_live(self.vertices[i].0),
            self.position(self.vertices[i].0) == i,
    {
        let h = self.vertices[i].0;
        assert(self.ids()[i] == h);
        assert(self.is_live(h));
    }
}

} // verus!

use vstd::prelude::*;

use crate::model::{ids_of, GraphModel};
use crate::packing::{
    lemma_pack_before_row, lemma_pack_ends, lemma_pack_in_row, lemma_pack_row_step,
    lemma_pack_same_cell, lemma_side_fits, pack, packed_offset, tri,
};
use crate::Graph;

verus! {

/// An undirected graph stored as an adjacency matrix.
///
/// Vertices are kept in insertion order, each with its handle and payload;
/// a vertex's place in that order is its internal position. Since the matrix
/// is symmetric, only its upper triangle, diagonal included, is stored: for
/// `V` vertices, `V * (V + 1) / 2` flags packed row by row.
#[derive(Clone, Debug)]
pub struct UndirectedGraph<T: Clone> {
    vertices: Vec<(usize, T)>,
    edges: Vec<bool>,
    next_id: usize,
}

impl<T: Clone> UndirectedGraph<T> {
    /// Whether the cell of internal positions `i` and `j` is set.
    closed spec fn cell(&self, i: int, j: int) -> bool {
        self.edges@[pack(self.vertices@.len() as int, i, j)]
    }

    /// Whether both handles are live and their cell is set.
    closed spec fn joined(&self, a: usize, b: usize) -> bool {
        let ids = ids_of(self.vertices@);
        &&& ids.contains(a)
        &&& ids.contains(b)
        &&& self.cell(ids.index_of(a), ids.index_of(b))
    }

    /// Creates a graph with no vertices.
    pub fn new() -> (g: Self)
        ensures
            g.wf(),
            g.model() == GraphModel::<T>::empty(),
    {
        let g = UndirectedGraph { vertices: Vec::new(), edges: Vec::new(), next_id: 0 };
        proof {
            assert(g.model().vertices =~= Seq::<(usize, T)>::empty());
            assert(g.model().edges =~= Set::<(usize, usize)>::empty());
        }
        g
    }

    /// The number of live vertices.
    pub fn vertex_count(&self) -> (r: usize)
        ensures
            r == self.model().vertices.len(),
    {
        self.vertices.len()
    }

    /// The offset in the packed matrix of the cell of internal positions `x`
    /// and `y`, in either order.
    pub fn index_vector_with_coords(&self, x: usize, y: usize) -> (r: usize)
        requires
            self.wf(),
            x < self.model().vertices.len(),
            y < self.model().vertices.len(),
        ensures
            r == pack(self.model().vertices.len() as int, x as int, y as int),
            r < tri(self.model().vertices.len() as int),
    {
        proof {
            assert(self.edges.len() == self.edges@.len());
        }
        packed_offset(self.vertices.len(), x, y)
    }

    /// The internal position of a live handle, or `None`.
    pub fn get_index_from_id(&self, id: usize) -> (r: Option<usize>)
        requires
            self.wf(),
        ensures
            r is Some <==> self.model().is_live(id),
            r matches Some(i) ==> i < self.model().vertices.len() && self.model().vertices[i as int].0
                == id && i == self.model().position(id),
    {
        let mut i: usize = 0;
        while i < self.vertices.len()
            invariant
                self.wf(),
                0 <= i <= self.vertices@.len(),
                forall|k: int| 0 <= k < i ==> self.vertices@[k].0 != id,
            decreases self.vertices@.len() - i,
        {
            if self.vertices[i].0 == id {
                proof {
                    self.model().lemma_position(i as int);
                }
                return Some(i);
            }
            i += 1;
        }
        proof {
            let ids = self.model().ids();
            if ids.contains(id) {
                let k = ids.index_of(id);
                assert(self.vertices@[k].0 == ids[k]);
            }
        }
        None
    }

    /// In a well-formed graph, the handles at positions `i` and `j` are
    /// adjacent exactly when their cell is set.
    proof fn lemma_adjacent_cell(&self, i: int, j: int)
        requires
            self.wf(),
            0 <= i < self.vertices@.len(),
            0 <= j < self.vertices@.len(),
        ensures
            self.model().adjacent(self.vertices@[i].0, self.vertices@[j].0) == self.cell(i, j),
    {
        self.model().lemma_position(i);
        self.model().lemma_position(j);
    }
}

/// Where internal position `i` of a graph stood before the vertex at `pos`
/// was removed.
spec fn skip(pos: int, i: int) -> int {
    if i < pos {
        i
    } else {
        i + 1
    }
}

impl<T: Clone> Graph<T> for UndirectedGraph<T> {
    closed spec fn model(&self) -> GraphModel<T> {
        GraphModel {
            vertices: self.vertices@,
            edges: Set::new(|e: (usize, usize)| self.joined(e.0, e.1)),
            next_id: self.next_id as nat,
        }
    }

    closed spec fn wf(&self) -> bool {
        &&& self.edges@.len() == tri(self.vertices@.len() as int)
        &&& ids_of(self.vertices@).no_duplicates()
        &&& forall|i: int|
            0 <= i < self.vertices@.len() ==> (#[trigger] self.vertices@[i]).0 < self.next_id
    }

    proof fn lemma_wf_model(&self) {
        let m = self.model();
        assert forall|a: usize, b: usize| #[trigger] m.edges.contains((a, b)) implies m.edges.contains(
            (b, a),
        ) && m.is_live(a) && m.is_live(b) by {
            let ids = m.ids();
            assert(pack(self.vertices@.len() as int, ids.index_of(a), ids.index_of(b)) == pack(
                self.vertices@.len() as int,
                ids.index_of(b),
                ids.index_of(a),
            ));
        }
    }

    /// Grows the packed matrix by one row and one column, all unset: each
    /// existing row gains a cell at its end, and a new row of one cell, the
    /// new vertex's self-loop, follows.
    fn add_vertex(&mut self, data: T) -> (id: usize) {
        let id = self.next_id;
        let n = self.vertices.len();
        proof {
            lemma_pack_ends(n as int + 1);
            lemma_pack_ends(n as int);
            lemma_pack_row_step(n as int, n as int);
            assert(self.edges.len() == self.edges@.len());
            lemma_side_fits(n as int);
        }
        let mut grown: Vec<bool> = Vec::new();
        let mut x: usize = 0;
        while x <= n
            invariant
                self.wf(),
                *self == *old(self),
                n == self.vertices@.len(),
                2 * n <= usize::MAX,
                x <= n + 1,
                grown@.len() == pack(n + 1, x as int, x as int),
                forall|i: int, j: int|
                    0 <= i < x && i <= j <= n ==> #[trigger] grown@[pack(n + 1, i, j)] == (j < n
                        && self.edges@[pack(n as int, i, j)]),
            decreases n + 1 - x,
        {
            let mut y: usize = x;
            while y <= n
                invariant
                    self.wf(),
                    *self == *old(self),
                    n == self.vertices@.len(),
                    2 * n <= usize::MAX,
                    x <= n,
                    x <= y <= n + 1,
                    grown@.len() == pack(n + 1, x as int, y as int),
                    forall|i: int, j: int|
                        0 <= i < x && i <= j <= n ==> #[trigger] grown@[pack(n + 1, i, j)] == (j
                            < n && self.edges@[pack(n as int, i, j)]),
                    forall|j: int|
                        x <= j < y ==> #[trigger] grown@[pack(n + 1, x as int, j)] == (j < n
                            && self.edges@[pack(n as int, x as int, j)]),
                decreases n + 1 - y,
            {
                let cell = if y < n {
                    self.edges[self.index_vector_with_coords(x, y)]
                } else {
                    false
                };
                let ghost before = grown@;
                grown.push(cell);
                proof {
                    assert forall|i: int, j: int| 0 <= i < x && i <= j <= n implies #[trigger] grown@[pack(
                        n + 1,
                        i,
                        j,
                    )] == (j < n && self.edges@[pack(n as int, i, j)]) by {
                        lemma_pack_before_row(n + 1, i, j, x as int);
                        lemma_pack_in_row(n + 1, x as int, y as int);
                        assert(grown@[pack(n + 1, i, j)] == before[pack(n + 1, i, j)]);
                    }
                    assert forall|j: int| x <= j < y + 1 implies #[trigger] grown@[pack(
                        n + 1,
                        x as int,
                        j,
                    )] == (j < n && self.edges@[pack(n as int, x as int, j)]) by {
                        if j < y {
                            assert(grown@[pack(n + 1, x as int, j)] == before[pack(
                                n + 1,
                                x as int,
                                j,
                            )]);
                        }
                    }
                }
                y += 1;
            }
            proof {
                lemma_pack_row_step(n + 1, x as int);
            }
            x += 1;
        }
        let ghost old_ids = ids_of(self.vertices@);
        self.vertices.push((id, data));
        self.edges = grown;
        self.next_id = id + 1;
        proof {
            let ids = ids_of(self.vertices@);
            assert(ids =~= old_ids.push(id));
            assert(!old_ids.contains(id)) by {
                if old_ids.contains(id) {
                    let k = old_ids.index_of(id);
                    assert(old(self).vertices@[k].0 < id);
                }
            }
            assert(self.wf()) by {
                lemma_pack_ends(n as int + 1);
                assert forall|i: int, j: int|
                    0 <= i < ids.len() && 0 <= j < ids.len() && i != j implies ids[i] != ids[j] by {
                    if i < n && j < n {
                        assert(ids[i] == old_ids[i] && ids[j] == old_ids[j]);
                    } else if i < n {
                        assert(old_ids.contains(ids[i]));
                    } else {
                        assert(old_ids.contains(ids[j]));
                    }
                }
            }
            let m0 = old(self).model();
            let m1 = self.model();
            assert forall|e: (usize, usize)| m1.edges.contains(e) == m0.edges.contains(e) by {
                if ids.contains(e.0) && ids.contains(e.1) {
                    let k = ids.index_of(e.0);
                    let l = ids.index_of(e.1);
                    m1.lemma_position(k);
                    m1.lemma_position(l);
                    let (k1, l1) = if k <= l {
                        (k, l)
                    } else {
                        (l, k)
                    };
                    assert(pack(n + 1, k, l) == pack(n + 1, k1, l1));
                    assert(self.edges@[pack(n + 1, k1, l1)] == (l1 < n && old(self).edges@[pack(
                        n as int,
                        k1,
                        l1,
                    )]));
                    if l1 < n {
                        assert(pack(n as int, k, l) == pack(n as int, k1, l1));
                        assert(old_ids[k] == e.0 && old_ids[l] == e.1);
                        m0.lemma_position(k);
                        m0.lemma_position(l);
                    } else if k == n {
                        assert(e.0 == id);
                    } else {
                        assert(e.1 == id);
                    }
                } else if !ids.contains(e.0) {
                    if old_ids.contains(e.0) {
                        let k = old_ids.index_of(e.0);
                        assert(ids[k] == e.0);
                    }
                } else {
                    if old_ids.contains(e.1) {
                        let k = old_ids.index_of(e.1);
                        assert(ids[k] == e.1);
                    }
                }
            }
            assert(m1.edges =~= m0.edges);
            assert(m1.vertices =~= m0.add_vertex(data).vertices);
        }
        id
    }

    /// Drops the row and the column of the removed vertex from the packed
    /// matrix, keeping every other cell in order, then drops the vertex.
    fn remove_vertex(&mut self, vertex_id: usize) {
        let pos = match self.get_index_from_id(vertex_id) {
            Some(p) => p,
            None => return ,
        };
        let n = self.vertices.len();
        let m = n - 1;
        proof {
            lemma_pack_ends(m as int);
        }
        let mut shrunk: Vec<bool> = Vec::new();
        let mut x: usize = 0;
        while x < m
            invariant
                self.wf(),
                *self == *old(self),
                n == self.vertices@.len(),
                m + 1 == n,
                pos < n,
                x <= m,
                shrunk@.len() == pack(m as int, x as int, x as int),
                forall|i: int, j: int|
                    0 <= i < x && i <= j < m ==> #[trigger] shrunk@[pack(m as int, i, j)]
                        == self.edges@[pack(n as int, skip(pos as int, i), skip(pos as int, j))],
            decreases m - x,
        {
            let sx = if x < pos {
                x
            } else {
                x + 1
            };
            let mut y: usize = x;
            while y < m
                invariant
                    self.wf(),
                    *self == *old(self),
                    n == self.vertices@.len(),
                    m + 1 == n,
                    pos < n,
                    x < m,
                    x <= y <= m,
                    sx == skip(pos as int, x as int),
                    shrunk@.len() == pack(m as int, x as int, y as int),
                    forall|i: int, j: int|
                        0 <= i < x && i <= j < m ==> #[trigger] shrunk@[pack(m as int, i, j)]
                            == self.edges@[pack(
                            n as int,
                            skip(pos as int, i),
                            skip(pos as int, j),
                        )],
                    forall|j: int|
                        x <= j < y ==> #[trigger] shrunk@[pack(m as int, x as int, j)]
                            == self.edges@[pack(
                            n as int,
                            skip(pos as int, x as int),
                            skip(pos as int, j),
                        )],
                decreases m - y,
            {
                let sy = if y < pos {
                    y
                } else {
                    y + 1
                };
                let cell = self.edges[self.index_vector_with_coords(sx, sy)];
                let ghost before = shrunk@;
                shrunk.push(cell);
                proof {
                    assert forall|i: int, j: int| 0 <= i < x && i <= j < m implies #[trigger] shrunk@[pack(
                        m as int,
                        i,
                        j,
                    )] == self.edges@[pack(n as int, skip(pos as int, i), skip(pos as int, j))] by {
                        lemma_pack_before_row(m as int, i, j, x as int);
                        lemma_pack_in_row(m as int, x as int, y as int);
                        assert(shrunk@[pack(m as int, i, j)] == before[pack(m as int, i, j)]);
                    }
                    assert forall|j: int| x <= j < y + 1 implies #[trigger] shrunk@[pack(
                        m as int,
                        x as int,
                        j,
                    )] == self.edges@[pack(n as int, skip(pos as int, x as int), skip(pos as int, j))] by {
                        if j < y {
                            assert(shrunk@[pack(m as int, x as int, j)] == before[pack(
                                m as int,
                                x as int,
                                j,
                            )]);
                        }
                    }
                }
                y += 1;
            }
            proof {
                lemma_pack_row_step(m as int, x as int);
            }
            x += 1;
        }
        let ghost old_ids = ids_of(self.vertices@);
        self.vertices.remove(pos);
        self.edges = shrunk;
        proof {
            let ids = ids_of(self.vertices@);
            assert(ids =~= old_ids.remove(pos as int));
            assert forall|k: int| 0 <= k < m implies #[trigger] ids[k] == old_ids[skip(pos as int, k)]
                by {}
            assert(self.wf()) by {
                assert forall|i: int, j: int|
                    0 <= i < ids.len() && 0 <= j < ids.len() && i != j implies ids[i] != ids[j] by {
                    assert(ids[i] == old_ids[skip(pos as int, i)]);
                    assert(ids[j] == old_ids[skip(pos as int, j)]);
                }
                assert forall|i: int| 0 <= i < self.vertices@.len() implies (
                #[trigger] self.vertices@[i]).0 < self.next_id by {
                    assert(self.vertices@[i] == old(self).vertices@[skip(pos as int, i)]);
                }
            }
            let m0 = old(self).model();
            let m1 = self.model();
            let target = m0.remove_vertex(vertex_id);
            assert(m0.position(vertex_id) == pos);
            assert forall|e: (usize, usize)| m1.edges.contains(e) == target.edges.contains(e) by {
                if ids.contains(e.0) && ids.contains(e.1) {
                    let k = ids.index_of(e.0);
                    let l = ids.index_of(e.1);
                    m1.lemma_position(k);
                    m1.lemma_position(l);
                    m0.lemma_position(skip(pos as int, k));
                    m0.lemma_position(skip(pos as int, l));
                    m0.lemma_position(pos as int);
                    let (k1, l1) = if k <= l {
                        (k, l)
                    } else {
                        (l, k)
                    };
                    assert(pack(m as int, k, l) == pack(m as int, k1, l1));
                    assert(pack(n as int, skip(pos as int, k), skip(pos as int, l)) == pack(
                        n as int,
                        skip(pos as int, k1),
                        skip(pos as int, l1),
                    ));
                    assert(self.edges@[pack(m as int, k1, l1)] == old(self).edges@[pack(
                        n as int,
                        skip(pos as int, k1),
                        skip(pos as int, l1),
                    )]);
                } else if !ids.contains(e.0) {
                    if old_ids.contains(e.0) && e.0 != vertex_id {
                        let k = old_ids.index_of(e.0);
                        m0.lemma_position(k);
                        let k1 = if k < pos {
                            k
                        } else {
                            k - 1
                        };
                        assert(ids[k1] == e.0);
                    }
                } else {
                    if old_ids.contains(e.1) && e.1 != vertex_id {
                        let k = old_ids.index_of(e.1);
                        m0.lemma_position(k);
                        let k1 = if k < pos {
                            k
                        } else {
                            k - 1
                        };
                        assert(ids[k1] == e.1);
                    }
                }
            }
            assert(m1.edges =~= target.edges);
        }
    }

    fn add_edge(&mut self, vertex_id_1: usize, vertex_id_2: usize) {
        let pos_1 = match self.get_index_from_id(vertex_id_1) {
            Some(p) => p,
            None => return ,
        };
        let pos_2 = match self.get_index_from_id(vertex_id_2) {
            Some(p) => p,
            None => return ,
        };
        let index = self.index_vector_with_coords(pos_1, pos_2);
        self.edges.set(index, true);
        proof {
            self.lemma_set_cell(*old(self), pos_1 as int, pos_2 as int, true);
        }
    }

    fn remove_edge(&mut self, vertex_id_1: usize, vertex_id_2: usize) {
        proof {
            old(self).lemma_wf_model();
        }
        let pos_1 = match self.get_index_from_id(vertex_id_1) {
            Some(p) => p,
            None => {
                assert(self.model().edges.remove((vertex_id_1, vertex_id_2)).remove(
                    (vertex_id_2, vertex_id_1),
                ) =~= self.model().edges);
                return ;
            },
        };
        let pos_2 = match self.get_index_from_id(vertex_id_2) {
            Some(p) => p,
            None => {
                assert(self.model().edges.remove((vertex_id_1, vertex_id_2)).remove(
                    (vertex_id_2, vertex_id_1),
                ) =~= self.model().edges);
                return ;
            },
        };
        let index = self.index_vector_with_coords(pos_1, pos_2);
        self.edges.set(index, false);
        proof {
            self.lemma_set_cell(*old(self), pos_1 as int, pos_2 as int, false);
        }
    }

    fn get_vertex_data(&self, vertex_id: usize) -> (r: Option<T>) {
        match self.get_index_from_id(vertex_id) {
            Some(pos) => Some(self.vertices[pos].1.clone()),
            None => None,
        }
    }

    fn set_vertex_data(&mut self, vertex_id: usize, data: T) {
        let pos = match self.get_index_from_id(vertex_id) {
            Some(p) => p,
            None => return ,
        };
        self.vertices.set(pos, (vertex_id, data));
        proof {
            let m0 = old(self).model();
            let m1 = self.model();
            assert(ids_of(self.vertices@) =~= ids_of(old(self).vertices@));
            assert(self.wf());
            assert(m1.edges =~= m0.edges);
        }
    }

    fn is_adjacent(&self, vertex_id_1: usize, vertex_id_2: usize) -> (r: bool) {
        let pos_1 = match self.get_index_from_id(vertex_id_1) {
            Some(p) => p,
            None => return false,
        };
        let pos_2 = match self.get_index_from_id(vertex_id_2) {
            Some(p) => p,
            None => return false,
        };
        let index = self.index_vector_with_coords(pos_1, pos_2);
        self.edges[index]
    }

    fn get_neighbors(&self, vertex_id: usize) -> (r: Vec<usize>) {
        let ghost ids = self.model().ids();
        let ghost near = self.model().adjacent_to(vertex_id);
        let mut res: Vec<usize> = Vec::new();
        let mut i: usize = 0;
        while i < self.vertices.len()
            invariant
                self.wf(),
                ids == self.model().ids(),
                near == self.model().adjacent_to(vertex_id),
                0 <= i <= ids.len(),
                res@ == ids.take(i as int).filter(near),
            decreases ids.len() - i,
        {
            let other_id = self.vertices[i].0;
            let adjacent = self.is_adjacent(vertex_id, other_id);
            if adjacent {
                res.push(other_id);
            }
            proof {
                assert(ids.take(i + 1) =~= ids.take(i as int).push(other_id));
                ids.take(i as int).lemma_filter_push(other_id, near);
            }
            i += 1;
        }
        proof {
            assert(ids.take(i as int) =~= ids);
        }
        res
    }
}

impl<T: Clone> UndirectedGraph<T> {
    /// After one cell of `prev` is set to `value`, the vertices stay as they
    /// were and the edge set gains or loses that cell's pair in both orders.
    proof fn lemma_set_cell(&self, prev: Self, i: int, j: int, value: bool)
        requires
            prev.wf(),
            0 <= i < prev.vertices@.len(),
            0 <= j < prev.vertices@.len(),
            self.vertices@ == prev.vertices@,
            self.next_id == prev.next_id,
            self.edges@ == prev.edges@.update(pack(prev.vertices@.len() as int, i, j), value),
        ensures
            self.wf(),
            self.model() == (if value {
                prev.model().add_edge(prev.vertices@[i].0, prev.vertices@[j].0)
            } else {
                prev.model().remove_edge(prev.vertices@[i].0, prev.vertices@[j].0)
            }),
    {
        let n = prev.vertices@.len() as int;
        let a = prev.vertices@[i].0;
        let b = prev.vertices@[j].0;
        let m0 = prev.model();
        let m1 = self.model();
        m0.lemma_position(i);
        m0.lemma_position(j);
        let target = if value {
            m0.add_edge(a, b)
        } else {
            m0.remove_edge(a, b)
        };
        let ids = m0.ids();
        let (i1, j1) = if i <= j {
            (i, j)
        } else {
            (j, i)
        };
        lemma_pack_in_row(n, i1, j1);
        assert(pack(n, i, j) == pack(n, i1, j1));
        prev.lemma_wf_model();
        assert forall|e: (usize, usize)| m1.edges.contains(e) == target.edges.contains(e) by {
            if ids.contains(e.0) && ids.contains(e.1) {
                let k = ids.index_of(e.0);
                let l = ids.index_of(e.1);
                m0.lemma_position(k);
                m0.lemma_position(l);
                let (k1, l1) = if k <= l {
                    (k, l)
                } else {
                    (l, k)
                };
                lemma_pack_in_row(n, k1, l1);
                assert(pack(n, k, l) == pack(n, k1, l1));
                if pack(n, k, l) == pack(n, i, j) {
                    lemma_pack_same_cell(n, k, l, i, j);
                    assert(pack(n, j, i) == pack(n, i, j));
                } else {
                    assert(e != (a, b) && e != (b, a));
                }
            }
        }
        assert(m1.edges =~= target.edges);
    }
}

} // verus!

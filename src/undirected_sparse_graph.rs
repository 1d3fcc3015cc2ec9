use vstd::prelude::*;

use crate::model::{ids_of, GraphModel};
use crate::Graph;

verus! {

/// An undirected graph stored as a list of edges.
///
/// Vertices are kept in insertion order, each with its handle and payload.
/// Each edge is a pair of live handles, in either orientation; the list may
/// hold the same edge more than once, and two handles are adjacent when at
/// least one stored pair joins them.
#[derive(Clone, Debug)]
pub struct UndirectedSparseGraph<T: Clone> {
    vertices: Vec<(usize, T)>,
    edges: Vec<(usize, usize)>,
    next_id: usize,
}

/// Keeps the pairs that do not touch handle `h`.
spec fn avoids(h: usize) -> spec_fn((usize, usize)) -> bool {
    |e: (usize, usize)| e.0 != h && e.1 != h
}

/// Keeps the pairs that join neither `a` to `b` nor `b` to `a`.
spec fn other_than(a: usize, b: usize) -> spec_fn((usize, usize)) -> bool {
    |e: (usize, usize)| e != (a, b) && e != (b, a)
}

impl<T: Clone> UndirectedSparseGraph<T> {
    /// Whether some stored pair joins `a` and `b`, in either orientation.
    closed spec fn listed(&self, a: usize, b: usize) -> bool {
        exists|i: int|
            0 <= i < self.edges@.len() && (#[trigger] self.edges@[i] == (a, b) || self.edges@[i] == (
            b,
            a,
        ))
    }

    /// The number of pairs in the edge list, repeated edges counted each time.
    pub closed spec fn stored_edges(&self) -> nat {
        self.edges@.len()
    }

    /// Creates a graph with no vertices.
    pub fn new() -> (g: Self)
        ensures
            g.wf(),
            g.model() == GraphModel::<T>::empty(),
            g.stored_edges() == 0,
    {
        let g = UndirectedSparseGraph { vertices: Vec::new(), edges: Vec::new(), next_id: 0 };
        proof {
            assert(g.model().vertices =~= Seq::<(usize, T)>::empty());
            assert(g.model().edges =~= Set::<(usize, usize)>::empty());
        }
        g
    }

    /// The number of live vertices.
    pub fn vertex_count(&self) -> (r: usize)
        ensures
            r == self.model().vertices.len(),
    {
        self.vertices.len()
    }

    /// The number of pairs in the edge list, repeated edges counted each time.
    pub fn edge_count(&self) -> (r: usize)
        ensures
            r == self.stored_edges(),
    {
        self.edges.len()
    }

    /// The internal position of a live handle, or `None`.
    fn find_position(&self, id: usize) -> (r: Option<usize>)
        requires
            self.wf(),
        ensures
            r is Some <==> self.model().is_live(id),
            r matches Some(i) ==> i < self.vertices@.len() && self.vertices@[i as int].0 == id && i
                == self.model().position(id),
    {
        let mut i: usize = 0;
        while i < self.vertices.len()
            invariant
                self.wf(),
                0 <= i <= self.vertices@.len(),
                forall|k: int| 0 <= k < i ==> self.vertices@[k].0 != id,
            decreases self.vertices@.len() - i,
        {
            if self.vertices[i].0 == id {
                proof {
                    self.model().lemma_position(i as int);
                }
                return Some(i);
            }
            i += 1;
        }
        proof {
            let ids = self.model().ids();
            if ids.contains(id) {
                let k = ids.index_of(id);
                assert(self.vertices@[k].0 == ids[k]);
            }
        }
        None
    }

    /// The stored pairs that do not touch `h`, in order.
    fn edges_avoiding(&self, h: usize) -> (r: Vec<(usize, usize)>)
        ensures
            r@ == self.edges@.filter(avoids(h)),
    {
        let ghost keep = avoids(h);
        let mut kept: Vec<(usize, usize)> = Vec::new();
        let mut i: usize = 0;
        while i < self.edges.len()
            invariant
                0 <= i <= self.edges@.len(),
                keep == avoids(h),
                kept@ == self.edges@.take(i as int).filter(keep),
            decreases self.edges@.len() - i,
        {
            let e = self.edges[i];
            if e.0 != h && e.1 != h {
                kept.push(e);
            }
            proof {
                assert(self.edges@.take(i + 1) =~= self.edges@.take(i as int).push(e));
                self.edges@.take(i as int).lemma_filter_push(e, keep);
            }
            i += 1;
        }
        proof {
            assert(self.edges@.take(i as int) =~= self.edges@);
        }
        kept
    }

    /// The stored pairs that join neither `a` to `b` nor `b` to `a`, in order.
    fn edges_other_than(&self, a: usize, b: usize) -> (r: Vec<(usize, usize)>)
        ensures
            r@ == self.edges@.filter(other_than(a, b)),
    {
        let ghost keep = other_than(a, b);
        let mut kept: Vec<(usize, usize)> = Vec::new();
        let mut i: usize = 0;
        while i < self.edges.len()
            invariant
                0 <= i <= self.edges@.len(),
                keep == other_than(a, b),
                kept@ == self.edges@.take(i as int).filter(keep),
            decreases self.edges@.len() - i,
        {
            let e = self.edges[i];
            if !(e.0 == a && e.1 == b) && !(e.0 == b && e.1 == a) {
                kept.push(e);
            }
            proof {
                assert(self.edges@.take(i + 1) =~= self.edges@.take(i as int).push(e));
                self.edges@.take(i as int).lemma_filter_push(e, keep);
            }
            i += 1;
        }
        proof {
            assert(self.edges@.take(i as int) =~= self.edges@);
        }
        kept
    }
}

impl<T: Clone> Graph<T> for UndirectedSparseGraph<T> {
    closed spec fn model(&self) -> GraphModel<T> {
        GraphModel {
            vertices: self.vertices@,
            edges: Set::new(|e: (usize, usize)| self.listed(e.0, e.1)),
            next_id: self.next_id as nat,
        }
    }

    closed spec fn wf(&self) -> bool {
        let ids = ids_of(self.vertices@);
        &&& ids.no_duplicates()
        &&& forall|i: int|
            0 <= i < self.vertices@.len() ==> (#[trigger] self.vertices@[i]).0 < self.next_id
        &&& forall|i: int|
            0 <= i < self.edges@.len() ==> ids.contains((#[trigger] self.edges@[i]).0)
                && ids.contains(self.edges@[i].1)
    }

    proof fn lemma_wf_model(&self) {
        let m = self.model();
        assert forall|a: usize, b: usize| #[trigger] m.edges.contains((a, b)) implies m.edges.contains(
            (b, a),
        ) && m.is_live(a) && m.is_live(b) by {
            let i = choose|i: int|
                0 <= i < self.edges@.len() && (#[trigger] self.edges@[i] == (a, b) || self.edges@[i]
                    == (b, a));
            assert(self.listed(b, a));
        }
    }

    fn add_vertex(&mut self, data: T) -> (id: usize) {
        let id = self.next_id;
        let ghost old_ids = ids_of(self.vertices@);
        self.vertices.push((id, data));
        self.next_id = id + 1;
        proof {
            let ids = ids_of(self.vertices@);
            assert(ids =~= old_ids.push(id));
            assert(!old_ids.contains(id)) by {
                if old_ids.contains(id) {
                    let k = old_ids.index_of(id);
                    assert(old(self).vertices@[k].0 < id);
                }
            }
            assert forall|x: usize| old_ids.contains(x) implies ids.contains(x) by {
                let k = old_ids.index_of(x);
                assert(ids[k] == x);
            }
            assert forall|i: int, j: int|
                0 <= i < ids.len() && 0 <= j < ids.len() && i != j implies ids[i] != ids[j] by {
                if i < old_ids.len() && j < old_ids.len() {
                    assert(ids[i] == old_ids[i] && ids[j] == old_ids[j]);
                } else if i < old_ids.len() {
                    assert(old_ids.contains(ids[i]));
                } else {
                    assert(old_ids.contains(ids[j]));
                }
            }
            assert(self.wf());
            assert(self.edges == old(self).edges);
            assert forall|a: usize, b: usize| self.listed(a, b) == old(self).listed(a, b) by {}
            assert(self.model().edges =~= old(self).model().edges);
        }
        id
    }

    fn remove_vertex(&mut self, vertex_id: usize) {
        let pos = match self.find_position(vertex_id) {
            Some(p) => p,
            None => return ,
        };
        let kept = self.edges_avoiding(vertex_id);
        let ghost old_ids = ids_of(self.vertices@);
        let ghost old_edges = self.edges@;
        self.vertices.remove(pos);
        self.edges = kept;
        proof {
            let ids = ids_of(self.vertices@);
            let keep = avoids(vertex_id);
            assert(ids =~= old_ids.remove(pos as int));
            old(self).model().lemma_position(pos as int);
            assert forall|x: usize| old_ids.contains(x) && x != vertex_id implies ids.contains(x) by {
                let k = old_ids.index_of(x);
                if k < pos {
                    assert(ids[k] == x);
                } else {
                    assert(k != pos);
                    assert(ids[k - 1] == x);
                }
            }
            assert forall|i: int| 0 <= i < self.edges@.len() implies old_edges.contains(
                #[trigger] self.edges@[i],
            ) && keep(self.edges@[i]) by {
                old_edges.lemma_filter_pred(keep, i);
                old_edges.lemma_filter_contains_rev(keep, self.edges@[i]);
            }
            assert(self.wf()) by {
                assert forall|i: int, j: int|
                    0 <= i < ids.len() && 0 <= j < ids.len() && i != j implies ids[i] != ids[j] by {
                    let si = if i < pos { i } else { i + 1 };
                    let sj = if j < pos { j } else { j + 1 };
                    assert(ids[i] == old_ids[si]);
                    assert(ids[j] == old_ids[sj]);
                }
                assert forall|i: int| 0 <= i < self.vertices@.len() implies (
                #[trigger] self.vertices@[i]).0 < self.next_id by {
                    let si = if i < pos { i } else { i + 1 };
                    assert(self.vertices@[i] == old(self).vertices@[si]);
                }
                assert forall|i: int| 0 <= i < self.edges@.len() implies ids.contains(
                    (#[trigger] self.edges@[i]).0,
                ) && ids.contains(self.edges@[i].1) by {
                    let k = old_edges.index_of(self.edges@[i]);
                    assert(old_edges[k] == self.edges@[i]);
                }
            }
            let m1 = self.model();
            let target = old(self).model().remove_vertex(vertex_id);
            assert forall|e: (usize, usize)| m1.edges.contains(e) == target.edges.contains(e) by {
                if m1.edges.contains(e) {
                    let i = choose|i: int|
                        0 <= i < self.edges@.len() && (#[trigger] self.edges@[i] == (e.0, e.1)
                            || self.edges@[i] == (e.1, e.0));
                    let k = old_edges.index_of(self.edges@[i]);
                    assert(old_edges[k] == self.edges@[i]);
                }
                if target.edges.contains(e) {
                    let k = choose|k: int|
                        0 <= k < old_edges.len() && (#[trigger] old_edges[k] == (e.0, e.1)
                            || old_edges[k] == (e.1, e.0));
                    old_edges.lemma_filter_contains(keep, k);
                    let i = self.edges@.index_of(old_edges[k]);
                    assert(self.edges@[i] == old_edges[k]);
                }
            }
            assert(m1.edges =~= target.edges);
        }
    }

    fn add_edge(&mut self, vertex_id_1: usize, vertex_id_2: usize) {
        if self.find_position(vertex_id_1).is_none() || self.find_position(vertex_id_2).is_none() {
            return ;
        }
        self.edges.push((vertex_id_1, vertex_id_2));
        proof {
            let m0 = old(self).model();
            let m1 = self.model();
            let n = old(self).edges@.len() as int;
            assert forall|i: int| 0 <= i < self.edges@.len() implies ids_of(self.vertices@).contains(
                (#[trigger] self.edges@[i]).0,
            ) && ids_of(self.vertices@).contains(self.edges@[i].1) by {
                if i < n {
                    assert(self.edges@[i] == old(self).edges@[i]);
                }
            }
            let target = m0.add_edge(vertex_id_1, vertex_id_2);
            assert forall|e: (usize, usize)| m1.edges.contains(e) == target.edges.contains(e) by {
                if m1.edges.contains(e) {
                    let i = choose|i: int|
                        0 <= i < self.edges@.len() && (#[trigger] self.edges@[i] == (e.0, e.1)
                            || self.edges@[i] == (e.1, e.0));
                    if i < n {
                        assert(old(self).edges@[i] == self.edges@[i]);
                    }
                }
                if m0.edges.contains(e) {
                    let i = choose|i: int|
                        0 <= i < n && (#[trigger] old(self).edges@[i] == (e.0, e.1) || old(
                            self,
                        ).edges@[i] == (e.1, e.0));
                    assert(self.edges@[i] == old(self).edges@[i]);
                }
                if e == (vertex_id_1, vertex_id_2) || e == (vertex_id_2, vertex_id_1) {
                    assert(self.edges@[n] == (vertex_id_1, vertex_id_2));
                }
            }
            assert(m1.edges =~= target.edges);
        }
    }

    fn remove_edge(&mut self, vertex_id_1: usize, vertex_id_2: usize) {
        let kept = self.edges_other_than(vertex_id_1, vertex_id_2);
        let ghost old_edges = self.edges@;
        self.edges = kept;
        proof {
            let keep = other_than(vertex_id_1, vertex_id_2);
            let ids = ids_of(self.vertices@);
            assert forall|i: int| 0 <= i < self.edges@.len() implies old_edges.contains(
                #[trigger] self.edges@[i],
            ) && keep(self.edges@[i]) by {
                old_edges.lemma_filter_pred(keep, i);
                old_edges.lemma_filter_contains_rev(keep, self.edges@[i]);
            }
            assert forall|i: int| 0 <= i < self.edges@.len() implies ids.contains(
                (#[trigger] self.edges@[i]).0,
            ) && ids.contains(self.edges@[i].1) by {
                let k = old_edges.index_of(self.edges@[i]);
                assert(old_edges[k] == self.edges@[i]);
            }
            let m1 = self.model();
            let target = old(self).model().remove_edge(vertex_id_1, vertex_id_2);
            assert forall|e: (usize, usize)| m1.edges.contains(e) == target.edges.contains(e) by {
                if m1.edges.contains(e) {
                    let i = choose|i: int|
                        0 <= i < self.edges@.len() && (#[trigger] self.edges@[i] == (e.0, e.1)
                            || self.edges@[i] == (e.1, e.0));
                    let k = old_edges.index_of(self.edges@[i]);
                    assert(old_edges[k] == self.edges@[i]);
                }
                if target.edges.contains(e) {
                    let k = choose|k: int|
                        0 <= k < old_edges.len() && (#[trigger] old_edges[k] == (e.0, e.1)
                            || old_edges[k] == (e.1, e.0));
                    old_edges.lemma_filter_contains(keep, k);
                    let i = self.edges@.index_of(old_edges[k]);
                    assert(self.edges@[i] == old_edges[k]);
                }
            }
            assert(m1.edges =~= target.edges);
        }
    }

    fn get_vertex_data(&self, vertex_id: usize) -> (r: Option<T>) {
        match self.find_position(vertex_id) {
            Some(pos) => Some(self.vertices[pos].1.clone()),
            None => None,
        }
    }

    fn set_vertex_data(&mut self, vertex_id: usize, data: T) {
        let pos = match self.find_position(vertex_id) {
            Some(p) => p,
            None => return ,
        };
        self.vertices.set(pos, (vertex_id, data));
        proof {
            assert(ids_of(self.vertices@) =~= ids_of(old(self).vertices@));
            assert(self.wf());
            assert(self.edges == old(self).edges);
            assert forall|a: usize, b: usize| self.listed(a, b) == old(self).listed(a, b) by {}
            assert(self.model().edges =~= old(self).model().edges);
        }
    }

    fn is_adjacent(&self, vertex_id_1: usize, vertex_id_2: usize) -> (r: bool) {
        let mut i: usize = 0;
        while i < self.edges.len()
            invariant
                0 <= i <= self.edges@.len(),
                forall|k: int|
                    0 <= k < i ==> #[trigger] self.edges@[k] != (vertex_id_1, vertex_id_2)
                        && self.edges@[k] != (vertex_id_2, vertex_id_1),
            decreases self.edges@.len() - i,
        {
            let e = self.edges[i];
            if (e.0 == vertex_id_1 && e.1 == vertex_id_2) || (e.0 == vertex_id_2 && e.1
                == vertex_id_1) {
                proof {
                    assert(self.listed(vertex_id_1, vertex_id_2));
                }
                return true;
            }
            i += 1;
        }
        false
    }

    fn get_neighbors(&self, vertex_id: usize) -> (r: Vec<usize>) {
        let ghost ids = self.model().ids();
        let ghost near = self.model().adjacent_to(vertex_id);
        let mut res: Vec<usize> = Vec::new();
        let mut i: usize = 0;
        while i < self.vertices.len()
            invariant
                self.wf(),
                ids == self.model().ids(),
                near == self.model().adjacent_to(vertex_id),
                0 <= i <= ids.len(),
                res@ == ids.take(i as int).filter(near),
            decreases ids.len() - i,
        {
            let other_id = self.vertices[i].0;
            let adjacent = self.is_adjacent(vertex_id, other_id);
            if adjacent {
                res.push(other_id);
            }
            proof {
                assert(ids.take(i + 1) =~= ids.take(i as int).push(other_id));
                ids.take(i as int).lemma_filter_push(other_id, near);
            }
            i += 1;
        }
        proof {
            assert(ids.take(i as int) =~= ids);
        }
        res
    }
}

} // verus!

use vstd::prelude::*;

use crate::model::{GraphModel, GraphOp};
use crate::Graph;

verus! {

/// No operation lowers the handle counter, and each vertex addition raises
/// it by one.
proof fn lemma_counter_grows<T>(m: GraphModel<T>, ops: Seq<GraphOp<T>>, i: int, j: int)
    requires
        0 <= i <= j <= ops.len(),
    ensures
        m.run(ops.take(i)).next_id <= m.run(ops.take(j)).next_id,
        i < j && ops[i] is AddVertex ==> m.run(ops.take(i)).next_id < m.run(ops.take(j)).next_id,
    decreases j - i,
{
    if i < j {
        lemma_counter_grows(m, ops, i, j - 1);
        assert(ops.take(j).drop_last() =~= ops.take(j - 1));
        if i == j - 1 {
            assert(ops.take(j).last() == ops[i]);
        }
    }
}

/// Over any sequence of operations, the handles that two vertex additions
/// return are distinct, and the later one is the larger: an addition returns
/// the counter of the graph it acts on.
pub proof fn lemma_handles_strictly_increase<T>(
    m: GraphModel<T>,
    ops: Seq<GraphOp<T>>,
    i: int,
    j: int,
)
    requires
        0 <= i < j < ops.len(),
        ops[i] is AddVertex,
        ops[j] is AddVertex,
    ensures
        m.run(ops.take(i)).next_id < m.run(ops.take(j)).next_id,
{
    lemma_counter_grows(m, ops, i, j);
}

/// Adding a vertex makes its new handle live and leaves every other handle
/// as live, or not, as it was; the new vertex carries the given payload.
pub proof fn lemma_added_vertex_live<T>(m: GraphModel<T>, data: T, x: usize)
    requires
        m.wf(),
        m.next_id < usize::MAX,
    ensures
        m.add_vertex(data).is_live(x) == (m.is_live(x) || x == m.next_id),
        m.add_vertex(data).vertex_data(m.next_id as usize) == Some(data),
{
    let r = m.add_vertex(data);
    let n = m.vertices.len() as int;
    assert(r.ids() =~= m.ids().push(m.next_id as usize));
    assert(r.ids()[n] == m.next_id);
    if m.is_live(x) {
        let k = m.ids().index_of(x);
        assert(r.ids()[k] == x);
    }
    if r.is_live(x) && x != m.next_id {
        let k = r.ids().index_of(x);
        assert(m.ids()[k] == x);
    }
    assert(!m.is_live(m.next_id as usize)) by {
        if m.is_live(m.next_id as usize) {
            let k = m.ids().index_of(m.next_id as usize);
            assert(m.vertices[k].0 < m.next_id);
        }
    }
    assert(r.ids().no_duplicates()) by {
        assert forall|i: int, j: int|
            0 <= i < r.ids().len() && 0 <= j < r.ids().len() && i != j implies r.ids()[i]
            != r.ids()[j] by {
            if i < n && j < n {
                assert(r.ids()[i] == m.ids()[i] && r.ids()[j] == m.ids()[j]);
            } else if i < n {
                assert(m.ids().contains(r.ids()[i]));
            } else {
                assert(m.ids().contains(r.ids()[j]));
            }
        }
    }
    r.lemma_position(n);
}

/// Adjacency is symmetric, and a handle that is not live is adjacent to
/// nothing.
pub proof fn lemma_adjacency_symmetric<T>(m: GraphModel<T>, a: usize, b: usize)
    requires
        m.wf(),
    ensures
        m.adjacent(a, b) == m.adjacent(b, a),
        !m.is_live(a) ==> !m.adjacent(a, b),
{
}

/// Joining two live vertices keeps the graph well formed.
pub proof fn lemma_add_edge_wf<T>(m: GraphModel<T>, a: usize, b: usize)
    requires
        m.wf(),
    ensures
        m.add_edge(a, b).wf(),
{
}

/// After an edge is added between live vertices they are adjacent, both
/// ways; after that edge is removed again they are not.
pub proof fn lemma_add_then_remove_edge<T>(m: GraphModel<T>, a: usize, b: usize)
    requires
        m.wf(),
        m.is_live(a),
        m.is_live(b),
    ensures
        m.add_edge(a, b).adjacent(a, b),
        m.add_edge(a, b).adjacent(b, a),
        !m.add_edge(a, b).remove_edge(a, b).adjacent(a, b),
        !m.add_edge(a, b).remove_edge(a, b).adjacent(b, a),
{
}

/// After a vertex is removed its handle has no payload and is adjacent to
/// no vertex, either way.
pub proof fn lemma_removed_vertex_gone<T>(m: GraphModel<T>, v: usize, w: usize)
    requires
        m.wf(),
    ensures
        m.remove_vertex(v).vertex_data(v) is None,
        !m.remove_vertex(v).is_live(v),
        !m.remove_vertex(v).adjacent(v, w),
        !m.remove_vertex(v).adjacent(w, v),
{
    if m.is_live(v) {
        let pos = m.position(v);
        let r = m.remove_vertex(v);
        assert(r.ids() =~= m.ids().remove(pos));
        if r.is_live(v) {
            let k = r.ids().index_of(v);
            let sk = if k < pos {
                k
            } else {
                k + 1
            };
            assert(m.ids()[sk] == v);
        }
    }
}

/// A filter of a sequence without duplicates has none either.
proof fn lemma_filter_no_duplicates(s: Seq<usize>, keep: spec_fn(usize) -> bool)
    requires
        s.no_duplicates(),
    ensures
        s.filter(keep).no_duplicates(),
    decreases s.len(),
{
    broadcast use vstd::seq_lib::group_filter_ensures;

    if s.len() > 0 {
        let init = s.drop_last();
        assert(init.no_duplicates());
        lemma_filter_no_duplicates(init, keep);
        assert(s =~= init.push(s.last()));
        init.lemma_filter_push(s.last(), keep);
        if keep(s.last()) {
            assert(!init.filter(keep).contains(s.last())) by {
                if init.filter(keep).contains(s.last()) {
                    init.lemma_filter_contains_rev(keep, s.last());
                    let k = init.index_of(s.last());
                    assert(s[k] == init[k]);
                    assert(s[k] == s[s.len() - 1]);
                }
            }
        }
    }
}

/// The neighbours of `v` are exactly the vertices adjacent to it, each
/// listed once.
pub proof fn lemma_neighbors_exact<T>(m: GraphModel<T>, v: usize, w: usize)
    requires
        m.wf(),
    ensures
        m.neighbors(v).contains(w) <==> m.adjacent(v, w),
        m.neighbors(v).no_duplicates(),
{
    broadcast use vstd::seq_lib::group_filter_ensures;

    lemma_filter_no_duplicates(m.ids(), m.adjacent_to(v));
    if m.adjacent(v, w) {
        let k = m.ids().index_of(w);
        m.ids().lemma_filter_contains(m.adjacent_to(v), k);
    }
}

/// An isolated vertex has no neighbours; a vertex adjacent to exactly `a`
/// and `b` has those two as its neighbours, each once.
pub proof fn lemma_neighbors_of_two<T>(m: GraphModel<T>, v: usize, a: usize, b: usize)
    requires
        m.wf(),
    ensures
        (forall|w: usize| !m.adjacent(v, w)) ==> m.neighbors(v).len() == 0,
        (forall|w: usize| m.adjacent(v, w) <==> (w == a || w == b)) ==> m.neighbors(v).to_set()
            == set![a, b] && m.neighbors(v).no_duplicates(),
{
    let ns = m.neighbors(v);
    if forall|w: usize| !m.adjacent(v, w) {
        if ns.len() > 0 {
            lemma_neighbors_exact(m, v, ns[0]);
        }
    }
    if forall|w: usize| m.adjacent(v, w) <==> (w == a || w == b) {
        lemma_neighbors_exact(m, v, a);
        assert forall|w: usize| ns.to_set().contains(w) == set![a, b].contains(w) by {
            lemma_neighbors_exact(m, v, w);
        }
        assert(ns.to_set() =~= set![a, b]);
    }
}

/// A self-loop makes a live vertex adjacent to itself and one of its own
/// neighbours.
pub proof fn lemma_self_loop<T>(m: GraphModel<T>, v: usize)
    requires
        m.wf(),
        m.is_live(v),
    ensures
        m.add_edge(v, v).adjacent(v, v),
        m.add_edge(v, v).neighbors(v).contains(v),
{
    lemma_add_edge_wf(m, v, v);
    lemma_neighbors_exact(m.add_edge(v, v), v, v);
}

/// Two engines that hold the same abstract graph and receive the same
/// operations hold the same abstract graph afterwards, since the contract of
/// [`Graph`] gives every engine's operations by the same transitions; so
/// they report the same live handles, payloads, adjacency and neighbours.
pub proof fn lemma_engines_agree<T: Clone, G: Graph<T>, H: Graph<T>>(
    g: &G,
    h: &H,
    ops: Seq<GraphOp<T>>,
    a: usize,
    b: usize,
)
    requires
        g.model() == h.model(),
    ensures
        g.model().run(ops) == h.model().run(ops),
        g.model().run(ops).ids() == h.model().run(ops).ids(),
        g.model().run(ops).vertex_data(a) == h.model().run(ops).vertex_data(a),
        g.model().run(ops).adjacent(a, b) == h.model().run(ops).adjacent(a, b),
        g.model().run(ops).neighbors(a) == h.model().run(ops).neighbors(a),
{
}

} // verus!

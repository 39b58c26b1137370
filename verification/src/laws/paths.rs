//! What is promised of the ways through the graph: which nodes an edge leads on to, and
//! when no way leads back.

use vstd::prelude::*;

use crate::store::cycles::{acyclic, is_path, leads, linked, reaches, steps};
use crate::store::model::EdgeView;

verus! {

/// A node reaches itself, and an edge leads from its beginning to its end.
pub proof fn edges_lead_on(edges: Seq<EdgeView>, a: Seq<char>, k: int)
    ensures
        reaches(edges, a, a),
        0 <= k < edges.len() ==> reaches(edges, edges[k].von, edges[k].zu),
{
    assert(leads(edges, seq![a], a, a));
    if 0 <= k < edges.len() {
        let p = seq![edges[k].von, edges[k].zu];
        assert forall|i: int| 0 <= i < p.len() - 1 implies #[trigger] steps(edges, p, i) by {
            assert(linked(edges, edges[k].von, edges[k].zu));
        }
        assert(leads(edges, p, edges[k].von, edges[k].zu));
    }
}

/// Ways can be put one behind the other.
pub proof fn ways_go_on(edges: Seq<EdgeView>, a: Seq<char>, b: Seq<char>, c: Seq<char>)
    requires
        reaches(edges, a, b),
        reaches(edges, b, c),
    ensures
        reaches(edges, a, c),
{
    let p = choose|p: Seq<Seq<char>>| leads(edges, p, a, b);
    let q = choose|q: Seq<Seq<char>>| leads(edges, q, b, c);
    let r = p + q.skip(1);
    assert forall|i: int| 0 <= i < r.len() - 1 implies #[trigger] steps(edges, r, i) by {
        if i < p.len() - 1 {
            assert(steps(edges, p, i));
            assert(r[i] == p[i] && r[i + 1] == p[i + 1]);
        } else {
            let j = i - p.len() + 1;
            assert(steps(edges, q, j));
            assert(r[i + 1] == q[j + 1]);
            assert(r[i] == q[j]);
        }
    }
    assert(r.last() == c) by {
        if q.len() == 1 {
            assert(r =~= p);
            assert(q[0] == q.last());
        } else {
            assert(r.last() == q.last());
        }
    }
    assert(leads(edges, r, a, c));
}

/// Nothing is reached but by edges: what holds of a node and is handed on by every edge
/// holds of all that the node reaches.
pub proof fn only_edges_lead_on(
    edges: Seq<EdgeView>,
    a: Seq<char>,
    b: Seq<char>,
    holds: spec_fn(Seq<char>) -> bool,
)
    requires
        reaches(edges, a, b),
        holds(a),
        forall|k: int|
            0 <= k < edges.len() && holds((#[trigger] edges[k]).von) ==> holds(edges[k].zu),
    ensures
        holds(b),
{
    let p = choose|p: Seq<Seq<char>>| leads(edges, p, a, b);
    lemma_handed_on(edges, p, holds, p.len() - 1);
}

proof fn lemma_handed_on(
    edges: Seq<EdgeView>,
    p: Seq<Seq<char>>,
    holds: spec_fn(Seq<char>) -> bool,
    i: int,
)
    requires
        is_path(edges, p),
        0 <= i < p.len(),
        holds(p[0]),
        forall|k: int|
            0 <= k < edges.len() && holds((#[trigger] edges[k]).von) ==> holds(edges[k].zu),
    ensures
        holds(p[i]),
    decreases i,
{
    if i > 0 {
        lemma_handed_on(edges, p, holds, i - 1);
        assert(steps(edges, p, i - 1));
        let k = choose|k: int|
            0 <= k < edges.len() && (#[trigger] edges[k]).von == p[i - 1] && edges[k].zu == p[i];
        assert(holds(edges[k].von));
    }
}

/// There is a cycle where the end of some edge reaches its beginning, and only there.
pub proof fn cycles_close_at_an_edge(edges: Seq<EdgeView>)
    ensures
        acyclic(edges) <==> forall|k: int|
            0 <= k < edges.len() ==> !reaches(edges, (#[trigger] edges[k]).zu, edges[k].von),
{
    if acyclic(edges) {
        assert forall|k: int| 0 <= k < edges.len() implies !reaches(
            edges,
            (#[trigger] edges[k]).zu,
            edges[k].von,
        ) by {
            if reaches(edges, edges[k].zu, edges[k].von) {
                let q = choose|q: Seq<Seq<char>>| leads(edges, q, edges[k].zu, edges[k].von);
                let r = seq![edges[k].von] + q;
                assert forall|i: int| 0 <= i < r.len() - 1 implies #[trigger] steps(
                    edges,
                    r,
                    i,
                ) by {
                    if i == 0 {
                        assert(linked(edges, edges[k].von, edges[k].zu));
                    } else {
                        assert(steps(edges, q, i - 1));
                    }
                }
                assert(is_path(edges, r));
                assert(r.last() == q.last());
            }
        }
    }
    if forall|k: int|
        0 <= k < edges.len() ==> !reaches(edges, (#[trigger] edges[k]).zu, edges[k].von) {
        assert forall|p: Seq<Seq<char>>| #[trigger] is_path(edges, p) && p.len() >= 2 implies p[0]
            != p.last() by {
            if p[0] == p.last() {
                assert(steps(edges, p, 0));
                let k = choose|k: int|
                    0 <= k < edges.len() && (#[trigger] edges[k]).von == p[0] && edges[k].zu
                        == p[1];
                let q = p.skip(1);
                assert forall|i: int| 0 <= i < q.len() - 1 implies #[trigger] steps(
                    edges,
                    q,
                    i,
                ) by {
                    assert(steps(edges, p, i + 1));
                }
                assert(q.last() == p.last());
                assert(leads(edges, q, edges[k].zu, edges[k].von));
            }
        }
    }
}

/// Edges that lead downwards, in some order of the nodes, close no cycle.
pub proof fn downward_edges_close_no_cycle(edges: Seq<EdgeView>, rank: spec_fn(Seq<char>) -> int)
    requires
        forall|k: int|
            0 <= k < edges.len() ==> rank((#[trigger] edges[k]).von) > rank(edges[k].zu),
    ensures
        acyclic(edges),
{
    cycles_close_at_an_edge(edges);
    assert forall|k: int| 0 <= k < edges.len() implies !reaches(
        edges,
        (#[trigger] edges[k]).zu,
        edges[k].von,
    ) by {
        if reaches(edges, edges[k].zu, edges[k].von) {
            let low = rank(edges[k].zu);
            only_edges_lead_on(
                edges,
                edges[k].zu,
                edges[k].von,
                |id: Seq<char>| rank(id) <= low,
            );
        }
    }
}

} // verus!

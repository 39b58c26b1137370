//! What a whole wave of scoring comes to, whoever does the arithmetic.

use vstd::prelude::*;

use crate::seqs::{lemma_filter_push, lemma_filter_sound};
use crate::store::model::{EdgeView, GraphView, NodeView};
use crate::store::order::{among, evidence_first, lists_nodes};
use crate::store::scoring::{
    evidence, last_position, outcome_of, replaces, rescored, score_so_far, task_at, task_of,
    Outcome, ScoringView, TaskView,
};

verus! {

/// The wave over the first `n` nodes of an order, where `work` is the arithmetic.
pub open spec fn wave(
    g: GraphView,
    order: Seq<Seq<char>>,
    work: spec_fn(TaskView) -> Outcome,
    n: int,
) -> ScoringView
    decreases n,
{
    if n <= 0 {
        ScoringView { order, outcomes: Seq::empty() }
    } else {
        let s = wave(g, order, work, n - 1);
        match task_at(g, s) {
            Some(t) => ScoringView { outcomes: s.outcomes.push(work(t)), ..s },
            None => s,
        }
    }
}

/// The edges that are evidence.
pub open spec fn evidence_edges(edges: Seq<EdgeView>) -> Seq<EdgeView> {
    edges.filter(|e: EdgeView| !replaces(e.polaritaet))
}

/// The order of the wave does not matter, as long as evidence comes first: each node asks
/// for the same sums, and comes to the same score and status.
pub proof fn order_does_not_matter(
    g: GraphView,
    a: Seq<Seq<char>>,
    b: Seq<Seq<char>>,
    work: spec_fn(TaskView) -> Outcome,
)
    requires
        lists_nodes(g, a),
        lists_nodes(g, b),
        evidence_first(g, a),
        evidence_first(g, b),
    ensures
        ({
            let s = wave(g, a, work, a.len() as int);
            let t = wave(g, b, work, b.len() as int);
            &&& forall|id: Seq<char>| #[trigger] outcome_of(s, id, 0) == outcome_of(t, id, 0)
            &&& forall|n: NodeView| #[trigger] task_of(g, s, n) == task_of(g, t, n)
            &&& rescored(g, s) == rescored(g, t)
        }),
{
    let s = wave(g, a, work, a.len() as int);
    let t = wave(g, b, work, b.len() as int);
    lemma_waves_agree(g, g, a, b, work);
    assert forall|n: NodeView| #[trigger] task_of(g, s, n) == task_of(g, t, n) by {
        lemma_task_same(g, g, s, t, n);
    }
    assert(rescored(g, s).nodes =~= rescored(g, t).nodes);
}

/// An edge by which one node takes the place of another is no evidence: with such edges
/// or without, each node asks for the same sums and comes to the same score.
pub proof fn replacing_leaves_scores_alone(
    g: GraphView,
    h: GraphView,
    a: Seq<Seq<char>>,
    b: Seq<Seq<char>>,
    work: spec_fn(TaskView) -> Outcome,
)
    requires
        h.nodes == g.nodes,
        evidence_edges(h.edges) == evidence_edges(g.edges),
        lists_nodes(g, a),
        lists_nodes(h, b),
        evidence_first(g, a),
        evidence_first(h, b),
    ensures
        ({
            let s = wave(g, a, work, a.len() as int);
            let t = wave(h, b, work, b.len() as int);
            &&& forall|n: NodeView| #[trigger] task_of(g, s, n) == task_of(h, t, n)
            &&& forall|i: int|
                0 <= i < g.nodes.len() ==> (#[trigger] rescored(g, s).nodes[i]).score == rescored(
                    h,
                    t,
                ).nodes[i].score
        }),
{
    let s = wave(g, a, work, a.len() as int);
    let t = wave(h, b, work, b.len() as int);
    lemma_waves_agree(g, h, a, b, work);
    assert forall|n: NodeView| #[trigger] task_of(g, s, n) == task_of(h, t, n) by {
        lemma_task_same(g, h, s, t, n);
    }
}

// ---- what a node is given ----

/// Edges that are no evidence can be left out.
proof fn lemma_evidence_edges(
    edges: Seq<EdgeView>,
    s: ScoringView,
    id: Seq<char>,
    against: bool,
    n: int,
)
    requires
        0 <= n <= edges.len(),
    ensures
        evidence(edges, s, id, against, n) == evidence(
            evidence_edges(edges.take(n)),
            s,
            id,
            against,
            evidence_edges(edges.take(n)).len() as int,
        ),
    decreases n,
{
    let q = |e: EdgeView| !replaces(e.polaritaet);
    if n > 0 {
        lemma_evidence_edges(edges, s, id, against, n - 1);
        let before = evidence_edges(edges.take(n - 1));
        let e = edges[n - 1];
        assert(edges.take(n) =~= edges.take(n - 1).push(e));
        lemma_filter_push(edges.take(n - 1), e, q);
        if q(e) {
            let all = before.push(e);
            assert(all.take(before.len() as int) =~= before.take(before.len() as int));
            lemma_evidence_take(all, before, s, id, against, before.len() as int);
        }
    } else {
        reveal(Seq::filter);
        assert(edges.take(0) =~= Seq::empty());
    }
}

/// Only the first `n` edges count.
proof fn lemma_evidence_take(
    x: Seq<EdgeView>,
    y: Seq<EdgeView>,
    s: ScoringView,
    id: Seq<char>,
    against: bool,
    n: int,
)
    requires
        0 <= n <= x.len(),
        n <= y.len(),
        x.take(n) == y.take(n),
    ensures
        evidence(x, s, id, against, n) == evidence(y, s, id, against, n),
    decreases n,
{
    if n > 0 {
        assert(x.take(n)[n - 1] == y.take(n)[n - 1]);
        assert(x.take(n - 1) =~= x.take(n).take(n - 1));
        assert(y.take(n - 1) =~= y.take(n).take(n - 1));
        lemma_evidence_take(x, y, s, id, against, n - 1);
    }
}

proof fn lemma_evidence_same(
    edges: Seq<EdgeView>,
    s: ScoringView,
    t: ScoringView,
    id: Seq<char>,
    against: bool,
    n: int,
)
    requires
        0 <= n <= edges.len(),
        forall|k: int|
            0 <= k < edges.len() && (#[trigger] edges[k]).von == id ==> score_so_far(
                s,
                edges[k].zu,
            ) == score_so_far(t, edges[k].zu),
    ensures
        evidence(edges, s, id, against, n) == evidence(edges, t, id, against, n),
    decreases n,
{
    if n > 0 {
        lemma_evidence_same(edges, s, t, id, against, n - 1);
        assert(edges[n - 1].von == id ==> score_so_far(s, edges[n - 1].zu) == score_so_far(
            t,
            edges[n - 1].zu,
        ));
    }
}

/// Two graphs with the same nodes and evidence ask the same of a node, where the scores of
/// what bears on it are the same.
proof fn lemma_task_same(g: GraphView, h: GraphView, s: ScoringView, t: ScoringView, n: NodeView)
    requires
        h.nodes == g.nodes,
        evidence_edges(h.edges) == evidence_edges(g.edges),
        forall|k: int|
            0 <= k < g.edges.len() && (#[trigger] g.edges[k]).von == n.id && !replaces(
                g.edges[k].polaritaet,
            ) ==> score_so_far(s, g.edges[k].zu) == score_so_far(t, g.edges[k].zu),
    ensures
        task_of(g, s, n) == task_of(h, t, n),
{
    let f = evidence_edges(g.edges);
    let q = |e: EdgeView| !replaces(e.polaritaet);
    lemma_filter_sound(g.edges, q);
    assert forall|k: int| 0 <= k < f.len() && (#[trigger] f[k]).von == n.id implies score_so_far(
        s,
        f[k].zu,
    ) == score_so_far(t, f[k].zu) by {
        assert(g.edges.contains(f[k]) && q(f[k]));
        let j = choose|j: int| 0 <= j < g.edges.len() && g.edges[j] == f[k];
        assert(g.edges[j].von == n.id);
    }
    assert(g.edges.take(g.edges.len() as int) =~= g.edges);
    assert(h.edges.take(h.edges.len() as int) =~= h.edges);
    lemma_evidence_edges(g.edges, s, n.id, false, g.edges.len() as int);
    lemma_evidence_edges(g.edges, s, n.id, true, g.edges.len() as int);
    lemma_evidence_edges(h.edges, t, n.id, false, h.edges.len() as int);
    lemma_evidence_edges(h.edges, t, n.id, true, h.edges.len() as int);
    lemma_evidence_same(f, s, t, n.id, false, f.len() as int);
    lemma_evidence_same(f, s, t, n.id, true, f.len() as int);
}

// ---- the outcomes of a wave ----

proof fn lemma_has_position(nodes: Seq<NodeView>, id: Seq<char>, i: int, n: int)
    requires
        0 <= i < n <= nodes.len(),
        nodes[i].id == id,
    ensures
        last_position(nodes, id, n) matches Some(k) && 0 <= k < n && nodes[k].id == id,
    decreases n,
{
    if nodes[n - 1].id != id {
        lemma_has_position(nodes, id, i, n - 1);
    }
}

/// The node that an id stands for in the wave.
spec fn node_of(g: GraphView, id: Seq<char>) -> NodeView {
    g.nodes[last_position(g.nodes, id, g.nodes.len() as int)->0]
}

proof fn lemma_node_of(g: GraphView, id: Seq<char>)
    requires
        g.has_node(id),
    ensures
        last_position(g.nodes, id, g.nodes.len() as int) is Some,
        node_of(g, id).id == id,
{
    let i = choose|i: int| 0 <= i < g.nodes.len() && (#[trigger] g.nodes[i]).id == id;
    lemma_has_position(g.nodes, id, i, g.nodes.len() as int);
}

/// Each step adds the outcome of the next node.
proof fn lemma_wave(
    g: GraphView,
    order: Seq<Seq<char>>,
    work: spec_fn(TaskView) -> Outcome,
    n: int,
)
    requires
        lists_nodes(g, order),
        0 <= n <= order.len(),
    ensures
        wave(g, order, work, n).order == order,
        wave(g, order, work, n).outcomes.len() == n,
        forall|k: int|
            0 <= k < n ==> #[trigger] wave(g, order, work, n).outcomes[k] == work(
                task_of(g, wave(g, order, work, k), node_of(g, order[k])),
            ),
    decreases n,
{
    if n > 0 {
        lemma_wave(g, order, work, n - 1);
        let id = order[n - 1];
        assert(order.contains(id));
        lemma_node_of(g, id);
        let s = wave(g, order, work, n - 1);
        let t = wave(g, order, work, n);
        assert(task_at(g, s) == Some(task_of(g, s, node_of(g, id))));
        assert forall|k: int| 0 <= k < n implies #[trigger] t.outcomes[k] == work(
            task_of(g, wave(g, order, work, k), node_of(g, order[k])),
        ) by {
            if k < n - 1 {
                assert(t.outcomes[k] == s.outcomes[k]);
            }
        }
    }
}

/// The outcome that stands at the place of an id in the order.
pub proof fn lemma_outcome_at(s: ScoringView, k: int, from: int)
    requires
        s.order.no_duplicates(),
        0 <= from <= k < s.order.len(),
    ensures
        outcome_of(s, s.order[k], from) == (if k < s.outcomes.len() {
            Some(s.outcomes[k])
        } else {
            None
        }),
    decreases s.order.len() - from,
{
    if from < k && from < s.outcomes.len() {
        assert(s.order[from] != s.order[k]);
        lemma_outcome_at(s, k, from + 1);
    }
}

proof fn lemma_no_outcome(s: ScoringView, id: Seq<char>, from: int)
    requires
        !s.order.contains(id),
        0 <= from,
    ensures
        outcome_of(s, id, from) is None,
    decreases s.outcomes.len() - from,
{
    if from < s.outcomes.len() && from < s.order.len() {
        assert(s.order[from] != id);
        lemma_no_outcome(s, id, from + 1);
    }
}

/// In the whole wave each outcome is that of the task which the whole wave lays out.
proof fn lemma_outcomes_fit(
    g: GraphView,
    order: Seq<Seq<char>>,
    work: spec_fn(TaskView) -> Outcome,
    k: int,
)
    requires
        lists_nodes(g, order),
        evidence_first(g, order),
        0 <= k < order.len(),
    ensures
        ({
            let w = wave(g, order, work, order.len() as int);
            outcome_of(w, order[k], 0) == Some(work(task_of(g, w, node_of(g, order[k]))))
        }),
{
    let w = wave(g, order, work, order.len() as int);
    let s = wave(g, order, work, k);
    let id = order[k];
    lemma_wave(g, order, work, order.len() as int);
    lemma_wave(g, order, work, k);
    lemma_outcome_at(w, k, 0);
    assert(w.outcomes[k] == work(task_of(g, s, node_of(g, id))));
    assert(order.contains(id));
    lemma_node_of(g, id);
    assert forall|j: int|
        0 <= j < g.edges.len() && (#[trigger] g.edges[j]).von == id && !replaces(
            g.edges[j].polaritaet,
        ) implies score_so_far(s, g.edges[j].zu) == score_so_far(w, g.edges[j].zu) by {
        let zu = g.edges[j].zu;
        if g.has_node(zu) {
            assert(among(order, k, zu));
            let m = choose|m: int| 0 <= m < k && m < order.len() && #[trigger] order[m] == zu;
            lemma_outcome_at(w, m, 0);
            lemma_outcome_at(s, m, 0);
            assert(w.outcomes[m] == work(task_of(g, wave(g, order, work, m), node_of(g, order[m]))));
            assert(s.outcomes[m] == work(task_of(g, wave(g, order, work, m), node_of(g, order[m]))));
        } else {
            lemma_no_outcome(w, zu, 0);
            lemma_no_outcome(s, zu, 0);
        }
    }
    lemma_task_same(g, g, s, w, node_of(g, id));
}

/// Whole waves over the same nodes and evidence come to the same outcomes.
proof fn lemma_waves_agree(
    g: GraphView,
    h: GraphView,
    a: Seq<Seq<char>>,
    b: Seq<Seq<char>>,
    work: spec_fn(TaskView) -> Outcome,
)
    requires
        h.nodes == g.nodes,
        evidence_edges(h.edges) == evidence_edges(g.edges),
        lists_nodes(g, a),
        lists_nodes(h, b),
        evidence_first(g, a),
        evidence_first(h, b),
    ensures
        forall|id: Seq<char>| #[trigger]
            outcome_of(wave(g, a, work, a.len() as int), id, 0) == outcome_of(
                wave(h, b, work, b.len() as int),
                id,
                0,
            ),
{
    let s = wave(g, a, work, a.len() as int);
    let t = wave(h, b, work, b.len() as int);
    lemma_wave(g, a, work, a.len() as int);
    lemma_wave(h, b, work, b.len() as int);
    assert forall|id: Seq<char>| #[trigger] outcome_of(s, id, 0) == outcome_of(t, id, 0) by {
        assert(g.has_node(id) == h.has_node(id));
        if g.has_node(id) {
            assert(a.contains(id));
            let k = choose|k: int| 0 <= k < a.len() && a[k] == id;
            lemma_agree_up_to(g, h, a, b, work, k + 1);
        } else {
            lemma_no_outcome(s, id, 0);
            lemma_no_outcome(t, id, 0);
        }
    }
}

proof fn lemma_agree_up_to(
    g: GraphView,
    h: GraphView,
    a: Seq<Seq<char>>,
    b: Seq<Seq<char>>,
    work: spec_fn(TaskView) -> Outcome,
    n: int,
)
    requires
        h.nodes == g.nodes,
        evidence_edges(h.edges) == evidence_edges(g.edges),
        lists_nodes(g, a),
        lists_nodes(h, b),
        evidence_first(g, a),
        evidence_first(h, b),
        0 <= n <= a.len(),
    ensures
        forall|k: int|
            0 <= k < n ==> outcome_of(
                wave(g, a, work, a.len() as int),
                #[trigger] a[k],
                0,
            ) == outcome_of(wave(h, b, work, b.len() as int), a[k], 0),
    decreases n,
{
    if n > 0 {
        lemma_agree_up_to(g, h, a, b, work, n - 1);
        let s = wave(g, a, work, a.len() as int);
        let t = wave(h, b, work, b.len() as int);
        lemma_wave(g, a, work, a.len() as int);
        lemma_wave(h, b, work, b.len() as int);
        let id = a[n - 1];
        assert(a.contains(id));
        assert(g.has_node(id) && h.has_node(id));
        assert(b.contains(id));
        let m = choose|m: int| 0 <= m < b.len() && b[m] == id;
        lemma_outcomes_fit(g, a, work, n - 1);
        lemma_outcomes_fit(h, b, work, m);
        lemma_node_of(g, id);
        assert(node_of(g, id) == node_of(h, id));
        assert forall|j: int|
            0 <= j < g.edges.len() && (#[trigger] g.edges[j]).von == id && !replaces(
                g.edges[j].polaritaet,
            ) implies score_so_far(s, g.edges[j].zu) == score_so_far(t, g.edges[j].zu) by {
            let zu = g.edges[j].zu;
            assert(g.has_node(zu) == h.has_node(zu));
            if g.has_node(zu) {
                assert(among(a, n - 1, zu));
                let k = choose|k: int|
                    0 <= k < n - 1 && k < a.len() && #[trigger] a[k] == zu;
            } else {
                lemma_no_outcome(s, zu, 0);
                lemma_no_outcome(t, zu, 0);
            }
        }
        lemma_task_same(g, h, s, t, node_of(g, id));
    }
}

} // verus!

//! What scoring promises, in terms of the nodes and edges alone.

use vstd::prelude::*;

use crate::score::Score;
use crate::seqs::lemma_filter_push;
use crate::store::model::{EdgeView, GraphView, NodeType, NodeView};
use crate::store::order::{
    among, evidence_first, evidence_first_off_cycles, lists_nodes, reaches_no_cycle,
};
use crate::store::scoring::{
    answers, balance_status, evidence, last_position, outcome_of, replaces, rescored, score_so_far,
    speaks_against, task_at, Balance, ScoringView,
};
use crate::store::wave::lemma_outcome_at;

verus! {

/// The outcome at position `k` is that of the node at position `i`, and of no other node.
pub open spec fn outcome_is_for(g: GraphView, s: ScoringView, i: int, k: int) -> bool {
    &&& 0 <= i < g.nodes.len()
    &&& forall|j: int| 0 <= j < g.nodes.len() && j != i ==> (#[trigger] g.nodes[j]).id
        != g.nodes[i].id
    &&& s.order.no_duplicates()
    &&& 0 <= k < s.order.len()
    &&& k < s.outcomes.len()
    &&& s.order[k] == g.nodes[i].id
}

/// The node is neither retired nor carried out, and none takes its place.
pub open spec fn is_live(g: GraphView, i: int) -> bool {
    &&& !g.nodes[i].ueberholt
    &&& !g.nodes[i].erledigt
    &&& forall|e: int|
        0 <= e < g.edges.len() && (#[trigger] g.edges[e]).zu == g.nodes[i].id
            ==> g.edges[e].polaritaet != "replaces"@ && g.edges[e].polaritaet != "ersetzt"@
}

proof fn lemma_statuses_differ()
    ensures
        "supported"@ != "refuted"@,
        "supported"@ != "disputed"@,
        "supported"@ != "unsupported"@,
        "refuted"@ != "disputed"@,
        "refuted"@ != "unsupported"@,
        "disputed"@ != "unsupported"@,
{
    reveal_strlit("supported");
    reveal_strlit("refuted");
    reveal_strlit("disputed");
    reveal_strlit("unsupported");
    assert("supported"@[0] == 's' && "refuted"@[0] == 'r' && "disputed"@[0] == 'd'
        && "unsupported"@[0] == 'u');
}

proof fn lemma_own_position(g: GraphView, s: ScoringView, i: int, k: int)
    requires
        outcome_is_for(g, s, i, k),
    ensures
        outcome_of(s, g.nodes[i].id, 0) == Some(s.outcomes[k]),
        last_position(g.nodes, g.nodes[i].id, g.nodes.len() as int) == Some(i),
{
    lemma_outcome_at(s, k, 0);
    lemma_only_position(g.nodes, i, g.nodes.len() as int);
}

proof fn lemma_only_position(nodes: Seq<NodeView>, i: int, n: int)
    requires
        0 <= i < n <= nodes.len(),
        forall|j: int| 0 <= j < nodes.len() && j != i ==> (#[trigger] nodes[j]).id != nodes[i].id,
    ensures
        last_position(nodes, nodes[i].id, n) == Some(i),
    decreases n,
{
    if i < n - 1 {
        assert(nodes[n - 1].id != nodes[i].id);
        lemma_only_position(nodes, i, n - 1);
    }
}

/// A live insight, and a fact that answers a question, is refuted exactly where its evidence
/// comes to that, and likewise supported, disputed and unsupported.
pub proof fn belief_follows_the_evidence(g: GraphView, s: ScoringView, i: int, k: int)
    requires
        outcome_is_for(g, s, i, k),
        is_live(g, i),
        g.nodes[i].typ == NodeType::Insight || (g.nodes[i].typ == NodeType::Fact
            && g.nodes[i].frage_id is Some && g.nodes[i].wert is Some),
    ensures
        rescored(g, s).nodes[i].status == "refuted"@ <==> s.outcomes[k].balance
            == Balance::Refuted,
        rescored(g, s).nodes[i].status == "supported"@ <==> s.outcomes[k].balance
            == Balance::Supported,
        rescored(g, s).nodes[i].status == "disputed"@ <==> s.outcomes[k].balance
            == Balance::Disputed,
        rescored(g, s).nodes[i].status == "unsupported"@ <==> s.outcomes[k].balance
            == Balance::Little,
{
    lemma_own_position(g, s, i, k);
    lemma_statuses_differ();
}

/// A live observation, research result or hypothesis is supported where next to nothing or
/// little speaks against it, and else refuted or disputed as its evidence says.
pub proof fn leaves_hold_until_contradicted(g: GraphView, s: ScoringView, i: int, k: int)
    requires
        outcome_is_for(g, s, i, k),
        is_live(g, i),
        g.nodes[i].typ == NodeType::Observation || g.nodes[i].typ == NodeType::Research
            || g.nodes[i].typ == NodeType::Hypothesis,
    ensures
        rescored(g, s).nodes[i].status == "supported"@ <==> (s.outcomes[k].balance
            == Balance::Little || s.outcomes[k].balance == Balance::Supported),
        rescored(g, s).nodes[i].status == "refuted"@ <==> s.outcomes[k].balance
            == Balance::Refuted,
        rescored(g, s).nodes[i].status == "disputed"@ <==> s.outcomes[k].balance
            == Balance::Disputed,
{
    lemma_own_position(g, s, i, k);
    lemma_statuses_differ();
}

/// A live fact without a question or a value is supported, whatever its outcome.
pub proof fn plain_facts_are_supported(g: GraphView, s: ScoringView, i: int, k: int)
    requires
        outcome_is_for(g, s, i, k),
        is_live(g, i),
        g.nodes[i].typ == NodeType::Fact,
        g.nodes[i].frage_id is None || g.nodes[i].wert is None,
    ensures
        rescored(g, s).nodes[i].status == "supported"@,
{
    lemma_own_position(g, s, i, k);
}

/// A node that is retired, or whose place another takes, is superseded; else one that is
/// carried out is done; else a decision is active. No other node has one of these statuses.
pub proof fn lifecycle_comes_first(g: GraphView, s: ScoringView, i: int, k: int)
    requires
        outcome_is_for(g, s, i, k),
    ensures
        ({
            let n = g.nodes[i];
            let status = rescored(g, s).nodes[i].status;
            let gone = n.ueberholt || exists|e: int|
                0 <= e < g.edges.len() && (#[trigger] g.edges[e]).zu == n.id && (
                g.edges[e].polaritaet == "replaces"@ || g.edges[e].polaritaet == "ersetzt"@);
            &&& status == "superseded"@ <==> gone
            &&& status == "done"@ <==> !gone && n.erledigt
            &&& status == "active"@ <==> !gone && !n.erledigt && n.typ == NodeType::Decision
        }),
{
    lemma_own_position(g, s, i, k);
    lemma_statuses_differ();
    reveal_strlit("superseded");
    reveal_strlit("done");
    reveal_strlit("active");
    reveal_strlit("supported");
    reveal_strlit("refuted");
    reveal_strlit("disputed");
    reveal_strlit("unsupported");
    assert("superseded"@.len() == 10 && "done"@.len() == 4 && "active"@.len() == 6);
    assert("supported"@.len() == 9 && "refuted"@.len() == 7 && "disputed"@.len() == 8
        && "unsupported"@.len() == 11);
}

/// Scoring sets scores and statuses and nothing else: the score of a node is that of its
/// outcome, and every other field, edge, question and document is as it was.
pub proof fn scoring_sets_nothing_else(g: GraphView, s: ScoringView, i: int, k: int)
    requires
        outcome_is_for(g, s, i, k),
    ensures
        ({
            let a = g.nodes[i];
            let b = rescored(g, s).nodes[i];
            &&& b.score == s.outcomes[k].score
            &&& b.id == a.id && b.typ == a.typ && b.inhalt == a.inhalt && b.begruendung
                == a.begruendung && b.datum == a.datum && b.basis_score == a.basis_score
            &&& b.herkunft == a.herkunft && b.frage_id == a.frage_id && b.wert == a.wert
                && b.quelle_ids == a.quelle_ids && b.session_id == a.session_id && b.tags == a.tags
            &&& b.ueberholt == a.ueberholt && b.erledigt == a.erledigt
        }),
        rescored(g, s).nodes.len() == g.nodes.len(),
        rescored(g, s).edges == g.edges,
        rescored(g, s).fragen == g.fragen,
        rescored(g, s).quellen == g.quellen,
{
    lemma_own_position(g, s, i, k);
}

/// Each balance has its own status word.
pub proof fn balances_have_their_words()
    ensures
        balance_status(Balance::Little) == "unsupported"@,
        balance_status(Balance::Supported) == "supported"@,
        balance_status(Balance::Refuted) == "refuted"@,
        balance_status(Balance::Disputed) == "disputed"@,
{
}

// ---- what is summed up ----

/// The evidence is that of the edges: for each of them, in their order, the score that the
/// node at its other end has come to, 0 where it has none, and the edge's weight.
pub open spec fn sums_up(s: ScoringView, edges: Seq<EdgeView>, list: Seq<(Score, Score)>) -> bool {
    &&& list.len() == edges.len()
    &&& forall|j: int| 0 <= j < list.len() ==> (#[trigger] list[j]).1 == edges[j].gewicht
    &&& forall|j: int, m: int|
        0 <= j < list.len() && 0 <= m < s.outcomes.len() && m < s.order.len() && (
        #[trigger] s.order[m]) == edges[j].zu ==> (#[trigger] list[j]).0 == s.outcomes[m].score
    &&& forall|j: int|
        0 <= j < list.len() && (forall|m: int|
            0 <= m < s.outcomes.len() && m < s.order.len() ==> (#[trigger] s.order[m])
                != edges[j].zu) ==> (#[trigger] list[j]).0 == (Score { bits: 0 })
}

/// The edges from a node that speak against it.
pub open spec fn against(edges: Seq<EdgeView>, id: Seq<char>) -> Seq<EdgeView> {
    edges.filter(
        |e: EdgeView|
            e.von == id && (e.polaritaet == "contradicts"@ || e.polaritaet == "widerspricht"@),
    )
}

/// The edges from a node that speak for it: all but those that speak against it and those by
/// which it takes the place of another.
pub open spec fn in_favour(edges: Seq<EdgeView>, id: Seq<char>) -> Seq<EdgeView> {
    edges.filter(
        |e: EdgeView|
            e.von == id && e.polaritaet != "contradicts"@ && e.polaritaet != "widerspricht"@
                && e.polaritaet != "replaces"@ && e.polaritaet != "ersetzt"@,
    )
}

/// What a node is to be summed up from, by its type.
pub proof fn tasks_hold_the_evidence(g: GraphView, s: ScoringView, i: int)
    requires
        0 <= i < g.nodes.len(),
        forall|j: int|
            0 <= j < g.nodes.len() && j != i ==> (#[trigger] g.nodes[j]).id != g.nodes[i].id,
        s.order.no_duplicates(),
        s.outcomes.len() < s.order.len(),
        s.order[s.outcomes.len() as int] == g.nodes[i].id,
    ensures
        task_at(g, s) is Some,
        ({
            let n = g.nodes[i];
            let t = task_at(g, s)->0;
            match n.typ {
                NodeType::Insight | NodeType::Decision => {
                    &&& t is Inner
                    &&& sums_up(s, in_favour(g.edges, n.id), t->Inner_pro)
                    &&& sums_up(s, against(g.edges, n.id), t->Inner_con)
                },
                NodeType::Fact => if n.frage_id is Some && n.wert is Some {
                    let same_question = |x: NodeView|
                        x.typ == NodeType::Fact && x.frage_id == n.frage_id && x.wert is Some;
                    let same_value = |x: NodeView|
                        x.typ == NodeType::Fact && x.frage_id == n.frage_id && x.wert == n.wert;
                    &&& t is Answer
                    &&& t->own == g.nodes.filter(same_value).map_values(
                        |x: NodeView| x.basis_score,
                    )
                    &&& t->all == g.nodes.filter(same_question).map_values(
                        |x: NodeView| x.basis_score,
                    )
                } else {
                    t is Given && t->Given_basis == n.basis_score
                },
                _ => {
                    &&& t is Leaf
                    &&& t->Leaf_basis == n.basis_score
                    &&& sums_up(s, in_favour(g.edges, n.id), t->Leaf_pro)
                    &&& sums_up(s, against(g.edges, n.id), t->Leaf_con)
                },
            }
        }),
{
    let n = g.nodes[i];
    lemma_only_position(g.nodes, i, g.nodes.len() as int);
    lemma_sums_up(g.edges, s, n.id, false);
    lemma_sums_up(g.edges, s, n.id, true);
    if n.typ == NodeType::Fact && n.frage_id is Some && n.wert is Some {
        let f = n.frage_id->0;
        let same_question = |x: NodeView|
            x.typ == NodeType::Fact && x.frage_id == n.frage_id && x.wert is Some;
        let same_value = |x: NodeView|
            x.typ == NodeType::Fact && x.frage_id == n.frage_id && x.wert == n.wert;
        lemma_same_filter(
            g.nodes,
            |x: NodeView| answers(x, f, None),
            same_question,
        );
        lemma_same_filter(
            g.nodes,
            |x: NodeView| answers(x, f, n.wert),
            same_value,
        );
    }
}

/// Tests that agree on every item keep the same items.
pub proof fn lemma_same_filter<T>(s: Seq<T>, p: spec_fn(T) -> bool, q: spec_fn(T) -> bool)
    requires
        forall|i: int| 0 <= i < s.len() ==> p(#[trigger] s[i]) == q(s[i]),
    ensures
        s.filter(p) == s.filter(q),
    decreases s.len(),
{
    reveal(Seq::filter);
    if s.len() > 0 {
        assert(p(s[s.len() - 1]) == q(s[s.len() - 1]));
        assert forall|i: int| 0 <= i < s.drop_last().len() implies p(#[trigger] s.drop_last()[i])
            == q(s.drop_last()[i]) by {
            assert(s.drop_last()[i] == s[i]);
        }
        lemma_same_filter(s.drop_last(), p, q);
    }
}

proof fn lemma_sums_up(edges: Seq<EdgeView>, s: ScoringView, id: Seq<char>, con: bool)
    requires
        s.order.no_duplicates(),
    ensures
        sums_up(
            s,
            if con {
                against(edges, id)
            } else {
                in_favour(edges, id)
            },
            evidence(edges, s, id, con, edges.len() as int),
        ),
{
    reveal_strlit("contradicts");
    reveal_strlit("widerspricht");
    reveal_strlit("replaces");
    reveal_strlit("ersetzt");
    assert("contradicts"@[0] == 'c' && "widerspricht"@[0] == 'w' && "replaces"@[0] == 'r'
        && "ersetzt"@[0] == 'e');
    let p = if con {
        |e: EdgeView|
            e.von == id && (e.polaritaet == "contradicts"@ || e.polaritaet == "widerspricht"@)
    } else {
        |e: EdgeView|
            e.von == id && e.polaritaet != "contradicts"@ && e.polaritaet != "widerspricht"@
                && e.polaritaet != "replaces"@ && e.polaritaet != "ersetzt"@
    };
    let n = edges.len() as int;
    lemma_evidence_filtered(edges, s, id, con, p, n);
    assert(edges.take(n) =~= edges);
    let f = edges.filter(p);
    let list = evidence(edges, s, id, con, n);
    assert forall|j: int, m: int|
        0 <= j < list.len() && 0 <= m < s.outcomes.len() && m < s.order.len() && (
        #[trigger] s.order[m]) == f[j].zu implies (#[trigger] list[j]).0 == s.outcomes[m].score by {
        lemma_outcome_at(s, m, 0);
    }
    assert forall|j: int|
        0 <= j < list.len() && (forall|m: int|
            0 <= m < s.outcomes.len() && m < s.order.len() ==> (#[trigger] s.order[m])
                != f[j].zu) implies (#[trigger] list[j]).0 == (Score { bits: 0 }) by {
        lemma_unknown(s, f[j].zu, 0);
    }
}

proof fn lemma_unknown(s: ScoringView, id: Seq<char>, from: int)
    requires
        0 <= from,
        forall|m: int|
            0 <= m < s.outcomes.len() && m < s.order.len() ==> (#[trigger] s.order[m]) != id,
    ensures
        outcome_of(s, id, from) is None,
    decreases s.outcomes.len() - from,
{
    if from < s.outcomes.len() && from < s.order.len() {
        assert(s.order[from] != id);
        lemma_unknown(s, id, from + 1);
    }
}

proof fn lemma_evidence_filtered(
    edges: Seq<EdgeView>,
    s: ScoringView,
    id: Seq<char>,
    con: bool,
    p: spec_fn(EdgeView) -> bool,
    n: int,
)
    requires
        0 <= n <= edges.len(),
        forall|e: EdgeView| #[trigger]
            p(e) == (e.von == id && !replaces(e.polaritaet)
                && speaks_against(e.polaritaet) == con),
    ensures
        evidence(edges, s, id, con, n) == edges.take(n).filter(p).map_values(
            |e: EdgeView| (score_so_far(s, e.zu), e.gewicht),
        ),
    decreases n,
{
    let v = |e: EdgeView| (score_so_far(s, e.zu), e.gewicht);
    if n > 0 {
        let e = edges[n - 1];
        lemma_evidence_filtered(edges, s, id, con, p, n - 1);
        assert(edges.take(n) =~= edges.take(n - 1).push(e));
        lemma_filter_push(edges.take(n - 1), e, p);
        let kept = edges.take(n - 1).filter(p);
        assert(p(e) == (e.von == id && !replaces(e.polaritaet)
            && speaks_against(e.polaritaet) == con));
        assert(kept.push(e).map_values(v) =~= kept.map_values(v).push(v(e)));
    } else {
        reveal(Seq::filter);
        assert(edges.take(0) =~= Seq::empty());
        assert(edges.take(0).filter(p).map_values(v) =~= Seq::empty());
    }
}

// ---- the order of the wave ----

/// Where evidence comes first, the node that an edge rests on stands before the node that
/// rests on it; and every node has exactly one place.
pub proof fn evidence_stands_before(g: GraphView, order: Seq<Seq<char>>, k: int, a: int, b: int)
    requires
        lists_nodes(g, order),
        evidence_first(g, order),
        0 <= k < g.edges.len(),
        0 <= a < order.len(),
        0 <= b < order.len(),
        order[a] == g.edges[k].von,
        order[b] == g.edges[k].zu,
    ensures
        b < a,
{
    assert(order.contains(order[b]));
    assert(g.has_node(g.edges[k].zu));
    assert(among(order, a, g.edges[k].zu));
    let j = choose|j: int| 0 <= j < a && j < order.len() && #[trigger] order[j] == g.edges[k].zu;
    assert(order[j] == order[b]);
}

/// The same holds beside cycles, of a node from which none is reached.
pub proof fn evidence_stands_before_off_cycles(
    g: GraphView,
    order: Seq<Seq<char>>,
    k: int,
    a: int,
    b: int,
)
    requires
        lists_nodes(g, order),
        evidence_first_off_cycles(g, order),
        0 <= k < g.edges.len(),
        0 <= a < order.len(),
        0 <= b < order.len(),
        order[a] == g.edges[k].von,
        order[b] == g.edges[k].zu,
        reaches_no_cycle(g, order[a]),
    ensures
        b < a,
{
    assert(order.contains(order[b]));
    assert(g.has_node(g.edges[k].zu));
    assert(among(order, a, g.edges[k].zu));
    let j = choose|j: int| 0 <= j < a && j < order.len() && #[trigger] order[j] == g.edges[k].zu;
    assert(order[j] == order[b]);
}

/// Every node of the graph has one place in the order, and nothing else has.
pub proof fn each_node_has_a_place(g: GraphView, order: Seq<Seq<char>>, i: int)
    requires
        lists_nodes(g, order),
    ensures
        0 <= i < g.nodes.len() ==> order.contains(g.nodes[i].id),
        0 <= i < order.len() ==> exists|j: int|
            0 <= j < g.nodes.len() && (#[trigger] g.nodes[j]).id == order[i],
        order.no_duplicates(),
{
    if 0 <= i < g.nodes.len() {
        assert(g.has_node(g.nodes[i].id));
        assert(order.contains(g.nodes[i].id));
    }
    if 0 <= i < order.len() {
        assert(order.contains(order[i]));
        assert(g.has_node(order[i]));
    }
}

} // verus!

//! What queries promise, in terms of the nodes and edges alone.

use vstd::prelude::*;

use crate::dispatch::{dispatched, filter_of, FreshView, Numbers};
use crate::ipc::RequestView;
use crate::json::{field, natural, JsonView};
use crate::laws::merging::{lemma_filter_picks, picked};
use crate::laws::requests::{bare_texts, lemma_lists, lemma_op_names};
use crate::store::filter::{
    ahead_of, asked, better_nodes_match_too, farther_sees_more, filtered, in_view, is_match,
    match_id, meets, near, no_filter, restricted, FilterView,
};
use crate::store::model::{EdgeView, FrageView, GraphView, NodeType, NodeView, QuelleView};
use crate::text::{lowercase, occurs_at, trimmed};

verus! {

/// The text stands somewhere in the other, whatever the case of either.
pub open spec fn stands_in(part: Seq<char>, whole: Seq<char>) -> bool {
    exists|i: int|
        0 <= i <= lowercase(whole).len() - lowercase(part).len() && #[trigger] lowercase(
            whole,
        ).subrange(i, i + lowercase(part).len()) == lowercase(part)
}

/// One of the wanted tags is among those of the node, whatever the case of either.
pub open spec fn shares_a_tag(n: NodeView, wanted: Seq<Seq<char>>) -> bool {
    exists|i: int, j: int|
        0 <= i < n.tags.len() && 0 <= j < wanted.len() && lowercase(#[trigger] n.tags[i])
            == lowercase(#[trigger] wanted[j])
}

/// Every match meets each condition of the query by itself, whatever else is asked.
pub proof fn matches_meet_each_condition(g: GraphView, f: FilterView, i: int)
    requires
        is_match(g, f, i),
    ensures
        0 <= i < g.nodes.len(),
        f.typ matches Some(t) ==> g.nodes[i].typ == t,
        f.status matches Some(s) ==> g.nodes[i].status == s,
        f.q matches Some(q) ==> stands_in(q, g.nodes[i].inhalt),
        f.tags.len() > 0 ==> shares_a_tag(g.nodes[i], f.tags),
{
    if let Some(q) = f.q {
        let h = lowercase(g.nodes[i].inhalt);
        let n = lowercase(q);
        let k = choose|k: int| occurs_at(h, n, k);
        assert(h.subrange(k, k + n.len()) == n);
    }
}

/// Without a limit every node that meets all conditions is a match.
pub proof fn what_meets_all_conditions_matches(g: GraphView, f: FilterView, i: int)
    requires
        0 <= i < g.nodes.len(),
        f.limit is None,
        f.typ matches Some(t) ==> g.nodes[i].typ == t,
        f.status matches Some(s) ==> g.nodes[i].status == s,
        f.q matches Some(q) ==> stands_in(q, g.nodes[i].inhalt),
        f.tags.len() > 0 ==> shares_a_tag(g.nodes[i], f.tags),
    ensures
        is_match(g, f, i),
{
    if let Some(q) = f.q {
        let h = lowercase(g.nodes[i].inhalt);
        let n = lowercase(q);
        let k = choose|k: int|
            0 <= k <= h.len() - n.len() && #[trigger] h.subrange(k, k + n.len()) == n;
        assert(occurs_at(h, n, k));
    }
}

/// With a limit of at least one the best scored node among those that would match without it
/// matches.
pub proof fn the_best_node_matches(g: GraphView, f: FilterView, i: int)
    requires
        f.limit is Some,
        f.limit->0 > 0,
        is_match(g, FilterView { limit: None, ..f }, i),
        forall|k: int|
            is_match(g, FilterView { limit: None, ..f }, k) && k != i ==> {
                &&& !(#[trigger] g.nodes[k]).score.above(g.nodes[i].score)
                &&& g.nodes[i].score.above(g.nodes[k].score)
            },
    ensures
        is_match(g, f, i),
{
    lemma_nothing_ahead(g, f, i, g.nodes.len() as int);
}

proof fn lemma_nothing_ahead(g: GraphView, f: FilterView, i: int, n: int)
    requires
        0 <= n <= g.nodes.len(),
        forall|k: int|
            is_match(g, FilterView { limit: None, ..f }, k) && k != i ==> {
                &&& !(#[trigger] g.nodes[k]).score.above(g.nodes[i].score)
                &&& g.nodes[i].score.above(g.nodes[k].score)
            },
    ensures
        ahead_of(g.nodes, f, i, n) == 0,
    decreases n,
{
    if n > 0 {
        lemma_nothing_ahead(g, f, i, n - 1);
        let k = n - 1;
        let free = FilterView { limit: None, ..f };
        if k != i && meets(g.nodes[k], f) {
            assert(meets(g.nodes[k], free));
            assert(is_match(g, free, k));
            assert(!g.nodes[k].score.above(g.nodes[i].score));
        }
    }
}

/// The limit keeps the better scored: what would match without it, and is scored above a
/// match, or as high and stands before it, is a match too.
pub proof fn better_scored_nodes_match_first(g: GraphView, f: FilterView, i: int, k: int)
    requires
        is_match(g, f, i),
        is_match(g, FilterView { limit: None, ..f }, k),
        g.nodes[k].score.above(g.nodes[i].score) || (!g.nodes[i].score.above(g.nodes[k].score) && k
            < i),
        forall|j: int| 0 <= j < g.nodes.len() ==> !(#[trigger] g.nodes[j]).score.is_nan(),
    ensures
        is_match(g, f, k),
{
    assert(meets(g.nodes[k], f));
    better_nodes_match_too(g, f, i, k);
}

/// A part of a graph has the nodes that are to be kept and the edges between them, in their
/// order, the questions that these nodes answer, and all documents.
pub proof fn parts_hold_what_is_kept(g: GraphView, keep: spec_fn(Seq<char>) -> bool)
    ensures
        ({
            let r = restricted(g, keep);
            &&& forall|n: NodeView| #[trigger]
                r.nodes.contains(n) <==> g.nodes.contains(n) && keep(n.id)
            &&& forall|e: EdgeView| #[trigger]
                r.edges.contains(e) <==> g.edges.contains(e) && keep(e.von) && keep(e.zu)
            &&& forall|q: FrageView| #[trigger]
                r.fragen.contains(q) <==> g.fragen.contains(q) && exists|i: int|
                    0 <= i < g.nodes.len() && keep((#[trigger] g.nodes[i]).id)
                        && g.nodes[i].frage_id == Some(q.id)
            &&& r.quellen == g.quellen
            &&& exists|at: Seq<int>| #[trigger] picked(g.nodes, r.nodes, at)
            &&& exists|at: Seq<int>| #[trigger] picked(g.edges, r.edges, at)
        }),
{
    let r = restricted(g, keep);
    let p = |n: NodeView| keep(n.id);
    let q = |e: EdgeView| keep(e.von) && keep(e.zu);
    let t = |f: FrageView| asked(r.nodes, f.id);
    let a = lemma_filter_picks(g.nodes, p);
    let b = lemma_filter_picks(g.edges, q);
    let c = lemma_filter_picks(g.fragen, t);
    assert(picked(g.nodes, r.nodes, a));
    assert(picked(g.edges, r.edges, b));
    assert forall|n: NodeView| #[trigger]
        r.nodes.contains(n) <==> g.nodes.contains(n) && keep(n.id) by {
        if r.nodes.contains(n) {
            let j = choose|j: int| 0 <= j < r.nodes.len() && r.nodes[j] == n;
            assert(p(g.nodes[a[j]]));
        }
        if g.nodes.contains(n) && keep(n.id) {
            let k = choose|k: int| 0 <= k < g.nodes.len() && g.nodes[k] == n;
            assert(p(g.nodes[k]));
            let j = choose|j: int| 0 <= j < a.len() && a[j] == k;
            assert(r.nodes[j] == n);
        }
    }
    assert forall|e: EdgeView| #[trigger]
        r.edges.contains(e) <==> g.edges.contains(e) && keep(e.von) && keep(e.zu) by {
        if r.edges.contains(e) {
            let j = choose|j: int| 0 <= j < r.edges.len() && r.edges[j] == e;
            assert(q(g.edges[b[j]]));
        }
        if g.edges.contains(e) && keep(e.von) && keep(e.zu) {
            let k = choose|k: int| 0 <= k < g.edges.len() && g.edges[k] == e;
            assert(q(g.edges[k]));
            let j = choose|j: int| 0 <= j < b.len() && b[j] == k;
            assert(r.edges[j] == e);
        }
    }
    assert forall|x: FrageView| #[trigger]
        r.fragen.contains(x) <==> g.fragen.contains(x) && exists|i: int|
            0 <= i < g.nodes.len() && keep((#[trigger] g.nodes[i]).id) && g.nodes[i].frage_id
                == Some(x.id) by {
        if r.fragen.contains(x) {
            let j = choose|j: int| 0 <= j < r.fragen.len() && r.fragen[j] == x;
            assert(t(g.fragen[c[j]]));
            let m = choose|m: int|
                0 <= m < r.nodes.len() && (#[trigger] r.nodes[m]).frage_id == Some(x.id);
            assert(p(g.nodes[a[m]]));
        }
        if g.fragen.contains(x) && exists|i: int|
            0 <= i < g.nodes.len() && keep((#[trigger] g.nodes[i]).id) && g.nodes[i].frage_id
                == Some(x.id) {
            let i = choose|i: int|
                0 <= i < g.nodes.len() && keep((#[trigger] g.nodes[i]).id) && g.nodes[i].frage_id
                    == Some(x.id);
            assert(p(g.nodes[i]));
            let m = choose|m: int| 0 <= m < a.len() && a[m] == i;
            assert(r.nodes[m].frage_id == Some(x.id));
            let k = choose|k: int| 0 <= k < g.fragen.len() && g.fragen[k] == x;
            assert(t(g.fragen[k]));
            let j = choose|j: int| 0 <= j < c.len() && c[j] == k;
            assert(r.fragen[j] == x);
        }
    }
}

/// A query shows the matches and the nodes that an edge joins with one, and no other node.
pub proof fn queries_show_matches_and_neighbours(g: GraphView, f: FilterView, n: NodeView)
    requires
        f.q is Some || f.typ is Some || f.status is Some || f.limit is Some || f.tags.len() > 0,
    ensures
        filtered(g, f).nodes.contains(n) <==> g.nodes.contains(n) && exists|i: int|
            #[trigger] is_match(g, f, i) && (g.nodes[i].id == n.id || exists|k: int|
                0 <= k < g.edges.len() && (((#[trigger] g.edges[k]).von == n.id && g.edges[k].zu
                    == g.nodes[i].id) || (g.edges[k].zu == n.id && g.edges[k].von
                    == g.nodes[i].id))),
{
    parts_hold_what_is_kept(g, |id: Seq<char>| in_view(g, f, id));
    assert(f != no_filter());
    let shown = exists|i: int|
        #[trigger] is_match(g, f, i) && (g.nodes[i].id == n.id || exists|k: int|
            0 <= k < g.edges.len() && (((#[trigger] g.edges[k]).von == n.id && g.edges[k].zu
                == g.nodes[i].id) || (g.edges[k].zu == n.id && g.edges[k].von == g.nodes[i].id)));
    if in_view(g, f, n.id) {
        if match_id(g, f, n.id) {
            let i = choose|i: int| #[trigger] is_match(g, f, i) && g.nodes[i].id == n.id;
            assert(is_match(g, f, i));
        } else {
            let k = choose|k: int|
                0 <= k < g.edges.len() && (((#[trigger] g.edges[k]).zu == n.id
                    && match_id(g, f, g.edges[k].von)) || (g.edges[k].von
                    == n.id && match_id(g, f, g.edges[k].zu)));
            let other = if g.edges[k].zu == n.id && match_id(
                g,
                f,
                g.edges[k].von,
            ) {
                g.edges[k].von
            } else {
                g.edges[k].zu
            };
            let i = choose|i: int| #[trigger] is_match(g, f, i) && g.nodes[i].id == other;
            assert(is_match(g, f, i));
        }
        assert(shown);
    }
    if shown {
        let i = choose|i: int|
            #[trigger] is_match(g, f, i) && (g.nodes[i].id == n.id || exists|k: int|
                0 <= k < g.edges.len() && (((#[trigger] g.edges[k]).von == n.id && g.edges[k].zu
                    == g.nodes[i].id) || (g.edges[k].zu == n.id && g.edges[k].von
                    == g.nodes[i].id)));
        assert(match_id(g, f, g.nodes[i].id));
        if g.nodes[i].id != n.id {
            let k = choose|k: int|
                0 <= k < g.edges.len() && (((#[trigger] g.edges[k]).von == n.id && g.edges[k].zu
                    == g.nodes[i].id) || (g.edges[k].zu == n.id && g.edges[k].von
                    == g.nodes[i].id));
            assert(g.edges[k].zu == n.id || g.edges[k].von == n.id);
        }
        assert(in_view(g, f, n.id));
    }
}

/// A query that asks for nothing shows the whole graph.
pub proof fn an_empty_query_shows_all(g: GraphView, f: FilterView)
    requires
        f.q is None,
        f.typ is None,
        f.status is None,
        f.limit is None,
        f.tags.len() == 0,
    ensures
        filtered(g, f) == g,
{
    assert(f.tags =~= Seq::empty());
}

/// What a query asks for stands in its payload: blank texts ask for nothing, and neither
/// does a type that is not known.
pub proof fn queries_ask_what_is_said(p: JsonView)
    ensures
        ({
            let f = filter_of(p);
            &&& match field(p, "q"@) {
                Some(JsonView::Str(t)) => f.q == (if trimmed(t).len() > 0 {
                    Some(t)
                } else {
                    None
                }),
                _ => f.q is None,
            }
            &&& match field(p, "status"@) {
                Some(JsonView::Str(t)) => f.status == (if trimmed(t).len() > 0 {
                    Some(t)
                } else {
                    None
                }),
                _ => f.status is None,
            }
            &&& match field(p, "typ"@) {
                Some(JsonView::Str(t)) => f.typ == NodeType::of_code(lowercase(trimmed(t))),
                _ => f.typ is None,
            }
            &&& match field(p, "limit"@) {
                Some(JsonView::Number(t)) => match natural(t) {
                    Some(n) => f.limit == Some(n as usize),
                    None => f.limit is None,
                },
                _ => f.limit is None,
            }
            &&& f.tags == bare_texts(p, "tags"@)
        }),
{
    lemma_lists(p, "tags"@);
    if bare_texts(p, "tags"@).len() == 0 {
        assert(bare_texts(p, "tags"@) =~= Seq::empty());
    }
}

/// The answer to a query lists each node of the part that it shows, by its id, type, status,
/// score, the beginning of its statement, tags and value, and each edge by its ends and
/// polarity, in their order.
pub proof fn the_overview_lists_the_part(
    r: RequestView,
    numbers: Numbers,
    g: GraphView,
    documents: Seq<QuelleView>,
    f: FreshView,
)
    requires
        r.op == "query"@,
    ensures
        ({
            let d = dispatched(r, true, numbers, g, documents, f);
            let v = filtered(g, filter_of(r.payload));
            &&& d.graph == g && !d.changed && !d.save
            &&& d.answer is Ready
            &&& d.answer->Ready_0 is Overview
            &&& d.answer->Ready_0->Overview_nodes.len() == v.nodes.len()
            &&& d.answer->Ready_0->Overview_edges.len() == v.edges.len()
            &&& d.answer->Ready_0->Overview_fragen == v.fragen
            &&& forall|i: int|
                0 <= i < v.nodes.len() ==> {
                    let c = #[trigger] d.answer->Ready_0->Overview_nodes[i];
                    let n = v.nodes[i];
                    &&& c.id == n.id && c.typ == n.typ && c.status == n.status && c.score == n.score
                        && c.tags == n.tags && c.wert == n.wert
                    &&& n.inhalt.len() <= 100 ==> c.titel == n.inhalt
                    &&& n.inhalt.len() > 100 ==> c.titel == n.inhalt.take(100) + "…"@
                }
            &&& forall|i: int|
                0 <= i < v.edges.len() ==> {
                    let c = #[trigger] d.answer->Ready_0->Overview_edges[i];
                    let e = v.edges[i];
                    c.von == e.von && c.zu == e.zu && c.polaritaet == e.polaritaet
                }
        }),
{
    lemma_op_names();
}

// ---- the surroundings of nodes ----

/// The ends of an edge, in either direction.
pub open spec fn joined_by_an_edge(g: GraphView, a: Seq<char>, b: Seq<char>) -> bool {
    exists|k: int|
        0 <= k < g.edges.len() && (((#[trigger] g.edges[k]).von == a && g.edges[k].zu == b) || (
        g.edges[k].von == b && g.edges[k].zu == a))
}

/// Steps along edges, in either direction.
pub open spec fn is_walk(g: GraphView, w: Seq<Seq<char>>) -> bool {
    w.len() > 0 && forall|i: int|
        0 <= i < w.len() - 1 ==> joined_by_an_edge(g, #[trigger] w[i], w[i + 1])
}

/// A node is near exactly where at most so many steps lead to it from one that is asked for.
pub proof fn near_is_few_steps_away(g: GraphView, ids: Seq<Seq<char>>, depth: nat, id: Seq<char>)
    ensures
        near(g, ids, depth, id) <==> exists|w: Seq<Seq<char>>| #[trigger]
            is_walk(g, w) && w.len() <= depth + 1 && ids.contains(w[0]) && w.last() == id,
    decreases depth,
{
    if near(g, ids, depth, id) {
        let w = lemma_walk_of(g, ids, depth, id);
        assert(is_walk(g, w));
    }
    if exists|w: Seq<Seq<char>>| #[trigger]
        is_walk(g, w) && w.len() <= depth + 1 && ids.contains(w[0]) && w.last() == id {
        let w = choose|w: Seq<Seq<char>>| #[trigger]
            is_walk(g, w) && w.len() <= depth + 1 && ids.contains(w[0]) && w.last() == id;
        lemma_walked(g, ids, depth, w);
    }
}

proof fn lemma_walk_of(g: GraphView, ids: Seq<Seq<char>>, depth: nat, id: Seq<char>) -> (w: Seq<
    Seq<char>,
>)
    requires
        near(g, ids, depth, id),
    ensures
        is_walk(g, w),
        w.len() <= depth + 1,
        ids.contains(w[0]),
        w.last() == id,
    decreases depth,
{
    if depth == 0 {
        seq![id]
    } else {
        let d = (depth - 1) as nat;
        if near(g, ids, d, id) {
            lemma_walk_of(g, ids, d, id)
        } else {
            let k = choose|k: int|
                0 <= k < g.edges.len() && (((#[trigger] g.edges[k]).zu == id && near(
                    g,
                    ids,
                    d,
                    g.edges[k].von,
                )) || (g.edges[k].von == id && near(g, ids, d, g.edges[k].zu)));
            let other = if g.edges[k].zu == id && near(g, ids, d, g.edges[k].von) {
                g.edges[k].von
            } else {
                g.edges[k].zu
            };
            let v = lemma_walk_of(g, ids, d, other);
            let w = v.push(id);
            assert forall|i: int| 0 <= i < w.len() - 1 implies joined_by_an_edge(
                g,
                #[trigger] w[i],
                w[i + 1],
            ) by {
                if i < v.len() - 1 {
                    assert(joined_by_an_edge(g, v[i], v[i + 1]));
                } else {
                    assert(w[i] == other && w[i + 1] == id);
                    assert(g.edges[k].von == other || g.edges[k].zu == other);
                }
            }
            w
        }
    }
}

proof fn lemma_walked(g: GraphView, ids: Seq<Seq<char>>, depth: nat, w: Seq<Seq<char>>)
    requires
        is_walk(g, w),
        w.len() <= depth + 1,
        ids.contains(w[0]),
    ensures
        near(g, ids, depth, w.last()),
    decreases w.len(),
{
    if w.len() == 1 {
        farther_sees_more(g, ids, 0, depth, w[0]);
    } else {
        let v = w.drop_last();
        assert forall|i: int| 0 <= i < v.len() - 1 implies joined_by_an_edge(
            g,
            #[trigger] v[i],
            v[i + 1],
        ) by {
            assert(joined_by_an_edge(g, w[i], w[i + 1]));
        }
        lemma_walked(g, ids, (depth - 1) as nat, v);
        let i = w.len() - 2;
        assert(joined_by_an_edge(g, w[i], w[i + 1]));
        let k = choose|k: int|
            0 <= k < g.edges.len() && (((#[trigger] g.edges[k]).von == w[i] && g.edges[k].zu == w[i
                + 1]) || (g.edges[k].von == w[i + 1] && g.edges[k].zu == w[i]));
        assert(v.last() == w[i]);
        assert(g.edges[k].zu == w.last() || g.edges[k].von == w.last());
    }
}

/// A request for nodes shows those that are asked for and what lies within the depth, one
/// step where none is given; without ids it is refused.
pub proof fn asking_for_nodes_shows_their_surroundings(
    r: RequestView,
    numbers: Numbers,
    g: GraphView,
    documents: Seq<QuelleView>,
    f: FreshView,
    n: NodeView,
)
    requires
        r.op == "get"@,
    ensures
        ({
            let d = dispatched(r, true, numbers, g, documents, f);
            let ids = bare_texts(r.payload, "ids"@);
            let depth: nat = match field(r.payload, "depth"@) {
                Some(JsonView::Number(t)) => match natural(t) {
                    Some(x) => x as usize as nat,
                    None => 1,
                },
                _ => 1,
            };
            &&& d.graph == g && !d.changed && !d.save
            &&& ids.len() == 0 ==> d.answer is Refused
            &&& ids.len() > 0 ==> {
                &&& d.answer is Ready
                &&& d.answer->Ready_0 is Subgraph
                &&& d.answer->Ready_0->graph.nodes.contains(n) <==> g.nodes.contains(n) && near(
                    g,
                    ids,
                    depth,
                    n.id,
                )
                &&& d.answer->Ready_0->graph.quellen == g.quellen
                &&& forall|e: EdgeView| #[trigger]
                    d.answer->Ready_0->graph.edges.contains(e) <==> g.edges.contains(e) && near(
                        g,
                        ids,
                        depth,
                        e.von,
                    ) && near(g, ids, depth, e.zu)
            }
        }),
{
    lemma_op_names();
    lemma_lists(r.payload, "ids"@);
    let ids = bare_texts(r.payload, "ids"@);
    let depth: nat = match field(r.payload, "depth"@) {
        Some(JsonView::Number(t)) => match natural(t) {
            Some(x) => x as usize as nat,
            None => 1,
        },
        _ => 1,
    };
    parts_hold_what_is_kept(g, |id: Seq<char>| near(g, ids, depth, id));
}

} // verus!

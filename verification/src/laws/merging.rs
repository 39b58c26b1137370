//! What merging and deleting promise, in terms of the nodes and edges alone.

use vstd::prelude::*;

use crate::seqs::{lemma_filter_complete, lemma_filter_push, lemma_filter_sound};
use crate::store::cycles::acyclic;
use crate::store::merge::{
    deduped, links_again, merge_refusal, merged, merged_node, moved, same_link, union_of,
};
use crate::store::model::{lemma_position, EdgeView, GraphView, NodeView};
use crate::store::ops::{without_edge, without_node};

verus! {

/// `t` is what is left of `s` at the positions `at`, in their order.
pub open spec fn picked<T>(s: Seq<T>, t: Seq<T>, at: Seq<int>) -> bool {
    &&& at.len() == t.len()
    &&& forall|j: int| 0 <= j < at.len() ==> 0 <= #[trigger] at[j] < s.len() && t[j] == s[at[j]]
    &&& forall|i: int, j: int| 0 <= i < j < at.len() ==> #[trigger] at[i] < #[trigger] at[j]
}

/// A filter leaves some items, in their order.
pub proof fn lemma_filter_picks<T>(s: Seq<T>, p: spec_fn(T) -> bool) -> (at: Seq<int>)
    ensures
        picked(s, s.filter(p), at),
        forall|j: int| 0 <= j < at.len() ==> p(s[#[trigger] at[j]]),
        forall|k: int| 0 <= k < s.len() && p(#[trigger] s[k]) ==> at.contains(k),
    decreases s.len(),
{
    if s.len() == 0 {
        reveal(Seq::filter);
        Seq::empty()
    } else {
        let t = s.drop_last();
        let before = lemma_filter_picks(t, p);
        assert(s =~= t.push(s.last()));
        lemma_filter_push(t, s.last(), p);
        if p(s.last()) {
            let at = before.push(s.len() - 1);
            assert forall|j: int| 0 <= j < at.len() implies 0 <= #[trigger] at[j] < s.len()
                && s.filter(p)[j] == s[at[j]] && p(s[at[j]]) by {
                if j < before.len() {
                    assert(at[j] == before[j]);
                }
            }
            assert forall|k: int| 0 <= k < s.len() && p(#[trigger] s[k]) implies at.contains(k) by {
                if k < t.len() {
                    assert(t[k] == s[k]);
                    assert(before.contains(k));
                    let j = choose|j: int| 0 <= j < before.len() && before[j] == k;
                    assert(at[j] == k);
                } else {
                    assert(at[before.len() as int] == k);
                }
            }
            at
        } else {
            assert forall|k: int| 0 <= k < s.len() && p(#[trigger] s[k]) implies before.contains(
                k,
            ) by {
                assert(t[k] == s[k]);
            }
            before
        }
    }
}

proof fn lemma_deduped_picks(s: Seq<EdgeView>) -> (at: Seq<int>)
    ensures
        picked(s, deduped(s), at),
        forall|j: int, k: int|
            0 <= j < at.len() && 0 <= k < #[trigger] at[j] ==> !(#[trigger] s[k].von == s[at[j]].von
                && s[k].zu == s[at[j]].zu && s[k].polaritaet == s[at[j]].polaritaet),
        forall|k: int|
            0 <= k < s.len() && (forall|m: int|
                0 <= m < k ==> !((#[trigger] s[m]).von == s[k].von && s[m].zu == s[k].zu
                    && s[m].polaritaet == s[k].polaritaet)) ==> #[trigger] at.contains(k),
    decreases s.len(),
{
    if s.len() == 0 {
        Seq::empty()
    } else {
        let t = s.drop_last();
        let before = lemma_deduped_picks(t);
        let last = s.len() - 1;
        let at = if links_again(t, s.last()) {
            before
        } else {
            before.push(last)
        };
        assert forall|j: int| 0 <= j < at.len() implies 0 <= #[trigger] at[j] < s.len()
            && deduped(s)[j] == s[at[j]] by {
            if j < before.len() {
                assert(at[j] == before[j]);
                assert(t[before[j]] == s[before[j]]);
            }
        }
        assert forall|j: int, k: int| 0 <= j < at.len() && 0 <= k < #[trigger] at[j] implies !(
        #[trigger] s[k].von == s[at[j]].von && s[k].zu == s[at[j]].zu && s[k].polaritaet
            == s[at[j]].polaritaet) by {
            if j < before.len() {
                assert(at[j] == before[j]);
                assert(t[k].von == s[k].von);
            } else {
                assert(t[k] == s[k]);
                assert(!same_link(t[k], s.last()));
            }
        }
        assert forall|k: int|
            0 <= k < s.len() && (forall|m: int|
                0 <= m < k ==> !((#[trigger] s[m]).von == s[k].von && s[m].zu == s[k].zu
                    && s[m].polaritaet == s[k].polaritaet)) implies #[trigger] at.contains(k) by {
            if k < last {
                assert forall|m: int| 0 <= m < k implies !((#[trigger] t[m]).von == t[k].von
                    && t[m].zu == t[k].zu && t[m].polaritaet == t[k].polaritaet) by {
                    assert(t[m] == s[m] && t[k] == s[k]);
                }
                assert(before.contains(k));
                let j = choose|j: int| 0 <= j < before.len() && before[j] == k;
                assert(at[j] == k);
            } else {
                if links_again(t, s.last()) {
                    let m = choose|m: int| 0 <= m < t.len() && same_link(#[trigger] t[m], s.last());
                    assert(s[m].von == s[k].von);
                }
                assert(at[before.len() as int] == k);
            }
        }
        at
    }
}

/// What becomes of one end of an edge.
pub open spec fn new_end(end: Seq<char>, from: Seq<char>, into: Seq<char>) -> Seq<char> {
    if end == from {
        into
    } else {
        end
    }
}

/// The edges at `a` and `b` come to join the same nodes in the same way.
pub open spec fn come_together(
    edges: Seq<EdgeView>,
    from: Seq<char>,
    into: Seq<char>,
    a: int,
    b: int,
) -> bool {
    &&& new_end(edges[a].von, from, into) == new_end(edges[b].von, from, into)
    &&& new_end(edges[a].zu, from, into) == new_end(edges[b].zu, from, into)
    &&& edges[a].polaritaet == edges[b].polaritaet
}

/// A merge moves the ends of edges and drops those that would join a node with itself, and
/// those that say again what an earlier one says. Nothing else happens to them: what is left
/// stands in its order, with its id, its polarity and its weight.
pub proof fn merge_moves_edges(g: GraphView, from: Seq<char>, into: Seq<char>) -> (at: Seq<int>)
    ensures
        ({
            let m = merged(g, from, into).edges;
            &&& at.len() == m.len()
            &&& forall|i: int, j: int| 0 <= i < j < at.len() ==> #[trigger] at[i] < #[trigger] at[j]
            &&& forall|j: int|
                0 <= j < at.len() ==> {
                    let k = #[trigger] at[j];
                    &&& 0 <= k < g.edges.len()
                    &&& m[j].id == g.edges[k].id
                    &&& m[j].polaritaet == g.edges[k].polaritaet
                    &&& m[j].gewicht == g.edges[k].gewicht
                    &&& m[j].von == new_end(g.edges[k].von, from, into)
                    &&& m[j].zu == new_end(g.edges[k].zu, from, into)
                    &&& m[j].von != m[j].zu
                }
            &&& forall|k: int|
                0 <= k < g.edges.len() && new_end(g.edges[k].von, from, into) != new_end(
                    g.edges[k].zu,
                    from,
                    into,
                ) && (forall|l: int| 0 <= l < k ==> !#[trigger] come_together(
                    g.edges,
                    from,
                    into,
                    l,
                    k,
                )) ==> #[trigger] at.contains(k)
        }),
{
    let mv = |e: EdgeView| moved(e, from, into);
    let q = |e: EdgeView| e.von != e.zu;
    let all = g.edges.map_values(mv);
    let kept = all.filter(q);
    let a = lemma_filter_picks(all, q);
    let b = lemma_deduped_picks(kept);
    let at = b.map_values(|i: int| a[i]);
    let m = merged(g, from, into).edges;
    assert forall|i: int, j: int| 0 <= i < j < at.len() implies #[trigger] at[i]
        < #[trigger] at[j] by {
        assert(b[i] < b[j]);
        assert(a[b[i]] < a[b[j]]);
    }
    assert forall|j: int| 0 <= j < at.len() implies ({
        let k = #[trigger] at[j];
        &&& 0 <= k < g.edges.len()
        &&& m[j].id == g.edges[k].id
        &&& m[j].polaritaet == g.edges[k].polaritaet
        &&& m[j].gewicht == g.edges[k].gewicht
        &&& m[j].von == new_end(g.edges[k].von, from, into)
        &&& m[j].zu == new_end(g.edges[k].zu, from, into)
        &&& m[j].von != m[j].zu
    }) by {
        let k = at[j];
        assert(kept[b[j]] == all[a[b[j]]]);
        assert(all[k] == mv(g.edges[k]));
        assert(q(all[a[b[j]]]));
    }
    assert forall|k: int|
        0 <= k < g.edges.len() && new_end(g.edges[k].von, from, into) != new_end(
            g.edges[k].zu,
            from,
            into,
        ) && (forall|l: int| 0 <= l < k ==> !#[trigger] come_together(
            g.edges,
            from,
            into,
            l,
            k,
        )) implies #[trigger] at.contains(k) by {
        assert(all[k] == mv(g.edges[k]));
        assert(q(all[k]));
        assert(a.contains(k));
        let x = choose|x: int| 0 <= x < a.len() && a[x] == k;
        assert forall|y: int| 0 <= y < x implies !((#[trigger] kept[y]).von == kept[x].von
            && kept[y].zu == kept[x].zu && kept[y].polaritaet == kept[x].polaritaet) by {
            assert(a[y] < a[x]);
            assert(kept[y] == all[a[y]] && kept[x] == all[a[x]]);
            assert(all[a[y]] == mv(g.edges[a[y]]));
            assert(!come_together(g.edges, from, into, a[y], k));
        }
        assert(b.contains(x));
        let j = choose|j: int| 0 <= j < b.len() && b[j] == x;
        assert(at[j] == k);
    }
    at
}

/// A merge loses no link: where an edge led, with its ends moved, an edge of the same
/// polarity leads afterwards.
pub proof fn merge_loses_no_link(g: GraphView, from: Seq<char>, into: Seq<char>, k: int)
    requires
        0 <= k < g.edges.len(),
    ensures
        ({
            let e = g.edges[k];
            let v = if e.von == from {
                into
            } else {
                e.von
            };
            let z = if e.zu == from {
                into
            } else {
                e.zu
            };
            v != z ==> exists|j: int|
                0 <= j < merged(g, from, into).edges.len() && (#[trigger] merged(
                    g,
                    from,
                    into,
                ).edges[j]).von == v && merged(g, from, into).edges[j].zu == z && merged(
                    g,
                    from,
                    into,
                ).edges[j].polaritaet == e.polaritaet
        }),
    decreases k,
{
    let e = g.edges[k];
    let m = merged(g, from, into).edges;
    if new_end(e.von, from, into) != new_end(e.zu, from, into) {
        if forall|l: int| 0 <= l < k ==> !#[trigger] come_together(g.edges, from, into, l, k) {
            let at = merge_moves_edges(g, from, into);
            assert(at.contains(k));
            let j = choose|j: int| 0 <= j < at.len() && at[j] == k;
            assert(m[j].von == new_end(g.edges[at[j]].von, from, into));
        } else {
            let l = choose|l: int|
                0 <= l < k && #[trigger] come_together(g.edges, from, into, l, k);
            merge_loses_no_link(g, from, into, l);
            let j = choose|j: int|
                0 <= j < m.len() && (#[trigger] m[j]).von == new_end(g.edges[l].von, from, into)
                    && m[j].zu == new_end(g.edges[l].zu, from, into) && m[j].polaritaet
                    == g.edges[l].polaritaet;
            assert(m[j].von == new_end(e.von, from, into));
        }
    }
}

/// After a merge no two edges say the same.
pub proof fn merge_leaves_no_doubles(g: GraphView, from: Seq<char>, into: Seq<char>, i: int, j: int)
    requires
        0 <= i < j < merged(g, from, into).edges.len(),
    ensures
        ({
            let a = merged(g, from, into).edges[i];
            let b = merged(g, from, into).edges[j];
            a.von != b.von || a.zu != b.zu || a.polaritaet != b.polaritaet
        }),
{
    let mv = |e: EdgeView| moved(e, from, into);
    let q = |e: EdgeView| e.von != e.zu;
    let kept = g.edges.map_values(mv).filter(q);
    let at = lemma_deduped_picks(kept);
    assert(at[i] < at[j]);
    assert(kept[at[i]].von == kept[at[i]].von);
}

/// The items of the first list, then those of the second that are not there yet.
proof fn lemma_union(a: Seq<Seq<char>>, b: Seq<Seq<char>>)
    ensures
        union_of(a, b).len() >= a.len(),
        union_of(a, b).take(a.len() as int) == a,
        forall|x: Seq<char>| #[trigger]
            union_of(a, b).contains(x) <==> a.contains(x) || b.contains(x),
        forall|i: int, j: int|
            a.len() <= j < union_of(a, b).len() && 0 <= i < j ==> #[trigger] union_of(a, b)[i]
                != #[trigger] union_of(a, b)[j],
    decreases b.len(),
{
    if b.len() == 0 {
        assert(a.take(a.len() as int) =~= a);
    } else {
        let c = b.drop_last();
        let u = union_of(a, c);
        let r = union_of(a, b);
        lemma_union(a, c);
        assert(r.take(a.len() as int) =~= u.take(a.len() as int));
        assert forall|x: Seq<char>| #[trigger] r.contains(x) <==> a.contains(x) || b.contains(
            x,
        ) by {
            if r.contains(x) {
                let i = choose|i: int| 0 <= i < r.len() && r[i] == x;
                if i < u.len() {
                    assert(u[i] == x);
                    assert(u.contains(x));
                    if c.contains(x) {
                        let k = choose|k: int| 0 <= k < c.len() && c[k] == x;
                        assert(b[k] == x);
                    }
                } else {
                    assert(b[b.len() - 1] == x);
                }
            }
            if a.contains(x) || c.contains(x) {
                assert(u.contains(x));
                let i = choose|i: int| 0 <= i < u.len() && u[i] == x;
                assert(r[i] == x);
            } else if b.contains(x) {
                let k = choose|k: int| 0 <= k < b.len() && b[k] == x;
                if k < c.len() {
                    assert(c[k] == x);
                }
                assert(x == b.last());
                if !u.contains(x) {
                    assert(r[u.len() as int] == x);
                }
            }
        }
        assert forall|i: int, j: int|
            a.len() <= j < r.len() && 0 <= i < j implies #[trigger] r[i] != #[trigger] r[j] by {
            if j == u.len() {
                assert(u[i] != r[j]);
            } else {
                assert(u[i] != u[j]);
            }
        }
    }
}

/// The node that survives a merge has, behind its own tags and sources, those of the other
/// that it lacked, each once; all else of it is as it was.
pub proof fn survivor_gains_tags_and_sources(into: NodeView, from: NodeView)
    ensures
        ({
            let n = merged_node(into, from);
            &&& n.id == into.id && n.typ == into.typ && n.inhalt == into.inhalt && n.begruendung
                == into.begruendung && n.datum == into.datum && n.basis_score == into.basis_score
            &&& n.score == into.score && n.status == into.status && n.herkunft == into.herkunft
                && n.frage_id == into.frage_id && n.wert == into.wert
            &&& n.session_id == into.session_id && n.ueberholt == into.ueberholt && n.erledigt
                == into.erledigt
            &&& n.tags.len() >= into.tags.len()
            &&& n.tags.take(into.tags.len() as int) == into.tags
            &&& n.quelle_ids.len() >= into.quelle_ids.len()
            &&& n.quelle_ids.take(into.quelle_ids.len() as int) == into.quelle_ids
            &&& forall|t: Seq<char>| #[trigger]
                n.tags.contains(t) <==> into.tags.contains(t) || from.tags.contains(t)
            &&& forall|t: Seq<char>| #[trigger]
                n.quelle_ids.contains(t) <==> into.quelle_ids.contains(t)
                    || from.quelle_ids.contains(t)
            &&& forall|i: int, j: int|
                into.tags.len() <= j < n.tags.len() && 0 <= i < j ==> #[trigger] n.tags[i]
                    != #[trigger] n.tags[j]
            &&& forall|i: int, j: int|
                into.quelle_ids.len() <= j < n.quelle_ids.len() && 0 <= i < j
                    ==> #[trigger] n.quelle_ids[i] != #[trigger] n.quelle_ids[j]
        }),
{
    lemma_union(into.tags, from.tags);
    lemma_union(into.quelle_ids, from.quelle_ids);
}

/// A merge takes the one node away and changes the other; every other node stays as it is,
/// in its place, and so do questions and documents.
pub proof fn merge_keeps_the_other_nodes(
    g: GraphView,
    from: Seq<char>,
    into: Seq<char>,
    f: int,
    i: int,
) -> (at: Seq<int>)
    requires
        from != into,
        0 <= f < g.nodes.len(),
        0 <= i < g.nodes.len(),
        g.nodes[f].id == from,
        g.nodes[i].id == into,
        forall|k: int|
            0 <= k < g.nodes.len() && k != f ==> (#[trigger] g.nodes[k]).id != from,
        forall|k: int|
            0 <= k < g.nodes.len() && k != i ==> (#[trigger] g.nodes[k]).id != into,
    ensures
        ({
            let m = merged(g, from, into);
            &&& at.len() == m.nodes.len()
            &&& forall|x: int, y: int| 0 <= x < y < at.len() ==> #[trigger] at[x] < #[trigger] at[y]
            &&& forall|j: int|
                0 <= j < at.len() ==> {
                    let k = #[trigger] at[j];
                    &&& 0 <= k < g.nodes.len()
                    &&& k != f
                    &&& k != i ==> m.nodes[j] == g.nodes[k]
                    &&& k == i ==> m.nodes[j] == merged_node(g.nodes[i], g.nodes[f])
                }
            &&& forall|k: int|
                0 <= k < g.nodes.len() && k != f ==> #[trigger] at.contains(k)
            &&& m.fragen == g.fragen
            &&& m.quellen == g.quellen
        }),
{
    lemma_position(g.nodes, into, 0);
    lemma_position(g.nodes, from, 0);
    assert(g.position(into) == Some(i));
    assert(g.position(from) == Some(f));
    let p = |n: NodeView| n.id != from;
    let nodes = g.nodes.update(i, merged_node(g.nodes[i], g.nodes[f]));
    let at = lemma_filter_picks(nodes, p);
    let m = merged(g, from, into);
    assert forall|j: int| 0 <= j < at.len() implies ({
        let k = #[trigger] at[j];
        &&& 0 <= k < g.nodes.len()
        &&& k != f
        &&& k != i ==> m.nodes[j] == g.nodes[k]
        &&& k == i ==> m.nodes[j] == merged_node(g.nodes[i], g.nodes[f])
    }) by {
        assert(p(nodes[at[j]]));
    }
    assert forall|k: int| 0 <= k < g.nodes.len() && k != f implies #[trigger] at.contains(k) by {
        assert(p(nodes[k]));
    }
    at
}

/// When a merge is refused, and what is said: for a node with itself, for a node that is not
/// there, and where it would close a cycle in a graph that has none; never else.
pub proof fn merges_are_refused_for_cause(g: GraphView, from: Seq<char>, into: Seq<char>)
    ensures
        from == into ==> merge_refusal(g, from, into) == Some(
            "merge: 'from' and 'into' are the same"@,
        ),
        from != into && (forall|k: int|
            0 <= k < g.nodes.len() ==> (#[trigger] g.nodes[k]).id != into) ==> merge_refusal(
            g,
            from,
            into,
        ) == Some("merge target not found: "@ + into),
        (exists|k: int| 0 <= k < g.nodes.len() && (#[trigger] g.nodes[k]).id == into) && (forall|
            k: int,
        |
            0 <= k < g.nodes.len() ==> (#[trigger] g.nodes[k]).id != from) ==> merge_refusal(
            g,
            from,
            into,
        ) == Some("merge source not found: "@ + from),
        (exists|k: int| 0 <= k < g.nodes.len() && (#[trigger] g.nodes[k]).id == into) && (exists|
            k: int,
        |
            0 <= k < g.nodes.len() && (#[trigger] g.nodes[k]).id == from) && from != into ==> (
        merge_refusal(g, from, into) == (if acyclic(g.edges) && !acyclic(
            merged(g, from, into).edges,
        ) {
            Some("merge would create a cycle (graph must stay a DAG)"@)
        } else {
            None
        })),
{
}

/// Deleting a node takes it and its edges away, and nothing else.
pub proof fn deleting_a_node_takes_its_edges(g: GraphView, id: Seq<char>)
    ensures
        forall|n: NodeView| #[trigger]
            without_node(g, id).nodes.contains(n) <==> g.nodes.contains(n) && n.id != id,
        forall|e: EdgeView| #[trigger]
            without_node(g, id).edges.contains(e) <==> g.edges.contains(e) && e.von != id && e.zu
                != id,
        without_node(g, id).fragen == g.fragen,
        without_node(g, id).quellen == g.quellen,
{
    let p = |n: NodeView| n.id != id;
    let q = |e: EdgeView| e.von != id && e.zu != id;
    lemma_filter_sound(g.nodes, p);
    lemma_filter_sound(g.edges, q);
    assert forall|n: NodeView| #[trigger]
        without_node(g, id).nodes.contains(n) <==> g.nodes.contains(n) && n.id != id by {
        if g.nodes.contains(n) && n.id != id {
            let k = choose|k: int| 0 <= k < g.nodes.len() && g.nodes[k] == n;
            assert(p(g.nodes[k]));
            lemma_filter_complete(g.nodes, p, k);
        }
        if without_node(g, id).nodes.contains(n) {
            let k = choose|k: int| 0 <= k < g.nodes.filter(p).len() && g.nodes.filter(p)[k] == n;
            assert(p(g.nodes.filter(p)[k]));
        }
    }
    assert forall|e: EdgeView| #[trigger]
        without_node(g, id).edges.contains(e) <==> g.edges.contains(e) && e.von != id && e.zu
            != id by {
        if g.edges.contains(e) && e.von != id && e.zu != id {
            let k = choose|k: int| 0 <= k < g.edges.len() && g.edges[k] == e;
            assert(q(g.edges[k]));
            lemma_filter_complete(g.edges, q, k);
        }
        if without_node(g, id).edges.contains(e) {
            let k = choose|k: int| 0 <= k < g.edges.filter(q).len() && g.edges.filter(q)[k] == e;
            assert(q(g.edges.filter(q)[k]));
        }
    }
}

/// Deleting an edge takes it away, and nothing else.
pub proof fn deleting_an_edge_takes_only_it(g: GraphView, id: Seq<char>)
    ensures
        forall|e: EdgeView| #[trigger]
            without_edge(g, id).edges.contains(e) <==> g.edges.contains(e) && e.id != id,
        without_edge(g, id).nodes == g.nodes,
        without_edge(g, id).fragen == g.fragen,
        without_edge(g, id).quellen == g.quellen,
{
    let q = |e: EdgeView| e.id != id;
    lemma_filter_sound(g.edges, q);
    assert forall|e: EdgeView| #[trigger]
        without_edge(g, id).edges.contains(e) <==> g.edges.contains(e) && e.id != id by {
        if g.edges.contains(e) && e.id != id {
            let k = choose|k: int| 0 <= k < g.edges.len() && g.edges[k] == e;
            assert(q(g.edges[k]));
            lemma_filter_complete(g.edges, q, k);
        }
        if without_edge(g, id).edges.contains(e) {
            let k = choose|k: int| 0 <= k < g.edges.filter(q).len() && g.edges.filter(q)[k] == e;
            assert(q(g.edges.filter(q)[k]));
        }
    }
}

} // verus!

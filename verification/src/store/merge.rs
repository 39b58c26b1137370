//! Merging one node into another.

use vstd::prelude::*;

use crate::error::Error;
use crate::seqs::{lemma_filter_complete, lemma_filter_push, lemma_filter_sound};
use crate::store::cycles::{acyclic, has_cycle};
use crate::store::model::{
    edge_views, lemma_position, node_views, Edge, EdgeView, GraphView, KnowledgeGraph, Node, NodeView,
};
use crate::store::ops::{drop_nodes, refusal, refused};
use crate::text;
use crate::text::texts;

verus! {

/// `a` followed by those texts of `b` that are not there yet.
pub open spec fn union_of(a: Seq<Seq<char>>, b: Seq<Seq<char>>) -> Seq<Seq<char>>
    decreases b.len(),
{
    if b.len() == 0 {
        a
    } else {
        let u = union_of(a, b.drop_last());
        if u.contains(b.last()) {
            u
        } else {
            u.push(b.last())
        }
    }
}

/// An edge with the ends at `from` moved to `into`.
pub open spec fn moved(e: EdgeView, from: Seq<char>, into: Seq<char>) -> EdgeView {
    EdgeView {
        von: if e.von == from {
            into
        } else {
            e.von
        },
        zu: if e.zu == from {
            into
        } else {
            e.zu
        },
        ..e
    }
}

/// Two edges say the same.
pub open spec fn same_link(a: EdgeView, b: EdgeView) -> bool {
    a.von == b.von && a.zu == b.zu && a.polaritaet == b.polaritaet
}

/// Some edge of a list says the same as `e`.
pub open spec fn links_again(s: Seq<EdgeView>, e: EdgeView) -> bool {
    exists|i: int| 0 <= i < s.len() && same_link(#[trigger] s[i], e)
}

/// The edges without those that say the same as an earlier one.
pub open spec fn deduped(s: Seq<EdgeView>) -> Seq<EdgeView>
    decreases s.len(),
{
    if s.len() == 0 {
        s
    } else {
        let d = deduped(s.drop_last());
        if links_again(s.drop_last(), s.last()) {
            d
        } else {
            d.push(s.last())
        }
    }
}

/// The edges after `from` was merged into `into`: moved, without loops and doubles.
pub open spec fn merged_edges(edges: Seq<EdgeView>, from: Seq<char>, into: Seq<char>) -> Seq<
    EdgeView,
> {
    deduped(
        edges.map_values(|e: EdgeView| moved(e, from, into)).filter(
            |e: EdgeView| e.von != e.zu,
        ),
    )
}

/// The node that survives: with the tags and sources of the other.
pub open spec fn merged_node(into: NodeView, from: NodeView) -> NodeView {
    NodeView {
        tags: union_of(into.tags, from.tags),
        quelle_ids: union_of(into.quelle_ids, from.quelle_ids),
        ..into
    }
}

/// The graph after the first node `from` was merged into the first node `into`.
pub open spec fn merged(g: GraphView, from: Seq<char>, into: Seq<char>) -> GraphView {
    let i = g.position(into)->0;
    let n = merged_node(g.nodes[i], g.nodes[g.position(from)->0]);
    GraphView {
        nodes: g.nodes.update(i, n).filter(|n: NodeView| n.id != from),
        edges: merged_edges(g.edges, from, into),
        ..g
    }
}

/// Why a merge is refused, if it is. A cycle that was there before is no reason.
pub open spec fn merge_refusal(g: GraphView, from: Seq<char>, into: Seq<char>) -> Option<Seq<char>> {
    if from == into {
        Some("merge: 'from' and 'into' are the same"@)
    } else if !g.has_node(into) {
        Some("merge target not found: "@ + into)
    } else if !g.has_node(from) {
        Some("merge source not found: "@ + from)
    } else if acyclic(g.edges) && !acyclic(merged_edges(g.edges, from, into)) {
        Some("merge would create a cycle (graph must stay a DAG)"@)
    } else {
        None
    }
}

fn add_missing(into: &mut Vec<String>, from: Vec<String>)
    ensures
        texts(final(into)@) == union_of(texts(old(into)@), texts(from@)),
{
    let ghost start = texts(into@);
    let ghost all = texts(from@);
    let mut i: usize = 0;
    assert(all.take(0) =~= Seq::empty());
    while i < from.len()
        invariant
            all == texts(from@),
            i <= from.len(),
            texts(into@) == union_of(start, all.take(i as int)),
        decreases from.len() - i,
    {
        assert(all.take(i + 1).drop_last() =~= all.take(i as int));
        assert(all.take(i + 1).last() == from@[i as int]@);
        if !text::one_of(&from[i], into) {
            let ghost before = into@;
            into.push(from[i].clone());
            assert(texts(into@) =~= texts(before).push(from@[i as int]@));
        }
        i += 1;
    }
    assert(all.take(all.len() as int) =~= all);
}

proof fn lemma_deduped_links(s: Seq<EdgeView>, e: EdgeView)
    ensures
        links_again(deduped(s), e) == links_again(s, e),
    decreases s.len(),
{
    if s.len() > 0 {
        let t = s.drop_last();
        let x = s.last();
        lemma_deduped_links(t, e);
        lemma_deduped_links(t, x);
        let d = deduped(t);
        if links_again(t, e) {
            let i = choose|i: int| 0 <= i < d.len() && same_link(#[trigger] d[i], e);
            assert(same_link(deduped(s)[i], e));
            let j = choose|j: int| 0 <= j < t.len() && same_link(#[trigger] t[j], e);
            assert(same_link(s[j], e));
        } else if same_link(x, e) {
            assert(same_link(s[s.len() - 1], e));
            if links_again(t, x) {
                let j = choose|j: int| 0 <= j < t.len() && same_link(#[trigger] t[j], x);
                assert(same_link(t[j], e));
            }
            assert(same_link(deduped(s)[d.len() as int], e));
        } else {
            if links_again(s, e) {
                let j = choose|j: int| 0 <= j < s.len() && same_link(#[trigger] s[j], e);
                assert(j < t.len() ==> same_link(t[j], e));
            }
            if links_again(deduped(s), e) {
                let j = choose|j: int|
                    0 <= j < deduped(s).len() && same_link(#[trigger] deduped(s)[j], e);
                assert(j < d.len() ==> same_link(d[j], e));
            }
        }
    }
}

fn has_link(edges: &Vec<Edge>, e: &Edge) -> (r: bool)
    ensures
        r == links_again(edge_views(edges@), e@),
{
    let mut i: usize = 0;
    while i < edges.len()
        invariant
            i <= edges.len(),
            forall|k: int| 0 <= k < i ==> !same_link(#[trigger] edge_views(edges@)[k], e@),
        decreases edges.len() - i,
    {
        assert(edge_views(edges@)[i as int] == edges@[i as int]@);
        if edges[i].von == e.von && edges[i].zu == e.zu && edges[i].polaritaet == e.polaritaet {
            assert(same_link(edge_views(edges@)[i as int], e@));
            return true;
        }
        i += 1;
    }
    false
}

fn move_edges(edges: &Vec<Edge>, from_id: &str, into_id: &str) -> (r: Vec<Edge>)
    ensures
        edge_views(r@) == merged_edges(edge_views(edges@), from_id@, into_id@),
{
    let ghost mv = |e: EdgeView| moved(e, from_id@, into_id@);
    let ghost q = |e: EdgeView| e.von != e.zu;
    let ghost all = edge_views(edges@).map_values(mv);
    let mut out: Vec<Edge> = Vec::new();
    let mut i: usize = 0;
    proof {
        reveal(Seq::filter);
        assert(all.take(0).filter(q) =~= Seq::empty());
        assert(edge_views(out@) =~= deduped(all.take(0).filter(q)));
    }
    while i < edges.len()
        invariant
            mv == (|e: EdgeView| moved(e, from_id@, into_id@)),
            q == (|e: EdgeView| e.von != e.zu),
            all == edge_views(edges@).map_values(mv),
            i <= edges.len(),
            edge_views(out@) == deduped(all.take(i as int).filter(q)),
        decreases edges.len() - i,
    {
        let mut e: Edge = edges[i].copy();
        if text::same(&e.von, from_id) {
            e.von = into_id.to_owned();
        }
        if text::same(&e.zu, from_id) {
            e.zu = into_id.to_owned();
        }
        let ghost kept = all.take(i as int).filter(q);
        proof {
            assert(e@ =~= all[i as int]);
            assert(all.take(i + 1) =~= all.take(i as int).push(all[i as int]));
            lemma_filter_push(all.take(i as int), all[i as int], q);
            lemma_deduped_links(kept, e@);
            assert(kept.push(e@).drop_last() =~= kept);
        }
        if !(e.von == e.zu) {
            if !has_link(&out, &e) {
                let ghost before = out@;
                out.push(e);
                assert(edge_views(out@) =~= edge_views(before).push(all[i as int]));
            }
        }
        i += 1;
    }
    assert(all.take(all.len() as int) =~= all);
    out
}

/// Merges a node into another: its edges move, its tags and sources are added, and it
/// goes. Loops and doubled edges go too. A merge that would close a cycle is refused.
pub fn merge_nodes(graph: &mut KnowledgeGraph, from_id: &str, into_id: &str) -> (r: Result<
    Node,
    Error,
>)
    ensures
        match merge_refusal(old(graph)@, from_id@, into_id@) {
            Some(text) => {
                &&& r matches Err(e) && refused(e, text)
                &&& final(graph)@ == old(graph)@
            },
            None => {
                &&& r matches Ok(n) && n@ == merged_node(
                    old(graph)@.nodes[old(graph)@.position(into_id@)->0],
                    old(graph)@.nodes[old(graph)@.position(from_id@)->0],
                )
                &&& final(graph)@ == merged(old(graph)@, from_id@, into_id@)
            },
        },
{
    let ghost before = graph@;
    if text::same(from_id, into_id) {
        return Err(Error::Msg("merge: 'from' and 'into' are the same".to_owned()));
    }
    let i: usize = match graph.find_node(into_id) {
        Some(i) => i,
        None => return Err(refusal("merge target not found: ", into_id)),
    };
    let f: usize = match graph.find_node(from_id) {
        Some(f) => f,
        None => return Err(refusal("merge source not found: ", from_id)),
    };
    let edges: Vec<Edge> = move_edges(&graph.edges, from_id, into_id);
    if has_cycle(&edges) && !has_cycle(&graph.edges) {
        return Err(
            Error::Msg("merge would create a cycle (graph must stay a DAG)".to_owned()),
        );
    }
    let from: Node = graph.nodes[f].copy();
    let mut into: Node = graph.nodes.remove(i);
    assert(into@ == before.nodes[i as int]);
    add_missing(&mut into.tags, from.tags);
    add_missing(&mut into.quelle_ids, from.quelle_ids);
    let r: Node = into.copy();
    graph.nodes.insert(i, into);
    assert(node_views(graph.nodes@) =~= before.nodes.update(i as int, r@));
    graph.edges = edges;
    drop_nodes(&mut graph.nodes, from_id);
    assert(r@ =~= merged_node(before.nodes[i as int], before.nodes[f as int]));
    assert(graph@ =~= merged(before, from_id@, into_id@));
    Ok(r)
}

/// What is left after dropping repeated links was there before, and links nothing twice.
pub proof fn lemma_deduped_sound(s: Seq<EdgeView>)
    ensures
        forall|i: int| 0 <= i < deduped(s).len() ==> s.contains(#[trigger] deduped(s)[i]),
        forall|i: int, j: int|
            0 <= i < j < deduped(s).len() ==> !same_link(
                #[trigger] deduped(s)[i],
                #[trigger] deduped(s)[j],
            ),
    decreases s.len(),
{
    if s.len() > 0 {
        let t = s.drop_last();
        let d = deduped(t);
        lemma_deduped_sound(t);
        lemma_deduped_links(t, s.last());
        assert forall|i: int| 0 <= i < deduped(s).len() implies s.contains(
            #[trigger] deduped(s)[i],
        ) by {
            if i < d.len() {
                assert(deduped(s)[i] == d[i]);
                let k = choose|k: int| 0 <= k < t.len() && t[k] == d[i];
                assert(s[k] == d[i]);
            } else {
                assert(s[s.len() - 1] == deduped(s)[i]);
            }
        }
        assert forall|i: int, j: int| 0 <= i < j < deduped(s).len() implies !same_link(
            #[trigger] deduped(s)[i],
            #[trigger] deduped(s)[j],
        ) by {
            assert(deduped(s)[i] == d[i]);
            if j < d.len() {
                assert(deduped(s)[j] == d[j]);
            }
        }
    }
}

/// After a merge the source is gone: no node has its id and no edge touches it. No
/// edge is a loop, and no two edges say the same.
pub proof fn merge_leaves_nothing_behind(g: GraphView, from: Seq<char>, into: Seq<char>)
    requires
        merge_refusal(g, from, into) is None,
    ensures
        !merged(g, from, into).has_node(from),
        merged(g, from, into).has_node(into),
        forall|i: int|
            0 <= i < merged(g, from, into).edges.len() ==> {
                let e = #[trigger] merged(g, from, into).edges[i];
                e.von != from && e.zu != from && e.von != e.zu
            },
        forall|i: int, j: int|
            0 <= i < j < merged(g, from, into).edges.len() ==> !same_link(
                #[trigger] merged(g, from, into).edges[i],
                #[trigger] merged(g, from, into).edges[j],
            ),
{
    let m = merged(g, from, into);
    let p = |n: NodeView| n.id != from;
    lemma_position(g.nodes, into, 0);
    lemma_position(g.nodes, from, 0);
    let at = g.position(into)->0;
    let nodes = g.nodes.update(
        at,
        merged_node(g.nodes[at], g.nodes[g.position(from)->0]),
    );
    lemma_filter_sound(nodes, p);
    assert(p(nodes[at]));
    lemma_filter_complete(nodes, p, at);
    let k = choose|k: int| 0 <= k < m.nodes.len() && m.nodes[k] == nodes[at];
    assert(m.nodes[k].id == into);
    let mv = g.edges.map_values(|e: EdgeView| moved(e, from, into));
    let q = |e: EdgeView| e.von != e.zu;
    lemma_filter_sound(mv, q);
    lemma_deduped_sound(mv.filter(q));
    assert forall|i: int| 0 <= i < m.edges.len() implies ({
        let e = #[trigger] m.edges[i];
        e.von != from && e.zu != from && e.von != e.zu
    }) by {
        let e = m.edges[i];
        assert(mv.filter(q).contains(e));
        let a = choose|a: int| 0 <= a < mv.filter(q).len() && mv.filter(q)[a] == e;
        assert(q(mv.filter(q)[a]));
        assert(mv.contains(mv.filter(q)[a]));
        let b = choose|b: int| 0 <= b < mv.len() && mv[b] == e;
        assert(mv[b] == moved(g.edges[b], from, into));
    }
}

} // verus!

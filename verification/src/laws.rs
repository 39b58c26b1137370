//! What holds across requests, whatever the graph and whatever is asked.

pub mod answers;
pub mod applying;
pub mod merging;
pub mod paths;
pub mod queries;
pub mod reports;
pub mod requests;
pub mod scores;
pub mod serving;
pub mod storing;
pub mod values;
pub mod watching;

use vstd::prelude::*;

use crate::dispatch::{
    annotated, dispatched, linked_all, links_field, nonempty_text, plain_texts, record_done,
    text_array, typ_field, updated, AnswerView, FreshView, Numbers,
};
use crate::ipc::{ReplyView, RequestView};
use crate::json::{
    field, lookup, opt_field, opt_text_json, text_field, text_list, texts_json, JsonView,
};
use crate::observer::apply::{
    applied, applied_once, full_request, known_only, no_numbers, opt_flag_json, opt_texts_json,
    request_of, update_payload,
};
use crate::observer::contract::{OpView, UpdateFieldsView};
use crate::score::Score;
use crate::seqs::{lemma_filter_complete, lemma_filter_sound};
use crate::store::cycles::{acyclic, fewer_edges_keep_acyclic, new_edge_keeps_acyclic};
use crate::store::filter::edges_join_nodes;
use crate::store::lookup::{duplicate, recorded_is_duplicate, resolved};
use crate::store::merge::{merge_leaves_nothing_behind, merge_refusal, merged, merged_node, moved};
use crate::store::model::{lemma_position, EdgeView, GraphView, NodeType, NodeView, QuelleView};
use crate::store::ops::{
    edge_refusal, new_edge, new_node, with_edge, with_fact, without_edge, without_node,
};
use crate::store::scoring::{rescored, ScoringView};
use crate::text::{lowercase, trimmed};

verus! {

/// The graph is sound: its edges join its nodes, and no path along them returns to where
/// it began.
pub open spec fn sound(g: GraphView) -> bool {
    edges_join_nodes(g) && acyclic(g.edges)
}

// ---- single changes ----

/// Adding an edge keeps a graph sound: an edge that would close a cycle, or that has an
/// end missing, is not added.
pub proof fn adding_an_edge_keeps_sound(
    g: GraphView,
    id: Seq<char>,
    von: Seq<char>,
    zu: Seq<char>,
    polaritaet: Seq<char>,
    gewicht: Option<Score>,
)
    requires
        sound(g),
    ensures
        sound(with_edge(g, id, von, zu, polaritaet, gewicht)),
{
    lemma_edge_keeps(g, id, von, zu, polaritaet, gewicht);
}

/// What is sound in `g` is so in `h`.
spec fn keeps(g: GraphView, h: GraphView) -> bool {
    &&& edges_join_nodes(g) ==> edges_join_nodes(h)
    &&& acyclic(g.edges) ==> acyclic(h.edges)
}

proof fn lemma_edge_keeps(
    g: GraphView,
    id: Seq<char>,
    von: Seq<char>,
    zu: Seq<char>,
    polaritaet: Seq<char>,
    gewicht: Option<Score>,
)
    ensures
        keeps(g, with_edge(g, id, von, zu, polaritaet, gewicht)),
{
    if edge_refusal(g, von, zu, polaritaet) is None {
        let e = new_edge(id, von, zu, polaritaet, gewicht);
        if acyclic(g.edges) {
            new_edge_keeps_acyclic(g.edges, e);
        }
        let h = with_edge(g, id, von, zu, polaritaet, gewicht);
        assert forall|k: int|
            edges_join_nodes(g) && 0 <= k < h.edges.len() implies h.has_node((#[trigger] h.edges[k]).von)
            && h.has_node(h.edges[k].zu) by {
            if k < g.edges.len() {
                assert(h.edges[k] == g.edges[k]);
                lemma_same_nodes(g, h, g.edges[k].von);
                lemma_same_nodes(g, h, g.edges[k].zu);
            } else {
                lemma_same_nodes(g, h, von);
                lemma_same_nodes(g, h, zu);
            }
        }
    }
}

proof fn lemma_same_nodes(g: GraphView, h: GraphView, id: Seq<char>)
    requires
        g.has_node(id),
        h.nodes.len() >= g.nodes.len(),
        forall|i: int| 0 <= i < g.nodes.len() ==> (#[trigger] h.nodes[i]).id == g.nodes[i].id,
    ensures
        h.has_node(id),
{
    let i = choose|i: int| 0 <= i < g.nodes.len() && (#[trigger] g.nodes[i]).id == id;
    assert(h.nodes[i].id == id);
}

/// The ids of the nodes of `g` are, in order, the first ids of the nodes of `h`, and both
/// have the same edges.
spec fn extends(g: GraphView, h: GraphView) -> bool {
    &&& h.edges == g.edges
    &&& h.nodes.len() >= g.nodes.len()
    &&& forall|i: int| 0 <= i < g.nodes.len() ==> (#[trigger] h.nodes[i]).id == g.nodes[i].id
}

proof fn lemma_extends_keeps(g: GraphView, h: GraphView)
    requires
        extends(g, h),
    ensures
        keeps(g, h),
{
    assert forall|k: int|
        edges_join_nodes(g) && 0 <= k < h.edges.len() implies h.has_node((#[trigger] h.edges[k]).von)
        && h.has_node(h.edges[k].zu) by {
        assert(h.edges[k] == g.edges[k]);
        lemma_same_nodes(g, h, g.edges[k].von);
        lemma_same_nodes(g, h, g.edges[k].zu);
    }
}

/// Deleting a node keeps a graph sound and leaves nothing of the node: no node has its id
/// and no edge touches it. The other nodes stay.
pub proof fn deleting_a_node_keeps_sound(g: GraphView, id: Seq<char>)
    requires
        sound(g),
    ensures
        sound(without_node(g, id)),
        !without_node(g, id).has_node(id),
        forall|k: int|
            0 <= k < without_node(g, id).edges.len() ==> (#[trigger] without_node(
                g,
                id,
            ).edges[k]).von != id && without_node(g, id).edges[k].zu != id,
        forall|other: Seq<char>|
            other != id && g.has_node(other) ==> #[trigger] without_node(g, id).has_node(other),
{
    let h = without_node(g, id);
    let np = |n: NodeView| n.id != id;
    let ep = |e: EdgeView| e.von != id && e.zu != id;
    lemma_filter_sound(g.nodes, np);
    lemma_filter_sound(g.edges, ep);
    assert forall|k: int| 0 <= k < h.edges.len() implies g.edges.contains(#[trigger] h.edges[k])
        && h.edges[k].von != id && h.edges[k].zu != id by {
        assert(ep(g.edges.filter(ep)[k]));
    }
    fewer_edges_keep_acyclic(g.edges, h.edges);
    assert forall|other: Seq<char>| other != id && g.has_node(other) implies #[trigger] h.has_node(
        other,
    ) by {
        let i = choose|i: int| 0 <= i < g.nodes.len() && (#[trigger] g.nodes[i]).id == other;
        assert(np(g.nodes[i]));
        lemma_filter_complete(g.nodes, np, i);
        let k = choose|k: int| 0 <= k < h.nodes.len() && h.nodes[k] == g.nodes[i];
        assert(h.nodes[k].id == other);
    }
    assert forall|k: int| 0 <= k < h.edges.len() implies h.has_node((#[trigger] h.edges[k]).von)
        && h.has_node(h.edges[k].zu) by {
        let e = h.edges[k];
        assert(g.edges.contains(e));
        let j = choose|j: int| 0 <= j < g.edges.len() && g.edges[j] == e;
        assert(g.has_node(g.edges[j].von) && g.has_node(g.edges[j].zu));
    }
    if h.has_node(id) {
        let i = choose|i: int| 0 <= i < h.nodes.len() && (#[trigger] h.nodes[i]).id == id;
        assert(np(g.nodes.filter(np)[i]));
    }
}

/// Deleting an edge keeps a graph sound and leaves no edge with its id.
pub proof fn deleting_an_edge_keeps_sound(g: GraphView, id: Seq<char>)
    requires
        sound(g),
    ensures
        sound(without_edge(g, id)),
        forall|k: int|
            0 <= k < without_edge(g, id).edges.len() ==> (#[trigger] without_edge(
                g,
                id,
            ).edges[k]).id != id,
{
    let h = without_edge(g, id);
    let ep = |e: EdgeView| e.id != id;
    lemma_filter_sound(g.edges, ep);
    assert forall|k: int| 0 <= k < h.edges.len() implies g.edges.contains(#[trigger] h.edges[k])
        && h.edges[k].id != id by {
        assert(ep(g.edges.filter(ep)[k]));
    }
    fewer_edges_keep_acyclic(g.edges, h.edges);
    assert forall|k: int| 0 <= k < h.edges.len() implies h.has_node((#[trigger] h.edges[k]).von)
        && h.has_node(h.edges[k].zu) by {
        let e = h.edges[k];
        assert(g.edges.contains(e));
        let j = choose|j: int| 0 <= j < g.edges.len() && g.edges[j] == e;
        lemma_same_nodes(g, h, g.edges[j].von);
        lemma_same_nodes(g, h, g.edges[j].zu);
    }
}

/// A merge leaves no edge hanging: where the edges join nodes before, they do so after.
pub proof fn merging_keeps_edges_joined(g: GraphView, from: Seq<char>, into: Seq<char>)
    requires
        edges_join_nodes(g),
        merge_refusal(g, from, into) is None,
    ensures
        edges_join_nodes(merged(g, from, into)),
{
    let m = merged(g, from, into);
    merge_leaves_nothing_behind(g, from, into);
    let mv = g.edges.map_values(|e: EdgeView| moved(e, from, into));
    let q = |e: EdgeView| e.von != e.zu;
    lemma_filter_sound(mv, q);
    crate::store::merge::lemma_deduped_sound(mv.filter(q));
    assert forall|k: int| 0 <= k < m.edges.len() implies m.has_node((#[trigger] m.edges[k]).von)
        && m.has_node(m.edges[k].zu) by {
        let e = m.edges[k];
        assert(mv.filter(q).contains(e));
        let a = choose|a: int| 0 <= a < mv.filter(q).len() && mv.filter(q)[a] == e;
        assert(mv.contains(mv.filter(q)[a]));
        let b = choose|b: int| 0 <= b < mv.len() && mv[b] == e;
        let o = g.edges[b];
        assert(mv[b] == moved(o, from, into));
        assert(g.has_node(g.edges[b].von) && g.has_node(g.edges[b].zu));
        lemma_survives(g, from, into, e.von);
        lemma_survives(g, from, into, e.zu);
    }
}

/// A merge keeps a graph sound: one that would close a cycle is refused.
pub proof fn merging_keeps_sound(g: GraphView, from: Seq<char>, into: Seq<char>)
    requires
        sound(g),
        merge_refusal(g, from, into) is None,
    ensures
        sound(merged(g, from, into)),
{
    merging_keeps_edges_joined(g, from, into);
}

proof fn lemma_survives(g: GraphView, from: Seq<char>, into: Seq<char>, id: Seq<char>)
    requires
        merge_refusal(g, from, into) is None,
        id != from,
        id == into || g.has_node(id),
    ensures
        merged(g, from, into).has_node(id),
{
    let m = merged(g, from, into);
    let p = |n: NodeView| n.id != from;
    lemma_position(g.nodes, into, 0);
    let at = g.position(into)->0;
    let nodes = g.nodes.update(at, merged_node(g.nodes[at], g.nodes[g.position(from)->0]));
    let i = choose|i: int| 0 <= i < g.nodes.len() && (#[trigger] g.nodes[i]).id == id;
    assert(g.has_node(id));
    assert(nodes[i].id == id);
    assert(p(nodes[i]));
    lemma_filter_complete(nodes, p, i);
    let k = choose|k: int| 0 <= k < m.nodes.len() && m.nodes[k] == nodes[i];
    assert(m.nodes[k].id == id);
}

// ---- requests ----

proof fn lemma_annotated_extends(g: GraphView, id: Seq<char>, p: JsonView, session: Seq<char>)
    ensures
        extends(g, annotated(g, id, p, session)),
        annotated(g, id, p, session).nodes.len() == g.nodes.len(),
        forall|i: int|
            0 <= i < g.nodes.len() ==> (#[trigger] annotated(g, id, p, session).nodes[i]).typ
                == g.nodes[i].typ && annotated(g, id, p, session).nodes[i].inhalt
                == g.nodes[i].inhalt,
{
    lemma_position(g.nodes, id, 0);
    let u = updated(g, id, text_array(p, "quellen"@, false), text_array(p, "tags"@, true));
    lemma_position(u.nodes, id, 0);
}

proof fn lemma_linked_keeps(
    base: GraphView,
    new_id: Seq<char>,
    edge_ids: Seq<Seq<char>>,
    links: Seq<JsonView>,
    n: int,
)
    ensures
        keeps(base, linked_all(base, new_id, edge_ids, links, n).0),
        linked_all(base, new_id, edge_ids, links, n).0.nodes == base.nodes,
    decreases n,
{
    if n > 0 {
        lemma_linked_keeps(base, new_id, edge_ids, links, n - 1);
        let g = linked_all(base, new_id, edge_ids, links, n - 1).0;
        assert forall|von: Seq<char>, zu: Seq<char>, pol: Seq<char>| keeps(
            g,
            #[trigger] with_edge(g, edge_ids[n - 1], von, zu, pol, None),
        ) by {
            lemma_edge_keeps(g, edge_ids[n - 1], von, zu, pol, None);
        }
    }
}

proof fn lemma_linked_nodes(
    base: GraphView,
    new_id: Seq<char>,
    edge_ids: Seq<Seq<char>>,
    links: Seq<JsonView>,
    n: int,
)
    ensures
        linked_all(base, new_id, edge_ids, links, n).0.nodes == base.nodes,
    decreases n,
{
    if n > 0 {
        lemma_linked_nodes(base, new_id, edge_ids, links, n - 1);
    }
}

/// Every request keeps a sound graph sound.
pub proof fn requests_keep_sound(
    r: RequestView,
    enabled: bool,
    numbers: Numbers,
    g: GraphView,
    documents: Seq<QuelleView>,
    f: FreshView,
)
    requires
        sound(g),
    ensures
        sound(dispatched(r, enabled, numbers, g, documents, f).graph),
{
    lemma_request_keeps(r, enabled, numbers, g, documents, f);
}

proof fn lemma_request_keeps(
    r: RequestView,
    enabled: bool,
    numbers: Numbers,
    g: GraphView,
    documents: Seq<QuelleView>,
    f: FreshView,
)
    ensures
        keeps(g, dispatched(r, enabled, numbers, g, documents, f).graph),
{
    let p = r.payload;
    let d = dispatched(r, enabled, numbers, g, documents, f);
    if r.op == "ping"@ || !enabled {
    } else if r.op == "record"@ {
        if let (Some(typ), Some(inhalt), Some(why)) = (
            typ_field(p),
            text_field(p, "inhalt"@),
            nonempty_text(p, "begruendung"@),
        ) {
            if duplicate(g.nodes, typ, inhalt, 0) is None {
                let n = new_node(
                    f.node_id,
                    f.datum,
                    typ,
                    inhalt,
                    why,
                    numbers.basis_score,
                    "session"@,
                    None,
                    None,
                );
                let g1 = GraphView { nodes: g.nodes.push(n), ..g };
                lemma_extends_keeps(g, g1);
                lemma_annotated_extends(g1, f.node_id, p, r.session_id);
                let g2 = annotated(g1, f.node_id, p, r.session_id);
                lemma_extends_keeps(g1, g2);
                let links = links_field(p);
                lemma_linked_keeps(g2, f.node_id, f.edge_ids, links, links.len() as int);
            }
        }
    } else if r.op == "link"@ {
        assert forall|von: Seq<char>, zu: Seq<char>, pol: Seq<char>| keeps(
            g,
            #[trigger] with_edge(g, f.edge_ids[0], von, zu, pol, numbers.gewicht),
        ) by {
            lemma_edge_keeps(g, f.edge_ids[0], von, zu, pol, numbers.gewicht);
        }
    } else if r.op == "merge"@ {
        if let (Some(from_ref), Some(into_ref)) = (
            nonempty_text(p, "from"@),
            nonempty_text(p, "into"@),
        ) {
            if let (Ok(from), Ok(into)) = (resolved(g, from_ref), resolved(g, into_ref)) {
                if merge_refusal(g, from, into) is None && edges_join_nodes(g) {
                    merging_keeps_edges_joined(g, from, into);
                }
            }
        }
    } else if r.op == "add_fact"@ {
        if let (Some(frage), Some(wert), Some(inhalt)) = (
            text_field(p, "frage"@),
            text_field(p, "wert"@),
            text_field(p, "inhalt"@),
        ) {
            if let Some(why) = nonempty_text(p, "begruendung"@) {
                let g1 = with_fact(
                    g,
                    f.frage_id,
                    f.node_id,
                    f.datum,
                    frage,
                    wert,
                    inhalt,
                    why,
                    numbers.basis_score,
                    "session"@,
                );
                lemma_extends_keeps(g, g1);
                lemma_annotated_extends(g1, f.node_id, p, r.session_id);
                lemma_extends_keeps(g1, annotated(g1, f.node_id, p, r.session_id));
            }
        }
    } else if r.op == "update"@ {
        if let Some(id) = nonempty_text(p, "id"@) {
            lemma_position(g.nodes, id, 0);
            lemma_extends_keeps(g, d.graph);
        }
    } else if r.op == "list_documents"@ {
        lemma_extends_keeps(g, d.graph);
    }
}

/// Every request leaves the edges joined to nodes where they were so before, whether or not
/// they run in cycles.
pub proof fn requests_keep_edges_joined(
    r: RequestView,
    enabled: bool,
    numbers: Numbers,
    g: GraphView,
    documents: Seq<QuelleView>,
    f: FreshView,
)
    requires
        edges_join_nodes(g),
    ensures
        edges_join_nodes(dispatched(r, enabled, numbers, g, documents, f).graph),
{
    lemma_request_keeps(r, enabled, numbers, g, documents, f);
}

/// Whatever the observer answers, a sound graph stays sound.
pub proof fn answers_keep_sound(
    g: GraphView,
    ops: Seq<OpView>,
    known: Seq<Seq<char>>,
    project_dir: Seq<char>,
    session: Seq<char>,
    enabled: bool,
    fresh: Seq<FreshView>,
    n: int,
)
    requires
        sound(g),
    ensures
        sound(applied(g, ops, known, project_dir, session, enabled, fresh, n).0),
    decreases n,
{
    if n > 0 {
        answers_keep_sound(g, ops, known, project_dir, session, enabled, fresh, n - 1);
        let before = applied(g, ops, known, project_dir, session, enabled, fresh, n - 1).0;
        if let Some(q) = request_of(ops[n - 1], known) {
            lemma_request_keeps(
                full_request(q, project_dir, session),
                enabled,
                no_numbers(),
                before,
                Seq::empty(),
                fresh[n - 1],
            );
        }
    }
}

/// The text is not blank and has no white space at its ends.
pub open spec fn is_bare(s: Seq<char>) -> bool {
    s.len() > 0 && trimmed(s) == s
}

/// A correction that names sources puts them in the place of the old ones, as far as they
/// are known, also where none is left; one that names none leaves the old ones. Either way
/// it counts as a change. (A source that is not bare is trimmed, or left out where blank.)
pub proof fn given_sources_replace_old_ones(
    g: GraphView,
    id: Seq<char>,
    fields: UpdateFieldsView,
    known: Seq<Seq<char>>,
    project_dir: Seq<char>,
    session: Seq<char>,
    f: FreshView,
)
    requires
        trimmed(id).len() > 0,
        g.has_node(id),
        fields.typ matches Some(t) ==> NodeType::of_code(lowercase(trimmed(t))) is Some,
        fields.quellen matches Some(q) ==> forall|i: int|
            0 <= i < q.len() && known.contains(#[trigger] q[i]) ==> is_bare(q[i]),
    ensures
        ({
            let op = OpView::Update { id, fields };
            let after = applied_once(g, op, known, project_dir, session, true, f);
            let i = g.position(id)->0;
            &&& after.1
            &&& after.0.nodes.len() == g.nodes.len()
            &&& after.0.nodes[i].id == id
            &&& after.0.nodes[i].quelle_ids == (match fields.quellen {
                Some(q) => known_only(q, known),
                None => g.nodes[i].quelle_ids,
            })
        }),
{
    lemma_position(g.nodes, id, 0);
    lemma_update_fields(id, fields, known);
    reveal_strlit("update");
    reveal_strlit("ping");
    reveal_strlit("query");
    reveal_strlit("get");
    reveal_strlit("record");
    reveal_strlit("link");
    reveal_strlit("merge");
    reveal_strlit("add_fact");
    reveal_strlit("list_documents");
    assert("update"@[0] == 'u');
    assert("ping"@[0] == 'p' && "query"@[0] == 'q' && "get"@[0] == 'g' && "record"@[0] == 'r');
    assert("link"@[0] == 'l' && "merge"@[0] == 'm' && "add_fact"@[0] == 'a');
    assert("list_documents"@[0] == 'l');
    if let Some(q) = fields.quellen {
        let ids = known_only(q, known);
        let p = |x: Seq<char>| known.contains(x);
        lemma_filter_sound(q, p);
        assert forall|k: int| 0 <= k < ids.len() implies trimmed(#[trigger] ids[k]) == ids[k]
            && ids[k].len() > 0 by {
            assert(p(q.filter(p)[k]));
            assert(q.contains(ids[k]));
            let j = choose|j: int| 0 <= j < q.len() && q[j] == ids[k];
            assert(is_bare(q[j]));
        }
        lemma_plain_texts(ids, ids.len() as int);
        assert(ids.take(ids.len() as int) =~= ids);
    }
}

proof fn lemma_plain_texts(ids: Seq<Seq<char>>, n: int)
    requires
        0 <= n <= ids.len(),
        forall|k: int| 0 <= k < ids.len() ==> trimmed(#[trigger] ids[k]) == ids[k],
        forall|k: int| 0 <= k < ids.len() ==> (#[trigger] ids[k]).len() > 0,
    ensures
        plain_texts(ids.map_values(|t: Seq<char>| JsonView::Str(t)), true, n) == ids.take(n),
    decreases n,
{
    if n > 0 {
        lemma_plain_texts(ids, n - 1);
        assert(ids.take(n) =~= ids.take(n - 1).push(ids[n - 1]));
        assert(trimmed(ids[n - 1]) == ids[n - 1]);
    } else {
        assert(ids.take(0) =~= Seq::empty());
    }
}

/// What the payload of a correction holds under the keys that matter here.
proof fn lemma_update_fields(id: Seq<char>, u: UpdateFieldsView, known: Seq<Seq<char>>)
    ensures
        field(update_payload(id, u, known), "id"@) == Some(JsonView::Str(id)),
        field(update_payload(id, u, known), "typ"@) == opt_text_json(u.typ),
        field(update_payload(id, u, known), "quellen"@) == (match u.quellen {
            Some(q) => Some(texts_json(known_only(q, known))),
            None => None,
        }),
{
    reveal_strlit("id");
    reveal_strlit("inhalt");
    reveal_strlit("begruendung");
    reveal_strlit("typ");
    reveal_strlit("tags");
    reveal_strlit("ueberholt");
    reveal_strlit("erledigt");
    reveal_strlit("quellen");
    assert("id"@.len() == 2 && "inhalt"@.len() == 6 && "begruendung"@.len() == 11);
    assert("typ"@.len() == 3 && "tags"@.len() == 4 && "ueberholt"@.len() == 9);
    assert("erledigt"@.len() == 8 && "quellen"@.len() == 7);
    let f0 = seq![("id"@, JsonView::Str(id))];
    let f1 = opt_field("inhalt"@, opt_text_json(u.inhalt));
    let f2 = opt_field("begruendung"@, opt_text_json(u.begruendung));
    let f3 = opt_field("typ"@, opt_text_json(u.typ));
    let f4 = opt_field("tags"@, opt_texts_json(u.tags));
    let f5 = opt_field("ueberholt"@, opt_flag_json(u.ueberholt));
    let f6 = opt_field("erledigt"@, opt_flag_json(u.erledigt));
    let q = match u.quellen {
        Some(q) => Some(texts_json(known_only(q, known))),
        None => None,
    };
    let f7 = opt_field("quellen"@, q);
    assert(update_payload(id, u, known) == JsonView::Obj(
        f0 + f1 + f2 + f3 + f4 + f5 + f6 + f7,
    ));
    assert forall|key: Seq<char>| true implies #[trigger] lookup(
        f0 + f1 + f2 + f3 + f4 + f5 + f6 + f7,
        key,
    ) == (if key == "id"@ {
        Some(JsonView::Str(id))
    } else if key == "typ"@ {
        opt_text_json(u.typ)
    } else if key == "quellen"@ {
        q
    } else {
        lookup(f0 + f1 + f2 + f3 + f4 + f5 + f6 + f7, key)
    }) by {
        if key == "id"@ || key == "typ"@ || key == "quellen"@ {
            lemma_lookup_add(f0 + f1 + f2 + f3 + f4 + f5 + f6, f7, key);
            lemma_lookup_add(f0 + f1 + f2 + f3 + f4 + f5, f6, key);
            lemma_lookup_add(f0 + f1 + f2 + f3 + f4, f5, key);
            lemma_lookup_add(f0 + f1 + f2 + f3, f4, key);
            lemma_lookup_add(f0 + f1 + f2, f3, key);
            lemma_lookup_add(f0 + f1, f2, key);
            lemma_lookup_add(f0, f1, key);
            lemma_lookup_one("id"@, Some(JsonView::Str(id)), key);
            lemma_lookup_one("inhalt"@, opt_text_json(u.inhalt), key);
            lemma_lookup_one("begruendung"@, opt_text_json(u.begruendung), key);
            lemma_lookup_one("typ"@, opt_text_json(u.typ), key);
            lemma_lookup_one("tags"@, opt_texts_json(u.tags), key);
            lemma_lookup_one("ueberholt"@, opt_flag_json(u.ueberholt), key);
            lemma_lookup_one("erledigt"@, opt_flag_json(u.erledigt), key);
            lemma_lookup_one("quellen"@, q, key);
        }
    }
}

pub proof fn lemma_lookup_one(key: Seq<char>, v: Option<JsonView>, asked: Seq<char>)
    ensures
        lookup(opt_field(key, v), asked) == (if key == asked {
            v
        } else {
            None
        }),
{
    reveal_with_fuel(lookup, 2);
    if v is Some {
        assert(opt_field(key, v).skip(1) =~= Seq::empty());
    }
}

pub proof fn lemma_lookup_add(
    a: Seq<(Seq<char>, JsonView)>,
    b: Seq<(Seq<char>, JsonView)>,
    key: Seq<char>,
)
    ensures
        lookup(a + b, key) == (match lookup(a, key) {
            Some(v) => Some(v),
            None => lookup(b, key),
        }),
    decreases a.len(),
{
    if a.len() == 0 {
        assert(a + b =~= b);
    } else {
        assert((a + b).skip(1) =~= a.skip(1) + b);
        lemma_lookup_add(a.skip(1), b, key);
    }
}

/// Only documents that are known are cited, whatever the observer names as its sources.
pub proof fn cited_documents_are_known(op: OpView, known: Seq<Seq<char>>)
    ensures
        request_of(op, known) matches Some(q) ==> (field(q.1, "quellen"@) matches Some(v)
            ==> (text_list(v) matches Some(ids) && forall|i: int|
            0 <= i < ids.len() ==> known.contains(#[trigger] ids[i]))),
{
    reveal_strlit("quellen");
    reveal_strlit("typ");
    reveal_strlit("inhalt");
    reveal_strlit("begruendung");
    reveal_strlit("tags");
    reveal_strlit("links");
    reveal_strlit("id");
    reveal_strlit("ueberholt");
    reveal_strlit("erledigt");
    reveal_strlit("von");
    reveal_strlit("zu");
    reveal_strlit("polaritaet");
    assert("quellen"@[0] == 'q');
    if let Some(q) = request_of(op, known) {
        if let JsonView::Obj(fields) = q.1 {
            lemma_lookup(fields, "quellen"@);
            if let Some(v) = lookup(fields, "quellen"@) {
                let i = choose|i: int| 0 <= i < fields.len() && fields[i] == ("quellen"@, v);
                match op {
                    OpView::Add { typ, inhalt, begruendung, tags, links, quellen } => {
                        assert("typ"@[0] == 't' && "inhalt"@[0] == 'i' && "begruendung"@[0] == 'b');
                        assert("tags"@[0] == 't' && "links"@[0] == 'l');
                        assert(v == texts_json(known_only(quellen, known)));
                        lemma_known_list(quellen, known);
                    },
                    OpView::Update { id, fields: f } => {
                        assert("id"@[0] == 'i' && "inhalt"@[0] == 'i' && "begruendung"@[0] == 'b');
                        assert("typ"@[0] == 't' && "tags"@[0] == 't' && "ueberholt"@[0] == 'u');
                        assert("erledigt"@[0] == 'e');
                        assert(f.quellen is Some && v == texts_json(
                            known_only(f.quellen->0, known),
                        ));
                        lemma_known_list(f.quellen->0, known);
                    },
                    OpView::Link { von, zu, polaritaet } => {
                        assert("von"@[0] == 'v' && "zu"@[0] == 'z' && "polaritaet"@[0] == 'p');
                    },
                    OpView::Noop => {},
                }
            }
        }
    }
}

proof fn lemma_lookup(fields: Seq<(Seq<char>, JsonView)>, key: Seq<char>)
    ensures
        lookup(fields, key) matches Some(v) ==> exists|i: int|
            0 <= i < fields.len() && fields[i] == (key, v),
    decreases fields.len(),
{
    if fields.len() > 0 && fields[0].0 != key {
        let rest = fields.skip(1);
        lemma_lookup(rest, key);
        if let Some(v) = lookup(rest, key) {
            let i = choose|i: int| 0 <= i < rest.len() && rest[i] == (key, v);
            assert(fields[i + 1] == (key, v));
        }
    } else if fields.len() > 0 {
        assert(fields[0] == (key, fields[0].1));
    }
}

proof fn lemma_known_list(ids: Seq<Seq<char>>, known: Seq<Seq<char>>)
    ensures
        text_list(texts_json(known_only(ids, known))) == Some(known_only(ids, known)),
        forall|i: int|
            0 <= i < known_only(ids, known).len() ==> known.contains(
                #[trigger] known_only(ids, known)[i],
            ),
{
    let k = known_only(ids, known);
    let p = |id: Seq<char>| known.contains(id);
    lemma_filter_sound(ids, p);
    assert forall|i: int| 0 <= i < k.len() implies known.contains(#[trigger] k[i]) by {
        assert(p(ids.filter(p)[i]));
    }
    assert(k.map_values(|t: Seq<char>| JsonView::Str(t)).map_values(|v: JsonView| v->Str_0) =~= k);
}

/// A request that is refused changes nothing, and neither does one that only reads. Only
/// what has changed or lists documents has to be stored.
pub proof fn refused_and_read_change_nothing(
    r: RequestView,
    enabled: bool,
    numbers: Numbers,
    g: GraphView,
    documents: Seq<QuelleView>,
    f: FreshView,
)
    ensures
        ({
            let d = dispatched(r, enabled, numbers, g, documents, f);
            &&& d.answer is Refused ==> d.graph == g && !d.changed && !d.save
            &&& !d.save ==> d.graph == g && !d.changed
            &&& d.changed ==> d.save && d.answer is Recorded
            &&& !d.changed ==> d.graph.nodes == g.nodes && d.graph.edges == g.edges
                && d.graph.fragen == g.fragen
        }),
{
}

/// A tool call of the read-only server never changes what the graph knows.
pub proof fn tools_change_no_knowledge(
    name: Seq<char>,
    r: RequestView,
    enabled: bool,
    numbers: Numbers,
    g: GraphView,
    documents: Seq<QuelleView>,
    f: FreshView,
)
    requires
        crate::mcp::op_of_tool(name) == Some(r.op),
    ensures
        ({
            let d = dispatched(r, enabled, numbers, g, documents, f);
            !d.changed && d.graph.nodes == g.nodes && d.graph.edges == g.edges && d.graph.fragen
                == g.fragen
        }),
{
    reveal_strlit("query");
    reveal_strlit("get");
    reveal_strlit("current_state");
    reveal_strlit("list_documents");
    reveal_strlit("ping");
    reveal_strlit("record");
    reveal_strlit("link");
    reveal_strlit("merge");
    reveal_strlit("add_fact");
    reveal_strlit("update");
    assert("query"@[0] != "merge"@[0]);
    assert("ping"@[0] != "link"@[0]);
}

/// A disabled project answers a ping and refuses everything else.
pub proof fn disabled_project_only_answers_ping(
    r: RequestView,
    numbers: Numbers,
    g: GraphView,
    documents: Seq<QuelleView>,
    f: FreshView,
)
    ensures
        ({
            let d = dispatched(r, false, numbers, g, documents, f);
            &&& d.graph == g && !d.changed && !d.save
            &&& r.op == "ping"@ ==> d.answer == AnswerView::Ready(
                ReplyView::Pong { project: r.project_dir },
            )
            &&& r.op != "ping"@ ==> d.answer == AnswerView::Refused(
                "knowledge is disabled for this project"@,
            )
        }),
{
}

/// Recording is idempotent: what was recorded once, and scored, is not recorded again but
/// pointed at.
pub proof fn recording_twice_is_once(
    g: GraphView,
    p: JsonView,
    numbers: Numbers,
    session: Seq<char>,
    f: FreshView,
    s: ScoringView,
    again: FreshView,
)
    requires
        record_done(g, p, numbers, session, f).changed,
    ensures
        ({
            let g2 = rescored(record_done(g, p, numbers, session, f).graph, s);
            let d = record_done(g2, p, numbers, session, again);
            !d.changed && d.graph == g2 && (d.answer matches AnswerView::Ready(
                ReplyView::Duplicate { .. },
            ))
        }),
{
    let typ = typ_field(p)->0;
    let inhalt = text_field(p, "inhalt"@)->0;
    let why = nonempty_text(p, "begruendung"@)->0;
    let n = new_node(
        f.node_id,
        f.datum,
        typ,
        inhalt,
        why,
        numbers.basis_score,
        "session"@,
        None,
        None,
    );
    let g1 = GraphView { nodes: g.nodes.push(n), ..g };
    lemma_annotated_extends(g1, f.node_id, p, session);
    let links = links_field(p);
    let a = annotated(g1, f.node_id, p, session);
    lemma_linked_nodes(a, f.node_id, f.edge_ids, links, links.len() as int);
    let i = g.nodes.len() as int;
    assert(g1.nodes[i] == n);
    assert(a.nodes[i].typ == typ && a.nodes[i].inhalt == inhalt);
    let g2 = rescored(record_done(g, p, numbers, session, f).graph, s);
    assert(g2.nodes[i].typ == typ && g2.nodes[i].inhalt == inhalt);
    recorded_is_duplicate(g2.nodes, i, inhalt);
}

} // verus!
